//! The sidecar backend's verifiable parts.
//!
//! The sidecar is an external transcription process reached over a
//! temporary WAV file; it prints one JSON result as the last line of its
//! standard output. Locating and invoking the process is the embedding's
//! work; what stands here is the engine's state, the last-line framing, and
//! the mapping of the process outcome to a result.

use vstd::prelude::*;

use crate::error::AsrError;
use crate::text::chars_of;

verus! {

/// The sidecar-backed engine: loaded once both paths are known.
#[derive(Debug)]
pub struct CoreMLEngine {
    /// The model directory handed to the sidecar.
    pub model_dir: Option<String>,
    /// The sidecar binary's path.
    pub sidecar_path: Option<String>,
}

impl CoreMLEngine {
    /// A fresh, unloaded engine.
    pub fn new() -> (r: CoreMLEngine)
        ensures
            r.model_dir is None,
            r.sidecar_path is None,
    {
        CoreMLEngine { model_dir: None, sidecar_path: None }
    }

    /// The engine's name.
    pub fn name(&self) -> (r: &'static str)
        ensures
            r@ == "CoreML"@,
    {
        "CoreML"
    }

    /// Loaded once the model directory and the sidecar binary are resolved.
    pub fn is_loaded(&self) -> (r: bool)
        ensures
            r == (self.model_dir is Some && self.sidecar_path is Some),
    {
        self.model_dir.is_some() && self.sidecar_path.is_some()
    }

    /// Records the resolved paths; the embedding verifies their existence
    /// before calling.
    pub fn configure(&mut self, model_dir: String, sidecar_path: String)
        ensures
            final(self).model_dir == Some(model_dir),
            final(self).sidecar_path == Some(sidecar_path),
    {
        self.model_dir = Some(model_dir);
        self.sidecar_path = Some(sidecar_path);
    }
}

impl Default for CoreMLEngine {
    /// A fresh, unloaded engine.
    fn default() -> (r: CoreMLEngine)
        ensures
            r.model_dir is None,
            r.sidecar_path is None,
    {
        CoreMLEngine::new()
    }
}

/// Index of the rightmost newline at or below `i`, or -1.
pub open spec fn rfind_newline_spec(s: Seq<char>, i: int) -> int
    decreases i + 1,
{
    if i < 0 {
        -1
    } else if 0 <= i < s.len() && s[i] == '\n' {
        i
    } else {
        rfind_newline_spec(s, i - 1)
    }
}

/// The last line of a process's output: a trailing newline closes the last
/// line rather than opening an empty one, and a carriage return before the
/// line break is dropped.
pub open spec fn last_line_spec(s: Seq<char>) -> Seq<char> {
    let body = if s.len() > 0 && s[s.len() - 1] == '\n' {
        s.subrange(0, s.len() - 1)
    } else {
        s
    };
    let k = rfind_newline_spec(body, body.len() - 1);
    let candidate = body.subrange(k + 1, body.len() as int);
    if candidate.len() > 0 && candidate[candidate.len() - 1] == '\r' {
        candidate.subrange(0, candidate.len() - 1)
    } else {
        candidate
    }
}

/// Extracts the last line of the sidecar's standard output, where its JSON
/// result stands.
pub fn sidecar_last_line(stdout: &str) -> (r: String)
    ensures
        r@ == last_line_spec(stdout@),
{
    let v = chars_of(stdout);
    let n: usize = v.len();
    let body_len: usize = if n > 0 && v[n - 1] == '\n' {
        n - 1
    } else {
        n
    };
    let ghost body = if stdout@.len() > 0 && stdout@[stdout@.len() - 1] == '\n' {
        stdout@.subrange(0, stdout@.len() - 1)
    } else {
        stdout@
    };
    proof {
        assert(body =~= v@.subrange(0, body_len as int));
    }
    // Scan for the rightmost newline within the body.
    let mut k: usize = body_len;
    let mut found: bool = false;
    while k > 0 && !found
        invariant
            k <= body_len,
            body_len <= n == v@.len(),
            body == v@.subrange(0, body_len as int),
            !found ==> rfind_newline_spec(body, body_len - 1) == rfind_newline_spec(
                body,
                k - 1,
            ),
            found ==> k < body_len && rfind_newline_spec(body, body_len - 1) == k as int,
        decreases k + (if found {
            0int
        } else {
            1int
        }),
    {
        proof {
            assert(body[k - 1] == v@[k - 1]);
        }
        if v[k - 1] == '\n' {
            k = k - 1;
            found = true;
        } else {
            k = k - 1;
        }
    }
    let start: usize = if found {
        k + 1
    } else {
        proof {
            assert(rfind_newline_spec(body, -1) == -1);
        }
        0
    };
    let ghost kk = rfind_newline_spec(body, body_len - 1);
    assert(start as int == kk + 1);
    let ghost candidate = body.subrange(kk + 1, body.len() as int);
    let mut out: Vec<char> = Vec::new();
    let real_end: usize = if body_len > start && v[body_len - 1] == '\r' {
        body_len - 1
    } else {
        body_len
    };
    let mut i: usize = start;
    while i < real_end
        invariant
            start <= i <= real_end <= body_len <= v@.len(),
            out@ == v@.subrange(start as int, i as int),
        decreases real_end - i,
    {
        out.push(v[i]);
        assert(out@ =~= v@.subrange(start as int, i + 1));
        i = i + 1;
    }
    proof {
        assert(candidate =~= v@.subrange(start as int, body_len as int));
        if candidate.len() > 0 && candidate[candidate.len() - 1] == '\r' {
            assert(real_end == body_len - 1);
            assert(out@ =~= candidate.subrange(0, candidate.len() - 1));
        } else {
            assert(real_end == body_len);
            assert(out@ =~= candidate);
        }
    }
    crate::text::string_from_chars(&out)
}

/// Maps the sidecar process's outcome to the engine's result: a successful
/// exit must carry a parseable result text; a failing exit surfaces its
/// error body, or a generic failure when none parsed.
pub fn sidecar_outcome(
    success: bool,
    result_text: Option<String>,
    error_message: Option<String>,
) -> (r: Result<String, AsrError>)
    ensures
        success && result_text is Some ==> (r matches Ok(t) && Some(t) == result_text),
        success && result_text is None ==> (r matches Err(e) && e matches
            AsrError::TranscriptionFailed(_)),
        !success ==> (r matches Err(e) && e matches AsrError::TranscriptionFailed(m) && (
        error_message matches Some(em) ==> m@ == em@)),
{
    if success {
        match result_text {
            Some(t) => Ok(t),
            None => Err(
                AsrError::TranscriptionFailed("unparseable sidecar output".to_owned()),
            ),
        }
    } else {
        match error_message {
            Some(em) => Err(AsrError::TranscriptionFailed(em)),
            None => Err(AsrError::TranscriptionFailed("sidecar failed".to_owned())),
        }
    }
}

} // verus!
