//! The WAV container, 16-bit PCM: emission for the sidecar handoff and
//! parsing for file input.
//!
//! A file is the RIFF magic, the WAVE form type, and a chunk list; the
//! format chunk must describe integer PCM at 16 bits and precede the data
//! chunk. Emission writes the canonical 44-byte header around the samples.

use vstd::prelude::*;

use crate::error::AsrError;

verus! {

/// The most samples an emitted file may carry, so the RIFF size fits.
pub const MAX_WAV_SAMPLES: usize = 0x3fff_0000;

/// The bytes of a 32-bit value, little endian.
pub open spec fn u32_le_spec(v: int) -> Seq<u8> {
    seq![
        (v % 256) as u8,
        ((v / 256) % 256) as u8,
        ((v / 65536) % 256) as u8,
        ((v / 16777216) % 256) as u8,
    ]
}

/// The bytes of a 16-bit value, little endian.
pub open spec fn u16_le_spec(v: int) -> Seq<u8> {
    seq![(v % 256) as u8, ((v / 256) % 256) as u8]
}

/// A sample's unsigned 16-bit pattern.
pub open spec fn i16_bits_spec(v: i16) -> int {
    if v >= 0 {
        v as int
    } else {
        v as int + 65536
    }
}

/// The sample read back from an unsigned 16-bit pattern.
pub open spec fn i16_from_bits_spec(bits: int) -> i16 {
    if bits < 32768 {
        bits as i16
    } else {
        (bits - 65536) as i16
    }
}

/// The interleaved little-endian bytes of the samples.
pub open spec fn sample_bytes_spec(samples: Seq<i16>) -> Seq<u8> {
    Seq::new(
        samples.len() * 2,
        |i: int|
            if i % 2 == 0 {
                (i16_bits_spec(samples[i / 2]) % 256) as u8
            } else {
                (i16_bits_spec(samples[i / 2]) / 256) as u8
            },
    )
}

/// The canonical mono 16-bit PCM header for `data_len` bytes of samples.
pub open spec fn wav_header_spec(rate: int, data_len: int) -> Seq<u8> {
    seq![0x52u8, 0x49u8, 0x46u8, 0x46u8]  // RIFF
     + u32_le_spec(36 + data_len) + seq![0x57u8, 0x41u8, 0x56u8, 0x45u8]  // WAVE
     + seq![0x66u8, 0x6du8, 0x74u8, 0x20u8]  // fmt_
     + u32_le_spec(16) + u16_le_spec(1)  // integer PCM
     + u16_le_spec(1)  // mono
     + u32_le_spec(rate) + u32_le_spec(rate * 2)  // byte rate
     + u16_le_spec(2)  // block align
     + u16_le_spec(16)  // bits per sample
     + seq![0x64u8, 0x61u8, 0x74u8, 0x61u8]  // data
     + u32_le_spec(data_len)
}

/// A whole emitted file.
pub open spec fn wav_bytes_spec(samples: Seq<i16>, rate: int) -> Seq<u8> {
    wav_header_spec(rate, samples.len() * 2int) + sample_bytes_spec(samples)
}

/// Pushes a 32-bit value little endian.
fn push_u32_le(out: &mut Vec<u8>, v: u32)
    ensures
        final(out)@ == old(out)@ + u32_le_spec(v as int),
{
    out.push((v % 256) as u8);
    out.push(((v / 256) % 256) as u8);
    out.push(((v / 65536) % 256) as u8);
    out.push(((v / 16777216) % 256) as u8);
    assert(final(out)@ =~= old(out)@ + u32_le_spec(v as int));
}

/// Pushes a 16-bit value little endian.
fn push_u16_le(out: &mut Vec<u8>, v: u16)
    ensures
        final(out)@ == old(out)@ + u16_le_spec(v as int),
{
    out.push((v % 256) as u8);
    out.push((v / 256) as u8);
    assert(final(out)@ =~= old(out)@ + u16_le_spec(v as int));
}

/// The unsigned bit pattern of a sample.
fn i16_bits(v: i16) -> (r: u16)
    ensures
        r as int == i16_bits_spec(v),
{
    if v >= 0 {
        v as u16
    } else {
        let wide: i32 = v as i32;
        (wide + 65536) as u16
    }
}

/// The sample of an unsigned bit pattern.
fn i16_from_bits(bits: u16) -> (r: i16)
    ensures
        r == i16_from_bits_spec(bits as int),
{
    if bits < 32768 {
        bits as i16
    } else {
        let wide: i32 = bits as i32;
        (wide - 65536) as i16
    }
}

/// Encodes mono 16-bit PCM at the given rate: the canonical 44-byte header
/// followed by the little-endian samples.
pub fn encode_wav_pcm16(samples: &Vec<i16>, sample_rate: u32) -> (r: Vec<u8>)
    requires
        samples@.len() <= MAX_WAV_SAMPLES,
        sample_rate <= 0x7fff_ffff,
    ensures
        r@ == wav_bytes_spec(samples@, sample_rate as int),
{
    let n: usize = samples.len();
    let data_len: u32 = (n as u32) * 2;
    let mut out: Vec<u8> = Vec::new();
    out.push(0x52);
    out.push(0x49);
    out.push(0x46);
    out.push(0x46);
    push_u32_le(&mut out, 36 + data_len);
    out.push(0x57);
    out.push(0x41);
    out.push(0x56);
    out.push(0x45);
    out.push(0x66);
    out.push(0x6d);
    out.push(0x74);
    out.push(0x20);
    push_u32_le(&mut out, 16);
    push_u16_le(&mut out, 1);
    push_u16_le(&mut out, 1);
    push_u32_le(&mut out, sample_rate);
    push_u32_le(&mut out, sample_rate * 2);
    push_u16_le(&mut out, 2);
    push_u16_le(&mut out, 16);
    out.push(0x64);
    out.push(0x61);
    out.push(0x74);
    out.push(0x61);
    push_u32_le(&mut out, data_len);
    proof {
        assert(out@ =~= wav_header_spec(sample_rate as int, samples@.len() * 2int));
    }
    let ghost header = out@;
    let mut i: usize = 0;
    while i < n
        invariant
            i <= n,
            n == samples@.len(),
            out@ == header + sample_bytes_spec(samples@.subrange(0, i as int)),
        decreases n - i,
    {
        let bits = i16_bits(samples[i]);
        out.push((bits % 256) as u8);
        out.push((bits / 256) as u8);
        proof {
            assert(out@ =~= header + sample_bytes_spec(samples@.subrange(0, i + 1))) by {
                let pre = sample_bytes_spec(samples@.subrange(0, i as int));
                let post = sample_bytes_spec(samples@.subrange(0, i + 1));
                assert(post.len() == pre.len() + 2);
                assert(forall|j: int| 0 <= j < pre.len() ==> post[j] == pre[j]) by {
                    assert(forall|j: int|
                        0 <= j < i ==> samples@.subrange(0, i + 1)[j] == #[trigger] samples@.subrange(
                            0,
                            i as int,
                        )[j]);
                }
                assert(samples@.subrange(0, i + 1)[i as int] == samples@[i as int]);
                assert(post[2 * i] == (i16_bits_spec(samples@[i as int]) % 256) as u8);
                assert(post[2 * i + 1] == (i16_bits_spec(samples@[i as int]) / 256) as u8);
            }
        }
        i = i + 1;
    }
    proof {
        assert(samples@.subrange(0, n as int) =~= samples@);
    }
    out
}

/// A 32-bit little-endian read.
pub open spec fn read_u32_spec(b: Seq<u8>, pos: int) -> int {
    b[pos] + 256 * (b[pos + 1] as int) + 65536 * (b[pos + 2] as int) + 16777216 * (b[pos
        + 3] as int)
}

/// A 16-bit little-endian read.
pub open spec fn read_u16_spec(b: Seq<u8>, pos: int) -> int {
    b[pos] + 256 * (b[pos + 1] as int)
}

/// The body position of the first chunk with the given four-byte id at or
/// after `pos`, scanning the chunk list; -1 when none is found. Chunk
/// bodies are padded to even lengths.
pub open spec fn find_chunk_spec(b: Seq<u8>, pos: int, id: Seq<u8>) -> int
    decreases (if b.len() - pos < 0 {
        0int
    } else {
        b.len() - pos
    }),
    when 0 <= pos
{
    if pos + 8 > b.len() {
        -1
    } else if b.subrange(pos, pos + 4) == id {
        pos
    } else {
        let size = read_u32_spec(b, pos + 4);
        find_chunk_spec(b, pos + 8 + size + (size % 2), id)
    }
}

/// What parsing yields: the rate, the channel count, and the interleaved
/// samples.
pub open spec fn parse_wav_spec(b: Seq<u8>) -> Option<(int, int, Seq<i16>)> {
    if b.len() < 12 || b.subrange(0, 4) != seq![0x52u8, 0x49u8, 0x46u8, 0x46u8] || b.subrange(
        8,
        12,
    ) != seq![0x57u8, 0x41u8, 0x56u8, 0x45u8] {
        None
    } else {
        let f = find_chunk_spec(b, 12, seq![0x66u8, 0x6du8, 0x74u8, 0x20u8]);
        if f < 0 {
            None
        } else {
            let fsize = read_u32_spec(b, f + 4);
            if fsize < 16 || f + 8 + fsize > b.len() {
                None
            } else if read_u16_spec(b, f + 8) != 1 || read_u16_spec(b, f + 22) != 16 {
                None
            } else {
                let channels = read_u16_spec(b, f + 10);
                let rate = read_u32_spec(b, f + 12);
                let d = find_chunk_spec(
                    b,
                    f + 8 + fsize + (fsize % 2),
                    seq![0x64u8, 0x61u8, 0x74u8, 0x61u8],
                );
                if d < 0 {
                    None
                } else {
                    let dsize = read_u32_spec(b, d + 4);
                    if d + 8 + dsize > b.len() {
                        None
                    } else {
                        let count = dsize / 2;
                        Some(
                            (
                                rate,
                                channels,
                                Seq::new(
                                    count as nat,
                                    |k: int| i16_from_bits_spec(read_u16_spec(b, d + 8 + 2 * k)),
                                ),
                            ),
                        )
                    }
                }
            }
        }
    }
}

/// Parsed 16-bit PCM audio.
#[derive(Debug)]
pub struct WavAudio {
    /// The container's sample rate.
    pub sample_rate: u32,
    /// The channel count; multi-channel samples are interleaved.
    pub channels: u16,
    /// The samples, interleaved when multi-channel.
    pub samples: Vec<i16>,
}

/// A 32-bit little-endian read.
fn read_u32(b: &Vec<u8>, pos: usize) -> (r: u32)
    requires
        pos + 4 <= b@.len(),
    ensures
        r as int == read_u32_spec(b@, pos as int),
        r < 0x1_0000_0000,
{
    let n: usize = b.len();
    assert(pos + 4 <= n);
    let b0: u32 = b[pos] as u32;
    let b1: u32 = b[pos + 1] as u32;
    let b2: u32 = b[pos + 2] as u32;
    let b3: u32 = b[pos + 3] as u32;
    b0 + 256 * b1 + 65536 * b2 + 16777216 * b3
}

/// A 16-bit little-endian read.
fn read_u16(b: &Vec<u8>, pos: usize) -> (r: u16)
    requires
        pos + 2 <= b@.len(),
    ensures
        r as int == read_u16_spec(b@, pos as int),
{
    let n: usize = b.len();
    assert(pos + 2 <= n);
    let b0: u16 = b[pos] as u16;
    let b1: u16 = b[pos + 1] as u16;
    b0 + 256 * b1
}

/// Whether the four bytes at `pos` match the id.
fn id_matches(b: &Vec<u8>, pos: usize, i0: u8, i1: u8, i2: u8, i3: u8) -> (r: bool)
    requires
        pos + 4 <= b@.len(),
    ensures
        r == (b@.subrange(pos as int, pos + 4) == seq![i0, i1, i2, i3]),
{
    let n: usize = b.len();
    assert(pos + 4 <= n);
    let m = b[pos] == i0 && b[pos + 1] == i1 && b[pos + 2] == i2 && b[pos + 3] == i3;
    proof {
        if m {
            assert(b@.subrange(pos as int, pos + 4) =~= seq![i0, i1, i2, i3]);
        } else {
            assert(b@.subrange(pos as int, pos + 4) != seq![i0, i1, i2, i3]) by {
                let sub = b@.subrange(pos as int, pos + 4);
                if sub == seq![i0, i1, i2, i3] {
                    assert(sub[0] == i0 && sub[1] == i1 && sub[2] == i2 && sub[3] == i3);
                }
            }
        }
    }
    m
}

/// Finds a chunk's position by its id, or `None`.
fn find_chunk(b: &Vec<u8>, start: usize, i0: u8, i1: u8, i2: u8, i3: u8) -> (r: Option<usize>)
    requires
        b@.len() <= 0x4000_0000,
        start <= 0x4000_0010,
    ensures
        match r {
            Some(p) => find_chunk_spec(b@, start as int, seq![i0, i1, i2, i3]) == p as int && p + 8
                <= b@.len(),
            None => find_chunk_spec(b@, start as int, seq![i0, i1, i2, i3]) == -1,
        },
{
    let n: usize = b.len();
    let mut pos: u64 = start as u64;
    loop
        invariant
            n == b@.len() <= 0x4000_0000,
            pos <= 0x7fff_ffff_ffff,
            find_chunk_spec(b@, pos as int, seq![i0, i1, i2, i3]) == find_chunk_spec(
                b@,
                start as int,
                seq![i0, i1, i2, i3],
            ),
        ensures
            match (if pos + 8 <= n as u64 {
                Some(pos as usize)
            } else {
                None::<usize>
            }) {
                Some(p) => find_chunk_spec(b@, start as int, seq![i0, i1, i2, i3]) == p as int && p
                    + 8 <= b@.len() && b@.subrange(p as int, p + 4) == seq![i0, i1, i2, i3],
                None => find_chunk_spec(b@, start as int, seq![i0, i1, i2, i3]) == -1,
            },
        decreases b@.len() + 8 - pos,
    {
        if pos + 8 > n as u64 {
            proof {
                assert(find_chunk_spec(b@, pos as int, seq![i0, i1, i2, i3]) == -1);
            }
            break ;
        }
        let p: usize = pos as usize;
        if id_matches(b, p, i0, i1, i2, i3) {
            proof {
                assert(find_chunk_spec(b@, pos as int, seq![i0, i1, i2, i3]) == pos as int);
            }
            break ;
        }
        let size: u32 = read_u32(b, p + 4);
        let advance: u64 = 8 + (size as u64) + ((size as u64) % 2);
        proof {
            assert(find_chunk_spec(b@, pos as int, seq![i0, i1, i2, i3]) == find_chunk_spec(
                b@,
                pos as int + 8 + size as int + (size as int % 2),
                seq![i0, i1, i2, i3],
            ));
        }
        pos = pos + advance;
        if pos > n as u64 {
            // Nothing further can match: the next header would not fit.
            proof {
                assert(find_chunk_spec(b@, pos as int, seq![i0, i1, i2, i3]) == -1);
            }
            pos = (n as u64) + 8;
            proof {
                assert(find_chunk_spec(b@, pos as int, seq![i0, i1, i2, i3]) == -1);
            }
            break ;
        }
    }
    if pos + 8 <= n as u64 {
        Some(pos as usize)
    } else {
        None
    }
}

/// Parses a 16-bit integer-PCM WAV file: the RIFF magic, a format chunk
/// describing PCM at 16 bits, and the data chunk's interleaved samples.
/// Anything else is an unsupported audio format.
pub fn parse_wav_pcm16(bytes: &Vec<u8>) -> (r: Result<WavAudio, AsrError>)
    requires
        bytes@.len() <= 0x4000_0000,
    ensures
        match parse_wav_spec(bytes@) {
            Some((rate, channels, samples)) => r matches Ok(w) && w.sample_rate as int == rate
                && w.channels as int == channels && w.samples@ == samples,
            None => r matches Err(e) && e matches AsrError::UnsupportedAudioFormat(_),
        },
{
    let n: usize = bytes.len();
    if n < 12 {
        proof {
            assert(parse_wav_spec(bytes@) is None);
        }
        return Err(AsrError::UnsupportedAudioFormat("not a RIFF file".to_owned()));
    }
    if !id_matches(bytes, 0, 0x52, 0x49, 0x46, 0x46) || !id_matches(bytes, 8, 0x57, 0x41, 0x56, 0x45)
    {
        return Err(AsrError::UnsupportedAudioFormat("not a RIFF WAVE file".to_owned()));
    }
    let f: usize = match find_chunk(bytes, 12, 0x66, 0x6d, 0x74, 0x20) {
        Some(p) => p,
        None => {
            return Err(AsrError::UnsupportedAudioFormat("no format chunk".to_owned()));
        },
    };
    let fsize: u32 = read_u32(bytes, f + 4);
    if fsize < 16 || (f as u64) + 8 + (fsize as u64) > n as u64 {
        return Err(AsrError::UnsupportedAudioFormat("truncated format chunk".to_owned()));
    }
    let audio_format = read_u16(bytes, f + 8);
    let bits = read_u16(bytes, f + 22);
    if audio_format != 1 || bits != 16 {
        return Err(
            AsrError::UnsupportedAudioFormat("only 16-bit integer PCM is supported".to_owned()),
        );
    }
    let channels = read_u16(bytes, f + 10);
    let rate = read_u32(bytes, f + 12);
    let pad: usize = (fsize as usize) % 2;
    let d: usize = match find_chunk(bytes, f + 8 + (fsize as usize) + pad, 0x64, 0x61, 0x74, 0x61) {
        Some(p) => p,
        None => {
            return Err(AsrError::UnsupportedAudioFormat("no data chunk".to_owned()));
        },
    };
    let dsize: u32 = read_u32(bytes, d + 4);
    if (d as u64) + 8 + (dsize as u64) > n as u64 {
        return Err(AsrError::UnsupportedAudioFormat("truncated data chunk".to_owned()));
    }
    let count: usize = (dsize as usize) / 2;
    let ghost expected = Seq::new(
        count as nat,
        |k: int| i16_from_bits_spec(read_u16_spec(bytes@, d + 8 + 2 * k)),
    );
    proof {
        assert(2 * (dsize as int / 2) <= dsize as int);
        assert(d + 8 + 2 * (count as int) <= bytes@.len());
    }
    let mut samples: Vec<i16> = Vec::new();
    let mut k: usize = 0;
    while k < count
        invariant
            k <= count,
            bytes@.len() <= 0x4000_0000,
            d + 8 + 2 * count <= bytes@.len(),
            expected.len() == count,
            forall|j: int|
                0 <= j < count ==> expected[j] == i16_from_bits_spec(
                    read_u16_spec(bytes@, d + 8 + 2 * j),
                ),
            samples@ == expected.subrange(0, k as int),
        decreases count - k,
    {
        let bits = read_u16(bytes, d + 8 + 2 * k);
        samples.push(i16_from_bits(bits));
        assert(samples@ =~= expected.subrange(0, k + 1));
        k = k + 1;
    }
    proof {
        assert(expected.subrange(0, count as int) =~= expected);
    }
    Ok(WavAudio { sample_rate: rate, channels, samples })
}

/// Emitting a sample run and parsing it back yields the same samples, the
/// same rate, and one channel: the 16-bit WAV round trip is lossless.
#[verifier::rlimit(80)]
pub proof fn lemma_wav_roundtrip(samples: Seq<i16>, rate: int)
    requires
        samples.len() <= MAX_WAV_SAMPLES,
        0 <= rate <= 0x7fff_ffff,
    ensures
        parse_wav_spec(wav_bytes_spec(samples, rate)) == Some((rate, 1int, samples)),
{
    let b = wav_bytes_spec(samples, rate);
    let data_len = samples.len() * 2int;
    assert(b.len() == 44 + data_len);
    assert(b.subrange(0, 4) =~= seq![0x52u8, 0x49u8, 0x46u8, 0x46u8]);
    assert(b.subrange(8, 12) =~= seq![0x57u8, 0x41u8, 0x56u8, 0x45u8]);
    // The format chunk stands at 12.
    assert(b.subrange(12, 16) =~= seq![0x66u8, 0x6du8, 0x74u8, 0x20u8]);
    assert(find_chunk_spec(b, 12, seq![0x66u8, 0x6du8, 0x74u8, 0x20u8]) == 12);
    lemma_u32_le_read(b, 16, 16);
    assert(read_u32_spec(b, 16) == 16);
    lemma_u16_le_read(b, 20, 1);
    lemma_u16_le_read(b, 22, 1);
    lemma_u32_le_read(b, 24, rate);
    lemma_u16_le_read(b, 32, 2);
    lemma_u16_le_read(b, 34, 16);
    // The data chunk follows at 36.
    assert(b.subrange(36, 40) =~= seq![0x64u8, 0x61u8, 0x74u8, 0x61u8]);
    assert(find_chunk_spec(b, 36, seq![0x64u8, 0x61u8, 0x74u8, 0x61u8]) == 36);
    lemma_u32_le_read(b, 40, data_len);
    assert(read_u32_spec(b, 40) == data_len);
    let parsed = Seq::new(
        (data_len / 2) as nat,
        |k: int| i16_from_bits_spec(read_u16_spec(b, 44 + 2 * k)),
    );
    assert(parsed =~= samples) by {
        assert forall|k: int| 0 <= k < samples.len() implies parsed[k] == samples[k] by {
            assert(b[44 + 2 * k] == sample_bytes_spec(samples)[2 * k]);
            assert(b[44 + 2 * k + 1] == sample_bytes_spec(samples)[2 * k + 1]);
            assert(sample_bytes_spec(samples)[2 * k] == (i16_bits_spec(samples[k]) % 256) as u8);
            assert(sample_bytes_spec(samples)[2 * k + 1] == (i16_bits_spec(samples[k])
                / 256) as u8);
            lemma_bits_split_roundtrip(samples[k]);
        }
    }
}

/// Reading back a written 32-bit value.
proof fn lemma_u32_le_read(b: Seq<u8>, pos: int, v: int)
    requires
        0 <= v < 0x1_0000_0000,
        0 <= pos,
        pos + 4 <= b.len(),
        b[pos] == (v % 256) as u8,
        b[pos + 1] == ((v / 256) % 256) as u8,
        b[pos + 2] == ((v / 65536) % 256) as u8,
        b[pos + 3] == ((v / 16777216) % 256) as u8,
    ensures
        read_u32_spec(b, pos) == v,
{
    assert(read_u32_spec(b, pos) == v) by (nonlinear_arith)
        requires
            0 <= v < 0x1_0000_0000,
            read_u32_spec(b, pos) == (v % 256) + 256 * ((v / 256) % 256) + 65536 * ((v / 65536)
                % 256) + 16777216 * ((v / 16777216) % 256),
    ;
}

/// Reading back a written 16-bit value.
proof fn lemma_u16_le_read(b: Seq<u8>, pos: int, v: int)
    requires
        0 <= v < 0x1_0000,
        0 <= pos,
        pos + 2 <= b.len(),
        b[pos] == (v % 256) as u8,
        b[pos + 1] == ((v / 256) % 256) as u8,
    ensures
        read_u16_spec(b, pos) == v,
{
    assert(read_u16_spec(b, pos) == v) by (nonlinear_arith)
        requires
            0 <= v < 0x1_0000,
            read_u16_spec(b, pos) == (v % 256) + 256 * ((v / 256) % 256),
    ;
}

/// A sample's two bytes reassemble to the sample.
proof fn lemma_bits_split_roundtrip(v: i16)
    ensures
        i16_from_bits_spec((i16_bits_spec(v) % 256) + 256 * ((i16_bits_spec(v) / 256) as u8 as int))
            == v,
{
    let bits = i16_bits_spec(v);
    assert(0 <= bits < 65536);
    assert((bits / 256) < 256);
    assert(((bits / 256) as u8) as int == bits / 256);
    assert((bits % 256) + 256 * (bits / 256) == bits) by (nonlinear_arith)
        requires
            0 <= bits,
    ;
}

} // verus!
