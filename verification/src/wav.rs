//! WAV container encoding: 16-bit little-endian PCM samples behind a
//! 44-byte RIFF header, mono, at a caller-chosen sample rate.

use vstd::prelude::*;

verus! {

/// Little-endian byte pair of a 16-bit word.
pub open spec fn le16(x: u16) -> Seq<u8> {
    seq![(x & 0xff) as u8, ((x >> 8) & 0xff) as u8]
}

/// Little-endian byte quadruple of a 32-bit word.
pub open spec fn le32(x: u32) -> Seq<u8> {
    seq![
        (x & 0xff) as u8,
        ((x >> 8) & 0xff) as u8,
        ((x >> 16) & 0xff) as u8,
        ((x >> 24) & 0xff) as u8,
    ]
}

/// 16-bit word read back from two little-endian bytes.
pub open spec fn read_u16_le(b: Seq<u8>, i: int) -> u16 {
    ((b[i] as u16) | ((b[i + 1] as u16) << 8)) as u16
}

/// 32-bit word read back from four little-endian bytes.
pub open spec fn read_u32_le(b: Seq<u8>, i: int) -> u32 {
    ((b[i] as u32) | ((b[i + 1] as u32) << 8) | ((b[i + 2] as u32) << 16) | ((b[i + 3] as u32)
        << 24)) as u32
}

/// The sample data of the container: each sample as two little-endian bytes.
pub open spec fn pcm16_bytes(samples: Seq<i16>) -> Seq<u8>
    decreases samples.len(),
{
    if samples.len() == 0 {
        Seq::empty()
    } else {
        pcm16_bytes(samples.drop_last()) + le16(samples.last() as u16)
    }
}

/// The 44-byte mono 16-bit PCM header: RIFF/WAVE marks, format block
/// (PCM, one channel, the given rate), and the data block size.
pub open spec fn wav_header(data_len: u32, rate: u32) -> Seq<u8> {
    seq![0x52u8, 0x49u8, 0x46u8, 0x46u8]  // "RIFF"
     + le32(((data_len + 36) as u32)) + seq![0x57u8, 0x41u8, 0x56u8, 0x45u8]  // "WAVE"
     + seq![0x66u8, 0x6du8, 0x74u8, 0x20u8]  // "fmt "
     + le32(16u32)  // format block length
     + le16(1u16)  // PCM
     + le16(1u16)  // mono
     + le32(rate) + le32(((rate * 2) as u32))  // bytes per second
     + le16(2u16)  // block alignment
     + le16(16u16)  // bits per sample
     + seq![0x64u8, 0x61u8, 0x74u8, 0x61u8]  // "data"
     + le32(data_len)
}

/// The whole container for the given samples and rate.
pub open spec fn wav_bytes(samples: Seq<i16>, rate: u32) -> Seq<u8> {
    wav_header((samples.len() * 2) as u32, rate) + pcm16_bytes(samples)
}

pub proof fn lemma_pcm16_len(samples: Seq<i16>)
    ensures
        pcm16_bytes(samples).len() == samples.len() * 2,
    decreases samples.len(),
{
    if samples.len() > 0 {
        lemma_pcm16_len(samples.drop_last());
    }
}

proof fn lemma_pcm16_step(samples: Seq<i16>, i: int)
    requires
        0 <= i < samples.len(),
    ensures
        pcm16_bytes(samples.take(i + 1)) == pcm16_bytes(samples.take(i)) + le16(samples[i] as u16),
{
    assert(samples.take(i + 1).drop_last() =~= samples.take(i));
    assert(samples.take(i + 1).last() == samples[i]);
}

fn push_le16(out: &mut Vec<u8>, x: u16)
    ensures
        final(out)@ == old(out)@ + le16(x),
{
    out.push((x & 0xff) as u8);
    out.push(((x >> 8) & 0xff) as u8);
    assert(out@ =~= old(out)@ + le16(x));
}

fn push_le32(out: &mut Vec<u8>, x: u32)
    ensures
        final(out)@ == old(out)@ + le32(x),
{
    out.push((x & 0xff) as u8);
    out.push(((x >> 8) & 0xff) as u8);
    out.push(((x >> 16) & 0xff) as u8);
    out.push(((x >> 24) & 0xff) as u8);
    assert(out@ =~= old(out)@ + le32(x));
}

/// Encode samples already converted to signed 16-bit PCM into a complete,
/// self-describing mono WAV byte sequence at the given sample rate.
pub fn samples_to_wav_bytes(samples: &Vec<i16>, sample_rate: u32) -> (r: Vec<u8>)
    requires
        samples@.len() * 2 + 36 <= u32::MAX,
        sample_rate * 2 <= u32::MAX,
    ensures
        r@ == wav_bytes(samples@, sample_rate),
{
    let n = samples.len();
    let data_len: u32 = (n as u32) * 2;
    let mut out: Vec<u8> = Vec::new();
    out.push(0x52);
    out.push(0x49);
    out.push(0x46);
    out.push(0x46);
    push_le32(&mut out, data_len + 36);
    out.push(0x57);
    out.push(0x41);
    out.push(0x56);
    out.push(0x45);
    out.push(0x66);
    out.push(0x6d);
    out.push(0x74);
    out.push(0x20);
    push_le32(&mut out, 16);
    push_le16(&mut out, 1);
    push_le16(&mut out, 1);
    push_le32(&mut out, sample_rate);
    push_le32(&mut out, sample_rate * 2);
    push_le16(&mut out, 2);
    push_le16(&mut out, 16);
    out.push(0x64);
    out.push(0x61);
    out.push(0x74);
    out.push(0x61);
    push_le32(&mut out, data_len);
    assert(out@ =~= wav_header(data_len, sample_rate));
    let mut i: usize = 0;
    while i < n
        invariant
            n == samples@.len(),
            out@ == wav_header(data_len, sample_rate) + pcm16_bytes(samples@.take(i as int)),
            i <= n,
        decreases n - i,
    {
        let s = samples[i];
        push_le16(&mut out, s as u16);
        proof {
            lemma_pcm16_step(samples@, i as int);
            assert(out@ =~= wav_header(data_len, sample_rate) + pcm16_bytes(
                samples@.take(i as int + 1),
            ));
        }
        i = i + 1;
    }
    proof {
        assert(samples@.take(n as int) =~= samples@);
    }
    out
}

/// Channel count stated by the container's format block, where present.
pub open spec fn spec_wav_channels(b: Seq<u8>) -> Option<u16> {
    if b.len() >= 44 {
        Some(read_u16_le(b, 22))
    } else {
        None
    }
}

/// Sample rate stated by the container's format block, where present.
pub open spec fn spec_wav_sample_rate(b: Seq<u8>) -> Option<u32> {
    if b.len() >= 44 {
        Some(read_u32_le(b, 24))
    } else {
        None
    }
}

/// Sample count derived from the container's data block size, where present.
pub open spec fn spec_wav_sample_count(b: Seq<u8>) -> Option<u32> {
    if b.len() >= 44 {
        Some(read_u32_le(b, 40) / 2)
    } else {
        None
    }
}

/// Read the channel count field back out of an encoded container.
pub fn wav_channels(b: &Vec<u8>) -> (r: Option<u16>)
    ensures
        r == spec_wav_channels(b@),
{
    if b.len() >= 44 {
        Some((b[22] as u16) | ((b[23] as u16) << 8))
    } else {
        None
    }
}

/// Read the sample rate field back out of an encoded container.
pub fn wav_sample_rate(b: &Vec<u8>) -> (r: Option<u32>)
    ensures
        r == spec_wav_sample_rate(b@),
{
    if b.len() >= 44 {
        Some((b[24] as u32) | ((b[25] as u32) << 8) | ((b[26] as u32) << 16) | ((b[27] as u32)
            << 24))
    } else {
        None
    }
}

/// Read the sample count back out of an encoded container's data block size.
pub fn wav_sample_count(b: &Vec<u8>) -> (r: Option<u32>)
    ensures
        r == spec_wav_sample_count(b@),
{
    if b.len() >= 44 {
        Some(
            ((b[40] as u32) | ((b[41] as u32) << 8) | ((b[42] as u32) << 16) | ((b[43] as u32)
                << 24)) / 2,
        )
    } else {
        None
    }
}

/// Two little-endian bytes of a word read back as the word itself.
pub proof fn lemma_le16_roundtrip(x: u16)
    ensures
        read_u16_le(le16(x), 0) == x,
{
    let lo = (x & 0xff) as u8;
    let hi = ((x >> 8) & 0xff) as u8;
    assert((((lo as u16) | ((hi as u16) << 8)) as u16) == x) by (bit_vector)
        requires
            lo == (x & 0xff) as u8,
            hi == ((x >> 8) & 0xff) as u8,
    ;
}

/// Four little-endian bytes of a word read back as the word itself.
pub proof fn lemma_le32_roundtrip(x: u32)
    ensures
        read_u32_le(le32(x), 0) == x,
{
    let b0 = (x & 0xff) as u8;
    let b1 = ((x >> 8) & 0xff) as u8;
    let b2 = ((x >> 16) & 0xff) as u8;
    let b3 = ((x >> 24) & 0xff) as u8;
    assert((((b0 as u32) | ((b1 as u32) << 8) | ((b2 as u32) << 16) | ((b3 as u32) << 24)) as u32)
        == x) by (bit_vector)
        requires
            b0 == (x & 0xff) as u8,
            b1 == ((x >> 8) & 0xff) as u8,
            b2 == ((x >> 16) & 0xff) as u8,
            b3 == ((x >> 24) & 0xff) as u8,
    ;
}

/// Reading the format fields back out of an encoded container reproduces the
/// channel count (one), the sample rate, and the sample count that were used
/// for encoding.
pub proof fn lemma_wav_roundtrip(samples: Seq<i16>, rate: u32)
    requires
        samples.len() * 2 + 36 <= u32::MAX,
        rate * 2 <= u32::MAX,
    ensures
        spec_wav_channels(wav_bytes(samples, rate)) == Some(1u16),
        spec_wav_sample_rate(wav_bytes(samples, rate)) == Some(rate),
        spec_wav_sample_count(wav_bytes(samples, rate)) == Some(samples.len() as u32),
{
    let dl = (samples.len() * 2) as u32;
    let b = wav_bytes(samples, rate);
    lemma_pcm16_len(samples);
    assert(b.len() >= 44);
    assert(b[22] == le16(1u16)[0] && b[23] == le16(1u16)[1]);
    lemma_le16_roundtrip(1u16);
    assert(read_u16_le(b, 22) == read_u16_le(le16(1u16), 0));
    assert(b[24] == le32(rate)[0] && b[25] == le32(rate)[1] && b[26] == le32(rate)[2] && b[27]
        == le32(rate)[3]);
    lemma_le32_roundtrip(rate);
    assert(read_u32_le(b, 24) == read_u32_le(le32(rate), 0));
    assert(b[40] == le32(dl)[0] && b[41] == le32(dl)[1] && b[42] == le32(dl)[2] && b[43] == le32(
        dl,
    )[3]);
    lemma_le32_roundtrip(dl);
    assert(read_u32_le(b, 40) == read_u32_le(le32(dl), 0));
    assert(dl / 2 == samples.len() as u32);
}

} // verus!
