//! The canonical 44-byte header of a PCM WAV (RIFF/WAVE) file.
use vstd::prelude::*;

verus! {

/// The little-endian encoding of the low 16 bits of `x`.
pub open spec fn le16(x: nat) -> Seq<u8> {
    seq![(x % 256) as u8, ((x / 256) % 256) as u8]
}

/// The little-endian encoding of the low 32 bits of `x`.
pub open spec fn le32(x: nat) -> Seq<u8> {
    seq![
        (x % 256) as u8,
        ((x / 0x100) % 256) as u8,
        ((x / 0x1_0000) % 256) as u8,
        ((x / 0x100_0000) % 256) as u8,
    ]
}

/// The value that two little-endian bytes stand for.
pub open spec fn read_le16(b: Seq<u8>) -> nat {
    (b[0] + 256 * b[1]) as nat
}

/// The value that four little-endian bytes stand for.
pub open spec fn read_le32(b: Seq<u8>) -> nat {
    (b[0] + 0x100 * b[1] + 0x1_0000 * b[2] + 0x100_0000 * b[3]) as nat
}

/// "RIFF"
pub open spec fn riff_tag() -> Seq<u8> {
    seq![0x52u8, 0x49u8, 0x46u8, 0x46u8]
}

/// "WAVE"
pub open spec fn wave_tag() -> Seq<u8> {
    seq![0x57u8, 0x41u8, 0x56u8, 0x45u8]
}

/// "fmt "
pub open spec fn fmt_tag() -> Seq<u8> {
    seq![0x66u8, 0x6du8, 0x74u8, 0x20u8]
}

/// "data"
pub open spec fn data_tag() -> Seq<u8> {
    seq![0x64u8, 0x61u8, 0x74u8, 0x61u8]
}

/// Bytes per second of audio: `sample_rate * channels * bits_per_sample / 8`.
pub open spec fn byte_rate(sample_rate: nat, channels: nat, bits_per_sample: nat) -> nat {
    sample_rate * channels * bits_per_sample / 8
}

/// Bytes per frame (one sample of every channel): `channels * bits_per_sample / 8`.
pub open spec fn block_align(channels: nat, bits_per_sample: nat) -> nat {
    channels * bits_per_sample / 8
}

/// The header, field by field: the RIFF chunk (whose size counts the 36 header
/// bytes after it plus the data), the 16-byte `fmt ` chunk describing linear PCM,
/// and the header of the `data` chunk.
pub open spec fn wav_header(sample_rate: nat, channels: nat, bits_per_sample: nat, data_size: nat) -> Seq<u8> {
    riff_tag() + le32(36 + data_size) + wave_tag()
        + fmt_tag() + le32(16) + le16(1) + le16(channels) + le32(sample_rate)
        + le32(byte_rate(sample_rate, channels, bits_per_sample))
        + le16(block_align(channels, bits_per_sample)) + le16(bits_per_sample)
        + data_tag() + le32(data_size)
}

/// Whether `create_wav_header` computes its fields without overflowing:
/// the RIFF size, `sample_rate * channels`, then times `bits_per_sample`, fit in
/// 32 bits, and `channels * bits_per_sample` fits in 16 bits.
pub open spec fn header_fields_fit(sample_rate: u32, channels: u16, bits_per_sample: u16, data_size: u32) -> bool {
    &&& 36 + data_size <= u32::MAX
    &&& sample_rate * channels <= u32::MAX
    &&& sample_rate * channels * bits_per_sample <= u32::MAX
    &&& channels * bits_per_sample <= u16::MAX
}

fn push_le16(out: &mut Vec<u8>, x: u16)
    ensures
        final(out)@ == old(out)@ + le16(x as nat),
{
    out.push((x % 256) as u8);
    out.push(((x / 256) % 256) as u8);
    assert(final(out)@ =~= old(out)@ + le16(x as nat));
}

fn push_le32(out: &mut Vec<u8>, x: u32)
    ensures
        final(out)@ == old(out)@ + le32(x as nat),
{
    out.push((x % 256) as u8);
    out.push(((x / 0x100) % 256) as u8);
    out.push(((x / 0x1_0000) % 256) as u8);
    out.push(((x / 0x100_0000) % 256) as u8);
    assert(final(out)@ =~= old(out)@ + le32(x as nat));
}

fn push_tag(out: &mut Vec<u8>, a: u8, b: u8, c: u8, d: u8)
    ensures
        final(out)@ == old(out)@ + seq![a, b, c, d],
{
    out.push(a);
    out.push(b);
    out.push(c);
    out.push(d);
    assert(final(out)@ =~= old(out)@ + seq![a, b, c, d]);
}

/// Builds the 44-byte header of a linear PCM WAV file with the given format and
/// `data_size` bytes of sample data.
pub fn create_wav_header(sample_rate: u32, channels: u16, bits_per_sample: u16, data_size: u32) -> (header: Vec<u8>)
    requires
        header_fields_fit(sample_rate, channels, bits_per_sample, data_size),
    ensures
        header@ == wav_header(sample_rate as nat, channels as nat, bits_per_sample as nat, data_size as nat),
{
    let mut header: Vec<u8> = Vec::new();
    // RIFF header
    push_tag(&mut header, 0x52, 0x49, 0x46, 0x46);
    push_le32(&mut header, 36 + data_size);
    push_tag(&mut header, 0x57, 0x41, 0x56, 0x45);
    // fmt chunk: chunk size 16, format 1 (linear PCM)
    push_tag(&mut header, 0x66, 0x6d, 0x74, 0x20);
    push_le32(&mut header, 16);
    push_le16(&mut header, 1);
    push_le16(&mut header, channels);
    push_le32(&mut header, sample_rate);
    let byte_rate_value: u32 = sample_rate * (channels as u32) * (bits_per_sample as u32) / 8;
    push_le32(&mut header, byte_rate_value);
    let block_align_value: u16 = channels * bits_per_sample / 8;
    push_le16(&mut header, block_align_value);
    push_le16(&mut header, bits_per_sample);
    // data chunk
    push_tag(&mut header, 0x64, 0x61, 0x74, 0x61);
    push_le32(&mut header, data_size);
    assert(header@ =~= wav_header(sample_rate as nat, channels as nat, bits_per_sample as nat, data_size as nat));
    header
}

/// The header written before `data_len` bytes of 16-bit stereo samples: two
/// channels, 16 bits per sample, and a data size of `data_len` cut to its low 32
/// bits, as a 32-bit size field holds it.
pub fn wav_file_header(sample_rate: u32, data_len: usize) -> (header: Vec<u8>)
    requires
        sample_rate * 32 <= u32::MAX,
        36 + (data_len as int) % 0x1_0000_0000 <= u32::MAX,
    ensures
        header@ == wav_header(sample_rate as nat, 2, 16, ((data_len as int) % 0x1_0000_0000) as nat),
{
    let data_size: u32 = ((data_len as u64) % 0x1_0000_0000) as u32;
    create_wav_header(sample_rate, 2, 16, data_size)
}

/// Decoding two little-endian bytes gives back any 16-bit value.
pub proof fn lemma_le16_round_trip(x: u16)
    ensures
        le16(x as nat).len() == 2,
        read_le16(le16(x as nat)) == x,
{
    assert((x % 256) + 256 * ((x / 256) % 256) == x) by (bit_vector);
}

/// Decoding four little-endian bytes gives back any 32-bit value.
pub proof fn lemma_le32_round_trip(x: u32)
    ensures
        le32(x as nat).len() == 4,
        read_le32(le32(x as nat)) == x,
{
    assert((x % 256) + 0x100 * ((x / 0x100) % 256) + 0x1_0000 * ((x / 0x1_0000) % 256)
        + 0x100_0000 * ((x / 0x100_0000) % 256) == x) by (bit_vector);
}

/// A reader of the header gets back what was written: the header is 44 bytes
/// long, holds the tags "RIFF", "WAVE", "fmt " and "data" at offsets 0, 8, 12
/// and 36, and its little-endian fields decode to the RIFF size (36 plus the data
/// size), the `fmt ` chunk size 16, format 1 (linear PCM), the channel count, the
/// sample rate, the byte rate, the block alignment, the bits per sample and the
/// data size.
#[verifier::rlimit(80)]
pub proof fn lemma_wav_header_reads_back(sample_rate: u32, channels: u16, bits_per_sample: u16, data_size: u32)
    requires
        header_fields_fit(sample_rate, channels, bits_per_sample, data_size),
    ensures
        ({
            let h = wav_header(sample_rate as nat, channels as nat, bits_per_sample as nat, data_size as nat);
            &&& h.len() == 44
            &&& h.subrange(0, 4) == riff_tag()
            &&& read_le32(h.subrange(4, 8)) == 36 + data_size
            &&& h.subrange(8, 12) == wave_tag()
            &&& h.subrange(12, 16) == fmt_tag()
            &&& read_le32(h.subrange(16, 20)) == 16
            &&& read_le16(h.subrange(20, 22)) == 1
            &&& read_le16(h.subrange(22, 24)) == channels
            &&& read_le32(h.subrange(24, 28)) == sample_rate
            &&& read_le32(h.subrange(28, 32)) == byte_rate(sample_rate as nat, channels as nat, bits_per_sample as nat)
            &&& read_le16(h.subrange(32, 34)) == block_align(channels as nat, bits_per_sample as nat)
            &&& read_le16(h.subrange(34, 36)) == bits_per_sample
            &&& h.subrange(36, 40) == data_tag()
            &&& read_le32(h.subrange(40, 44)) == data_size
        }),
{
    let br = byte_rate(sample_rate as nat, channels as nat, bits_per_sample as nat);
    let ba = block_align(channels as nat, bits_per_sample as nat);
    assert(br <= u32::MAX) by (nonlinear_arith)
        requires
            br == sample_rate * channels * bits_per_sample / 8,
            sample_rate * channels * bits_per_sample <= u32::MAX,
    ;
    assert(ba <= u16::MAX) by (nonlinear_arith)
        requires
            ba == channels * bits_per_sample / 8,
            channels * bits_per_sample <= u16::MAX,
    ;
    lemma_le32_round_trip((36 + data_size) as u32);
    lemma_le32_round_trip(16);
    lemma_le16_round_trip(1);
    lemma_le16_round_trip(channels);
    lemma_le32_round_trip(sample_rate);
    lemma_le32_round_trip(br as u32);
    lemma_le16_round_trip(ba as u16);
    lemma_le16_round_trip(bits_per_sample);
    lemma_le32_round_trip(data_size);
    let h = wav_header(sample_rate as nat, channels as nat, bits_per_sample as nat, data_size as nat);
    assert(h.subrange(0, 4) =~= riff_tag());
    assert(h.subrange(4, 8) =~= le32((36 + data_size) as nat));
    assert(h.subrange(8, 12) =~= wave_tag());
    assert(h.subrange(12, 16) =~= fmt_tag());
    assert(h.subrange(16, 20) =~= le32(16));
    assert(h.subrange(20, 22) =~= le16(1));
    assert(h.subrange(22, 24) =~= le16(channels as nat));
    assert(h.subrange(24, 28) =~= le32(sample_rate as nat));
    assert(h.subrange(28, 32) =~= le32(br));
    assert(h.subrange(32, 34) =~= le16(ba));
    assert(h.subrange(34, 36) =~= le16(bits_per_sample as nat));
    assert(h.subrange(36, 40) =~= data_tag());
    assert(h.subrange(40, 44) =~= le32(data_size as nat));
}

} // verus!
