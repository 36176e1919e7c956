//! Packing of captured audio frames into 16-bit little-endian stereo PCM.
use vstd::prelude::*;
use crate::wav::le16;

verus! {

/// The two bytes of a signed 16-bit sample in little-endian two's complement.
pub open spec fn sample_le(x: i16) -> Seq<u8> {
    le16(if x < 0 { (x + 0x1_0000) as nat } else { x as nat })
}

/// The number of samples in the frame that starts the sequence: a whole frame
/// of `channels` samples, or what is left when fewer remain.
pub open spec fn frame_len(samples: Seq<i16>, channels: nat) -> nat {
    if channels < samples.len() { channels } else { samples.len() }
}

/// The stereo stream made of interleaved frames of `channels` samples: each
/// frame with at least two samples contributes its first two (left, right),
/// each as two little-endian bytes; a frame of one sample contributes nothing,
/// and further channels are dropped.
pub open spec fn stereo_bytes(samples: Seq<i16>, channels: nat) -> Seq<u8>
    decreases samples.len(),
{
    if samples.len() == 0 || channels == 0 {
        seq![]
    } else {
        let n = frame_len(samples, channels);
        let head = if n >= 2 { sample_le(samples[0]) + sample_le(samples[1]) } else { seq![] };
        head + stereo_bytes(samples.skip(n as int), channels)
    }
}

fn push_sample_le(out: &mut Vec<u8>, x: i16)
    ensures
        final(out)@ == old(out)@ + sample_le(x),
{
    let u: u16 = if x < 0 { (x as i32 + 0x1_0000) as u16 } else { x as u16 };
    out.push((u % 256) as u8);
    out.push(((u / 256) % 256) as u8);
    assert(final(out)@ =~= old(out)@ + sample_le(x));
}

/// Turns interleaved frames of `num_channels` samples into 16-bit stereo bytes:
/// for every frame that holds at least two samples, the first two, each in
/// little-endian order.
pub fn encode_stereo_frames(samples: &[i16], num_channels: usize) -> (bytes: Vec<u8>)
    requires
        num_channels > 0,
    ensures
        bytes@ == stereo_bytes(samples@, num_channels as nat),
{
    let mut out: Vec<u8> = Vec::new();
    let mut i: usize = 0;
    let len = samples.len();
    assert(samples@.skip(0) =~= samples@);
    while i < len
        invariant
            len == samples@.len(),
            i <= len,
            num_channels > 0,
            stereo_bytes(samples@, num_channels as nat) == out@ + stereo_bytes(samples@.skip(i as int), num_channels as nat),
        decreases len - i,
    {
        let ghost rest = samples@.skip(i as int);
        let remaining = len - i;
        let n: usize = if num_channels < remaining { num_channels } else { remaining };
        let ghost before = out@;
        if n >= 2 {
            push_sample_le(&mut out, samples[i]);
            push_sample_le(&mut out, samples[i + 1]);
        }
        proof {
            assert(rest.skip(n as int) =~= samples@.skip((i + n) as int));
            assert(n == frame_len(rest, num_channels as nat));
            if n >= 2 {
                assert(rest[0] == samples@[i as int]);
                assert(rest[1] == samples@[i + 1]);
            }
            assert(out@ =~= before + (if n >= 2 { sample_le(rest[0]) + sample_le(rest[1]) } else { seq![] }));
        }
        i = i + n;
    }
    assert(samples@.skip(len as int) =~= Seq::<i16>::empty());
    assert(out@ =~= out@ + Seq::<u8>::empty());
    out
}

/// The signed 16-bit value that two little-endian bytes hold in two's
/// complement.
pub open spec fn read_sample_le(b: Seq<u8>) -> int {
    b[0] + 256 * b[1] - (if b[1] >= 128 { 0x1_0000int } else { 0int })
}

/// The two bytes written for a sample decode back to it as a signed 16-bit
/// little-endian value.
pub proof fn lemma_sample_le_reads_back(x: i16)
    ensures
        sample_le(x).len() == 2,
        read_sample_le(sample_le(x)) == x,
{
    let v: int = if x < 0 { x + 0x1_0000 } else { x as int };
    assert(0 <= v < 0x1_0000);
    assert(v == (v % 256) + 256 * ((v / 256) % 256)) by (nonlinear_arith)
        requires 0 <= v < 0x1_0000;
    assert((v / 256) % 256 == v / 256) by (nonlinear_arith)
        requires 0 <= v < 0x1_0000;
    assert(v / 256 >= 128 <==> v >= 0x8000) by (nonlinear_arith)
        requires 0 <= v < 0x1_0000;
    let b = sample_le(x);
    assert(b[0] == v % 256);
    assert(b[1] == (v / 256) % 256);
}

/// Single-channel input gives no stereo output: each frame has one sample.
pub proof fn lemma_mono_input_is_dropped(samples: Seq<i16>)
    ensures
        stereo_bytes(samples, 1) == Seq::<u8>::empty(),
    decreases samples.len(),
{
    if samples.len() > 0 {
        lemma_mono_input_is_dropped(samples.skip(1));
        assert(stereo_bytes(samples, 1) =~= Seq::<u8>::empty());
    }
}

proof fn lemma_div_mod_step(len: int, n: int)
    requires
        0 < n <= len,
    ensures
        (len - n) / n == len / n - 1,
        (len - n) % n == len % n,
{
    assert((len - n) / n == len / n - 1 && (len - n) % n == len % n) by (nonlinear_arith)
        requires
            0 < n <= len,
    {
        vstd::arithmetic::div_mod::lemma_fundamental_div_mod(len, n);
        vstd::arithmetic::div_mod::lemma_fundamental_div_mod(len - n, n);
        vstd::arithmetic::div_mod::lemma_sub_mod_noop_right(len, n, n);
    }
}

/// With two channels or more, every whole frame gives four bytes, and a last,
/// partial frame gives four more when it holds at least two samples.
pub proof fn lemma_stereo_bytes_len(samples: Seq<i16>, channels: nat)
    requires
        channels >= 2,
    ensures
        stereo_bytes(samples, channels).len() == 4 * (samples.len() / channels)
            + (if samples.len() % channels >= 2 { 4int } else { 0int }),
    decreases samples.len(),
{
    if samples.len() == 0 {
    } else if samples.len() < channels {
        assert(samples.skip(samples.len() as int) =~= Seq::<i16>::empty());
        assert(stereo_bytes(Seq::<i16>::empty(), channels) == Seq::<u8>::empty());
        assert(samples.len() / channels == 0) by (nonlinear_arith)
            requires samples.len() < channels;
        assert(samples.len() % channels == samples.len()) by (nonlinear_arith)
            requires samples.len() < channels;
    } else {
        let rest = samples.skip(channels as int);
        let head = sample_le(samples[0]) + sample_le(samples[1]);
        assert(frame_len(samples, channels) == channels);
        assert(stereo_bytes(samples, channels) == head + stereo_bytes(rest, channels));
        lemma_stereo_bytes_len(rest, channels);
        lemma_div_mod_step(samples.len() as int, channels as int);
    }
}

/// With two channels or more, the bytes of the `k`-th whole frame are its
/// first two samples, left then right.
pub proof fn lemma_stereo_frame(samples: Seq<i16>, channels: nat, k: int)
    requires
        channels >= 2,
        0 <= k,
        (k + 1) * channels <= samples.len(),
    ensures
        4 * k + 4 <= stereo_bytes(samples, channels).len(),
        stereo_bytes(samples, channels).subrange(4 * k, 4 * k + 4)
            == sample_le(samples[k * channels]) + sample_le(samples[k * channels + 1]),
    decreases k,
{
    assert((k + 1) * channels == k * channels + channels) by (nonlinear_arith);
    assert(k * channels >= 0) by (nonlinear_arith)
        requires k >= 0;
    let rest = samples.skip(channels as int);
    let head = sample_le(samples[0]) + sample_le(samples[1]);
    assert(stereo_bytes(samples, channels) == head + stereo_bytes(rest, channels));
    assert(head.len() == 4);
    if k == 0 {
        assert(k * channels == 0) by (nonlinear_arith)
            requires k == 0;
        assert(stereo_bytes(samples, channels).subrange(0, 4) =~= head);
    } else {
        assert(k * channels == (k - 1) * channels + channels) by (nonlinear_arith);
        lemma_stereo_frame(rest, channels, k - 1);
        let whole = stereo_bytes(samples, channels);
        assert(whole.subrange(4 * k, 4 * k + 4) =~= stereo_bytes(rest, channels).subrange(4 * (k - 1), 4 * (k - 1) + 4));
        assert(rest[(k - 1) * channels] == samples[k * channels]);
        assert(rest[(k - 1) * channels + 1] == samples[k * channels + 1]);
        assert(whole.subrange(4 * k, 4 * k + 4)
            == sample_le(samples[k * channels]) + sample_le(samples[k * channels + 1]));
    }
}

/// With two channels or more, the `k`-th whole frame's bytes decode back to
/// its left and right samples.
pub proof fn lemma_stereo_frame_reads_back(samples: Seq<i16>, channels: nat, k: int)
    requires
        channels >= 2,
        0 <= k,
        (k + 1) * channels <= samples.len(),
    ensures
        4 * k + 4 <= stereo_bytes(samples, channels).len(),
        read_sample_le(stereo_bytes(samples, channels).subrange(4 * k, 4 * k + 2)) == samples[k * channels],
        read_sample_le(stereo_bytes(samples, channels).subrange(4 * k + 2, 4 * k + 4)) == samples[k * channels + 1],
{
    lemma_stereo_frame(samples, channels, k);
    let bytes = stereo_bytes(samples, channels);
    let l = sample_le(samples[k * channels]);
    let r = sample_le(samples[k * channels + 1]);
    lemma_sample_le_reads_back(samples[k * channels]);
    lemma_sample_le_reads_back(samples[k * channels + 1]);
    assert(bytes.subrange(4 * k, 4 * k + 2) =~= (l + r).subrange(0, 2));
    assert(bytes.subrange(4 * k + 2, 4 * k + 4) =~= (l + r).subrange(2, 4));
    assert((l + r).subrange(0, 2) =~= l);
    assert((l + r).subrange(2, 4) =~= r);
}

} // verus!
