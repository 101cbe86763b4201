//! PCM audio: samples of 16 bits as bytes.
use vstd::prelude::*;

verus! {

/// The two bytes of a sample, the lower one first.
pub open spec fn sample_bytes(sample: i16) -> Seq<u8> {
    let bits = if sample < 0 {
        sample + 0x10000
    } else {
        sample as int
    };
    seq![(bits % 256) as u8, (bits / 256) as u8]
}

/// The bytes of samples, the lower byte of each first.
pub open spec fn pcm(samples: Seq<i16>) -> Seq<u8>
    decreases samples.len(),
{
    if samples.len() == 0 {
        Seq::empty()
    } else {
        pcm(samples.drop_last()) + sample_bytes(samples.last())
    }
}

/// The bytes of samples, the lower byte of each first.
pub fn pcm_bytes(samples: &[i16]) -> (bytes: Vec<u8>)
    ensures
        bytes@ == pcm(samples@),
{
    let mut bytes: Vec<u8> = Vec::new();
    let mut i: usize = 0;
    while i < samples.len()
        invariant
            i <= samples@.len(),
            bytes@ == pcm(samples@.take(i as int)),
        decreases samples@.len() - i,
    {
        let sample: i16 = samples[i];
        let bits: u32 = if sample < 0 {
            (sample as i32 + 0x10000) as u32
        } else {
            sample as u32
        };
        let ghost before = bytes@;
        bytes.push((bits % 256) as u8);
        bytes.push((bits / 256) as u8);
        i += 1;
        assert(samples@.take(i as int).drop_last() =~= samples@.take(i - 1));
        assert(bytes@ =~= before + sample_bytes(sample));
    }
    assert(samples@.take(samples@.len() as int) =~= samples@);
    bytes
}

/// Every sample takes two bytes.
pub proof fn samples_take_two_bytes(samples: Seq<i16>)
    ensures
        pcm(samples).len() == 2 * samples.len(),
    decreases samples.len(),
{
    if samples.len() > 0 {
        samples_take_two_bytes(samples.drop_last());
    }
}

/// Samples read back from their bytes: the two bytes of a sample, the lower one
/// first, make the sample, or the sample and 65536 where it is negative.
pub proof fn samples_read_back(samples: Seq<i16>, i: int)
    requires
        0 <= i < samples.len(),
    ensures
        pcm(samples)[2 * i] + 256 * pcm(samples)[2 * i + 1] == if samples[i] < 0 {
            samples[i] + 65536
        } else {
            samples[i] as int
        },
    decreases samples.len(),
{
    samples_take_two_bytes(samples);
    samples_take_two_bytes(samples.drop_last());
    if i < samples.len() - 1 {
        samples_read_back(samples.drop_last(), i);
        assert(samples.drop_last()[i] == samples[i]);
    }
}

} // verus!
