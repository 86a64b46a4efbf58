//! How the samples of a flow stand in shared memory: four bytes each, the lowest first, in a ring,
//! so that a run of samples comes in two fragments.
//!
//! A sample is held by the bits of its single-precision value.

use vstd::prelude::*;
use vstd::string::*;

use crate::text::{dec, decimal};

verus! {

/// One byte of a sample, counted from the lowest.
pub open spec fn byte_at(sample: u32, k: int) -> u8 {
    if k == 0 {
        (sample % 256) as u8
    } else if k == 1 {
        (sample / 0x100 % 256) as u8
    } else if k == 2 {
        (sample / 0x10000 % 256) as u8
    } else {
        (sample / 0x1000000) as u8
    }
}

/// The bytes of samples.
pub open spec fn sample_bytes(samples: Seq<u32>) -> Seq<u8> {
    Seq::new((4 * samples.len()) as nat, |i: int| byte_at(samples[i / 4], i % 4))
}

/// The sample that four bytes are.
pub open spec fn sample_at(bytes: Seq<u8>, i: int) -> u32 {
    (bytes[4 * i] + 0x100 * bytes[4 * i + 1] + 0x10000 * bytes[4 * i + 2] + 0x1000000 * bytes[4 * i
        + 3]) as u32
}

/// The samples that bytes are. Bytes that make no whole sample are left out.
pub open spec fn samples_of(bytes: Seq<u8>) -> Seq<u32> {
    Seq::new((bytes.len() / 4) as nat, |i: int| sample_at(bytes, i))
}

/// Writes samples as the two fragments of a ring, the first of which takes `room` bytes.
pub fn to_fragments(samples: &[u32], room: usize) -> (r: (Vec<u8>, Vec<u8>))
    requires
        4 * samples@.len() <= usize::MAX,
    ensures
        ({
            let bytes = sample_bytes(samples@);
            let cut = if room <= bytes.len() {
                room as int
            } else {
                bytes.len() as int
            };
            r.0@ == bytes.take(cut) && r.1@ == bytes.skip(cut)
        }),
{
    let ghost bytes = sample_bytes(samples@);
    let total: usize = 4 * samples.len();
    let cut: usize = if room <= total {
        room
    } else {
        total
    };
    let mut first: Vec<u8> = Vec::new();
    let mut second: Vec<u8> = Vec::new();
    assert(first@ =~= bytes.take(0));
    for i in 0..total
        invariant
            total == 4 * samples@.len(),
            bytes == sample_bytes(samples@),
            cut <= total,
            i <= cut ==> first@ == bytes.take(i as int) && second@.len() == 0,
            i > cut ==> first@ == bytes.take(cut as int) && second@ == bytes.subrange(
                cut as int,
                i as int,
            ),
    {
        let sample: u32 = samples[i / 4];
        let k: usize = i % 4;
        let byte: u8 = if k == 0 {
            (sample % 256) as u8
        } else if k == 1 {
            (sample / 0x100 % 256) as u8
        } else if k == 2 {
            (sample / 0x10000 % 256) as u8
        } else {
            (sample / 0x1000000) as u8
        };
        assert(byte == bytes[i as int]);
        if i < cut {
            first.push(byte);
            assert(first@ =~= bytes.take(i + 1));
        } else {
            second.push(byte);
            assert(second@ =~= bytes.subrange(cut as int, i + 1));
            assert(first@ =~= bytes.take(cut as int));
        }
    }
    assert(first@ =~= bytes.take(cut as int));
    assert(second@ =~= bytes.skip(cut as int));
    (first, second)
}

fn byte_of(first: &[u8], second: &[u8], i: usize) -> (r: u8)
    requires
        i < first@.len() + second@.len() <= usize::MAX,
    ensures
        r == (first@ + second@)[i as int],
{
    if i < first.len() {
        first[i]
    } else {
        second[i - first.len()]
    }
}

/// Reads samples out of the two fragments of a ring.
pub fn from_fragments(first: &[u8], second: &[u8]) -> (r: Vec<u32>)
    requires
        first@.len() + second@.len() <= usize::MAX,
    ensures
        r@ == samples_of(first@ + second@),
{
    let ghost bytes = first@ + second@;
    let count: usize = (first.len() + second.len()) / 4;
    let mut out: Vec<u32> = Vec::new();
    for i in 0..count
        invariant
            bytes == first@ + second@,
            count == bytes.len() / 4,
            bytes.len() <= usize::MAX,
            out@ == samples_of(bytes).take(i as int),
    {
        let a: u32 = byte_of(first, second, 4 * i) as u32;
        let b: u32 = byte_of(first, second, 4 * i + 1) as u32;
        let c: u32 = byte_of(first, second, 4 * i + 2) as u32;
        let d: u32 = byte_of(first, second, 4 * i + 3) as u32;
        out.push(a + 0x100 * b + 0x10000 * c + 0x1000000 * d);
        assert(out@ =~= samples_of(bytes).take(i + 1));
    }
    assert(out@ =~= samples_of(bytes));
    out
}

/// What was written reads back, wherever the ring ends.
pub proof fn law_samples_read_back(samples: Seq<u32>, cut: int)
    requires
        0 <= cut <= 4 * samples.len(),
    ensures
        samples_of(sample_bytes(samples).take(cut) + sample_bytes(samples).skip(cut)) == samples,
{
    let bytes = sample_bytes(samples);
    assert(bytes.take(cut) + bytes.skip(cut) =~= bytes);
    assert forall|i: int| 0 <= i < samples.len() implies sample_at(bytes, i) == samples[i] by {
        assert((4 * i) / 4 == i && (4 * i) % 4 == 0);
        assert((4 * i + 1) / 4 == i && (4 * i + 1) % 4 == 1);
        assert((4 * i + 2) / 4 == i && (4 * i + 2) % 4 == 2);
        assert((4 * i + 3) / 4 == i && (4 * i + 3) % 4 == 3);
    }
    assert(samples_of(bytes) =~= samples);
}

/// Refuses a flow whose channel count is not the one that is expected.
pub fn check_channels(found: usize, expected: usize) -> (r: Result<(), String>)
    ensures
        match r {
            Ok(_) => found == expected,
            Err(e) => found != expected && e@ == "MXL flow channel_count ("@ + dec(found as nat)
                + ") does not match expected ("@ + dec(expected as nat) + ")"@,
        },
{
    if found == expected {
        return Ok(());
    }
    let mut s = "MXL flow channel_count (".to_owned();
    s.append(decimal(found as u64).as_str());
    s.append(") does not match expected (");
    s.append(decimal(expected as u64).as_str());
    s.append(")");
    Err(s)
}

} // verus!
