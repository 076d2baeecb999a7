//! Byte-level helpers shared by the frame formats.

use vstd::prelude::*;

verus! {

/// A 64-byte frame of zeros.
pub open spec fn blank() -> Seq<u8> {
    Seq::new(64, |i: int| 0u8)
}

/// `v`, or `limit` if it is larger.
pub open spec fn at_most(v: u8, limit: u8) -> u8 {
    if v <= limit {
        v
    } else {
        limit
    }
}

/// The byte `k` of a payload, or `default` where the payload is shorter.
pub open spec fn byte_or(data: Seq<u8>, k: int, default: u8) -> u8 {
    if k < data.len() {
        data[k]
    } else {
        default
    }
}

/// 1 for true.
pub open spec fn flag(b: bool) -> u8 {
    if b {
        1
    } else {
        0
    }
}

/// What the frames hold.
pub open spec fn contents(frames: Seq<[u8; 64]>) -> Seq<Seq<u8>> {
    Seq::new(frames.len(), |k: int| frames[k]@)
}

/// The byte `k` of a payload, or `default` where the payload is shorter.
pub fn byte_at(data: &[u8], k: usize, default: u8) -> (v: u8)
    ensures
        v == byte_or(data@, k as int, default),
{
    if k < data.len() {
        data[k]
    } else {
        default
    }
}

/// 1 for true.
pub fn flag_byte(b: bool) -> (v: u8)
    ensures
        v == flag(b),
{
    if b {
        1
    } else {
        0
    }
}

/// `n` bytes of zero.
pub fn zeros(n: usize) -> (data: Vec<u8>)
    ensures
        data@ == Seq::new(n as nat, |i: int| 0u8),
{
    let mut data: Vec<u8> = Vec::new();
    let mut i: usize = 0;
    while i < n
        invariant
            i <= n,
            data@ == Seq::new(i as nat, |i: int| 0u8),
        decreases n - i,
    {
        data.push(0);
        i = i + 1;
        proof {
            assert(data@ =~= Seq::new(i as nat, |i: int| 0u8));
        }
    }
    data
}

/// Frames hold their bytes, in their order.
pub proof fn frames_hold_their_bytes(frames: Seq<[u8; 64]>, k: int, i: int)
    requires
        0 <= k < frames.len(),
        0 <= i < 64,
    ensures
        contents(frames).len() == frames.len(),
        contents(frames)[k].len() == 64,
        contents(frames)[k][i] == frames[k][i],
{
}

} // verus!
