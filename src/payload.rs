//! Locating the clip that a motion photo appends after its image data.

use vstd::prelude::*;

use crate::paths::{clip_path, clip_path_of};

verus! {

/// The marker that separates the image data from the embedded clip.
pub const SENTINEL_LEN: usize = 16;

/// The bytes of the marker, `MotionPhoto_Data` in ASCII.
pub open spec fn sentinel() -> Seq<u8> {
    seq![
        0x4d, 0x6f, 0x74, 0x69, 0x6f, 0x6e, 0x50, 0x68,
        0x6f, 0x74, 0x6f, 0x5f, 0x44, 0x61, 0x74, 0x61,
    ]
}

/// The executable copy of the marker.
pub fn sentinel_bytes() -> (r: [u8; 16])
    ensures
        r@ == sentinel(),
{
    let r: [u8; 16] = [
        0x4d, 0x6f, 0x74, 0x69, 0x6f, 0x6e, 0x50, 0x68,
        0x6f, 0x74, 0x6f, 0x5f, 0x44, 0x61, 0x74, 0x61,
    ];
    assert(r@ =~= sentinel());
    r
}

/// The marker occurs in `buf` starting at offset `k`.
pub open spec fn sentinel_at(buf: Seq<u8>, k: int) -> bool {
    0 <= k && k + 16 <= buf.len() && buf.subrange(k, k + 16) == sentinel()
}

/// The marker occurs somewhere in `buf`.
pub open spec fn has_sentinel(buf: Seq<u8>) -> bool {
    exists|k: int| sentinel_at(buf, k)
}

/// `k` is the first offset at which the marker occurs.
pub open spec fn first_sentinel(buf: Seq<u8>, k: int) -> bool {
    sentinel_at(buf, k) && forall|j: int| 0 <= j < k ==> !sentinel_at(buf, j)
}

/// The clip carried by `buf`: every byte after the first marker, or nothing
/// when the marker does not occur.
pub open spec fn payload_of(buf: Seq<u8>) -> Option<Seq<u8>> {
    if has_sentinel(buf) {
        let k = choose|k: int| first_sentinel(buf, k);
        Some(buf.subrange(k + 16, buf.len() as int))
    } else {
        None
    }
}

/// Two first occurrences are the same occurrence.
proof fn lemma_first_sentinel_unique(buf: Seq<u8>, a: int, b: int)
    requires
        first_sentinel(buf, a),
        first_sentinel(buf, b),
    ensures
        a == b,
{
    if a < b {
        assert(!sentinel_at(buf, a));
    } else if b < a {
        assert(!sentinel_at(buf, b));
    }
}

/// Whether the marker starts at offset `k` of `buf`.
fn matches_at(buf: &[u8], k: usize, marker: &[u8; 16]) -> (r: bool)
    requires
        k + 16 <= buf@.len(),
        buf@.len() <= usize::MAX,
        marker@ == sentinel(),
    ensures
        r == sentinel_at(buf@, k as int),
{
    let mut i: usize = 0;
    while i < 16
        invariant
            i <= 16,
            k + 16 <= buf@.len(),
            buf@.len() <= usize::MAX,
            marker@ == sentinel(),
            forall|j: int| 0 <= j < i ==> buf@[k + j] == sentinel()[j],
        decreases 16 - i,
    {
        if buf[k + i] != marker[i] {
            proof {
                assert(buf@.subrange(k as int, k + 16)[i as int] != sentinel()[i as int]);
            }
            return false;
        }
        i = i + 1;
    }
    assert(buf@.subrange(k as int, k + 16) =~= sentinel());
    true
}

/// Finds the first offset at which the marker occurs, by a linear scan.
pub fn find_sentinel(buf: &[u8]) -> (r: Option<usize>)
    ensures
        match r {
            Some(k) => first_sentinel(buf@, k as int),
            None => !has_sentinel(buf@),
        },
{
    let marker = sentinel_bytes();
    if buf.len() < SENTINEL_LEN {
        return None;
    }
    let last = buf.len() - SENTINEL_LEN;
    let mut k: usize = 0;
    while k <= last
        invariant
            last + 16 == buf@.len(),
            buf@.len() <= usize::MAX,
            marker@ == sentinel(),
            forall|j: int| 0 <= j < k ==> !sentinel_at(buf@, j),
        decreases last + 1 - k,
    {
        if matches_at(buf, k, &marker) {
            return Some(k);
        }
        k = k + 1;
    }
    None
}

/// Splits the clip out of the contents of a motion photo: the bytes after
/// the first marker, or `None` when the buffer holds no marker (which is
/// not an error: there is nothing to extract).
pub fn motion_payload(buf: &[u8]) -> (r: Option<Vec<u8>>)
    ensures
        r is None <==> !has_sentinel(buf@),
        r matches Some(v) ==> {
            &&& payload_of(buf@) == Some(v@)
            &&& exists|k: int|
                first_sentinel(buf@, k) && v@ == buf@.subrange(k + 16, buf@.len() as int)
        },
{
    match find_sentinel(buf) {
        None => None,
        Some(k) => {
            let n = buf.len();
            let start = k + SENTINEL_LEN;
            let mut out: Vec<u8> = Vec::new();
            let mut i: usize = start;
            while i < buf.len()
                invariant
                    start <= i <= buf@.len(),
                    out@ == buf@.subrange(start as int, i as int),
                decreases buf@.len() - i,
            {
                out.push(buf[i]);
                i = i + 1;
                assert(out@ =~= buf@.subrange(start as int, i as int));
            }
            proof {
                let c = choose|c: int| first_sentinel(buf@, c);
                lemma_first_sentinel_unique(buf@, c, k as int);
            }
            Some(out)
        }
    }
}


/// A clip to be written out: its path and its bytes.
pub struct MotionClip {
    pub path: String,
    pub bytes: Vec<u8>,
}

/// The clip that the file at `path`, holding `contents`, carries: written
/// beside it under its stem followed by `-motion.mp4`, holding every byte
/// after the first marker. `None` when the contents hold no marker: then
/// nothing is written, and that is no failure.
pub fn motion_clip(path: &str, contents: &[u8]) -> (r: Option<MotionClip>)
    ensures
        r is None <==> !has_sentinel(contents@),
        r matches Some(c) ==> {
            &&& c.path@ == clip_path_of(path@)
            &&& payload_of(contents@) == Some(c.bytes@)
            &&& exists|k: int|
                first_sentinel(contents@, k) && c.bytes@ == contents@.subrange(k + 16, contents@.len() as int)
        },
{
    match motion_payload(contents) {
        None => None,
        Some(bytes) => {
            Some(MotionClip { path: clip_path(path), bytes })
        },
    }
}

} // verus!
