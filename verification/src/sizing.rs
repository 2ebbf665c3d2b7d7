//! Integer sizing rules of the GPU resources: capacities that grow in powers
//! of two, uniform slot offsets, half-resolution extents, the resize
//! decision, the 2D vertex-buffer growth, and reading back buffers of `u32`s.
use vstd::prelude::*;
use vstd::arithmetic::power2::{pow2, lemma2_to64, lemma_pow2_unfold, lemma_pow2_strictly_increases};

verus! {

/// Bytes between two consecutive per-draw uniform slots.
pub const UNIFORM_STRIDE: usize = 256;

/// `x` is a power of two.
pub open spec fn is_pow2(x: nat) -> bool {
    exists|k: nat| pow2(k) == x
}

/// `p` is the smallest power of two that is at least `n`.
pub open spec fn is_next_pow2(n: nat, p: nat) -> bool {
    &&& is_pow2(p)
    &&& p >= n
    &&& (p == 1 || p / 2 < n)
}

/// There is only one smallest power of two at least `n`.
pub proof fn lemma_next_pow2_unique(n: nat, p: nat, q: nat)
    requires
        is_next_pow2(n, p),
        is_next_pow2(n, q),
    ensures
        p == q,
{
    let a = choose|k: nat| pow2(k) == p;
    let b = choose|k: nat| pow2(k) == q;
    if a < b {
        lemma_pow2_unfold(b);
        if a < (b - 1) as nat {
            lemma_pow2_strictly_increases(a, (b - 1) as nat);
        }
        lemma_pow2_strictly_increases(a, b);
    } else if b < a {
        lemma_pow2_unfold(a);
        if b < (a - 1) as nat {
            lemma_pow2_strictly_increases(b, (a - 1) as nat);
        }
        lemma_pow2_strictly_increases(b, a);
    }
}

/// The smallest power of two that is at least `n`.
pub fn next_pow2(n: usize) -> (p: usize)
    requires
        n <= usize::MAX / 2 + 1,
    ensures
        is_pow2(p as nat),
        p >= n,
        p == 1 || p / 2 < n,
{
    let mut p: usize = 1;
    let ghost mut k: nat = 0;
    proof {
        lemma2_to64();
    }
    while p < n
        invariant
            p == pow2(k),
            p >= 1,
            n <= usize::MAX / 2 + 1,
            p == 1 || p / 2 < n,
        decreases usize::MAX - p,
    {
        proof {
            lemma_pow2_unfold(k + 1);
        }
        p = p * 2;
        proof {
            k = k + 1;
        }
    }
    p
}

/// The capacity for `count` items: the smallest power of two at least
/// `count`, raised to `floor` when that is larger.
pub fn pow2_capacity(count: usize, floor: usize) -> (c: usize)
    requires
        count <= usize::MAX / 2 + 1,
    ensures
        c >= count,
        c >= floor,
        forall|p: nat| #[trigger] is_next_pow2(count as nat, p) ==> c == (if p < floor { floor as nat } else { p }),
{
    let p = next_pow2(count);
    proof {
        assert forall|q: nat| #[trigger] is_next_pow2(count as nat, q) implies p == q by {
            assert(is_next_pow2(count as nat, p as nat));
            lemma_next_pow2_unique(count as nat, p as nat, q);
        }
    }
    if p < floor {
        floor
    } else {
        p
    }
}

/// Byte offset of a uniform slot, as the 32-bit offset the GPU binding takes.
pub fn slot_offset(slot: usize) -> (off: u32)
    requires
        slot * UNIFORM_STRIDE <= usize::MAX,
    ensures
        off == (slot * UNIFORM_STRIDE) as u32,
{
    (slot * UNIFORM_STRIDE) as u32
}

/// Half of an extent, at least 1 (half-resolution effect targets).
pub fn half_extent(v: u32) -> (h: u32)
    ensures
        h == (if v / 2 >= 1 { v / 2 } else { 1 }),
{
    let h = v / 2;
    if h >= 1 {
        h
    } else {
        1
    }
}

/// Whether a resize to `width` x `height` rebuilds the surface: never for a
/// zero extent, never when nothing changes.
pub fn needs_resize(current_w: u32, current_h: u32, width: u32, height: u32) -> (r: bool)
    ensures
        r == (width != 0 && height != 0 && !(current_w == width && current_h == height)),
{
    if width == 0 || height == 0 {
        return false;
    }
    !(current_w == width && current_h == height)
}

/// The 2D vertex capacity after a frame overflowed: doubled, saturating.
pub fn grown_vertex_capacity(capacity: usize) -> (c: usize)
    ensures
        c == (if capacity * 2 <= usize::MAX { (capacity * 2) as usize } else { usize::MAX }),
{
    if capacity <= usize::MAX / 2 {
        capacity * 2
    } else {
        usize::MAX
    }
}

/// The value of four bytes read least significant first.
pub open spec fn le_u32(b0: u8, b1: u8, b2: u8, b3: u8) -> int {
    b0 + 256 * b1 + 65536 * b2 + 16777216 * b3
}

/// `u32::from_ne_bytes`: the bytes read in the machine's byte order, which
/// is little- or big-endian; which one is not stated.
#[verifier::external_body]
fn u32_from_ne_bytes(b: [u8; 4]) -> (r: u32)
    ensures
        r == le_u32(b[0], b[1], b[2], b[3]) || r == le_u32(b[3], b[2], b[1], b[0]),
{
    u32::from_ne_bytes(b)
}

/// The value of four bytes read in one byte order: least significant first
/// when `little`, most significant first otherwise.
pub open spec fn word_in_order(little: bool, b0: u8, b1: u8, b2: u8, b3: u8) -> int {
    if little {
        le_u32(b0, b1, b2, b3)
    } else {
        le_u32(b3, b2, b1, b0)
    }
}

/// Every word of `words` is four bytes of `bytes` read in the one order
/// `little` names.
pub open spec fn decoded_in_order(words: Seq<u32>, bytes: Seq<u8>, little: bool) -> bool {
    forall|i: int| #![trigger words[i]] 0 <= i < words.len() ==> words[i] == word_in_order(
        little,
        bytes[4 * i],
        bytes[4 * i + 1],
        bytes[4 * i + 2],
        bytes[4 * i + 3],
    )
}

/// Four bytes read least significant first.
fn le_word(b0: u8, b1: u8, b2: u8, b3: u8) -> (w: u32)
    ensures
        w == le_u32(b0, b1, b2, b3),
{
    b0 as u32 + 256 * (b1 as u32) + 65536 * (b2 as u32) + 16777216 * (b3 as u32)
}

/// Decode bytes into `u32`s, four bytes each, every word read in the byte
/// order `little` names; trailing bytes that do not fill a word are ignored.
pub fn decode_u32s(bytes: &[u8], little: bool) -> (words: Vec<u32>)
    ensures
        words@.len() == bytes@.len() / 4,
        decoded_in_order(words@, bytes@, little),
{
    let len = bytes.len();
    let n = len / 4;
    let mut words: Vec<u32> = Vec::new();
    let mut i: usize = 0;
    while i < n
        invariant
            len == bytes@.len(),
            n == len / 4,
            0 <= i <= n,
            words@.len() == i,
            forall|j: int| #![trigger words@[j]] 0 <= j < i ==> words@[j] == word_in_order(
                little,
                bytes@[4 * j],
                bytes@[4 * j + 1],
                bytes@[4 * j + 2],
                bytes@[4 * j + 3],
            ),
        decreases n - i,
    {
        assert(4 * i + 4 <= len) by (nonlinear_arith)
            requires
                i < n,
                n == len / 4,
        ;
        let base = 4 * i;
        let w = if little {
            le_word(bytes[base], bytes[base + 1], bytes[base + 2], bytes[base + 3])
        } else {
            le_word(bytes[base + 3], bytes[base + 2], bytes[base + 1], bytes[base])
        };
        words.push(w);
        i = i + 1;
    }
    words
}

/// Decode a mapped GPU buffer into `u32`s, four bytes each, every word in
/// the machine's byte order (learned from `u32::from_ne_bytes`); trailing
/// bytes that do not fill a word are ignored.
pub fn mapped_u32s(bytes: &[u8]) -> (words: Vec<u32>)
    ensures
        words@.len() == bytes@.len() / 4,
        exists|little: bool| #[trigger] decoded_in_order(words@, bytes@, little),
{
    let little = u32_from_ne_bytes([1, 0, 0, 0]) == 1;
    decode_u32s(bytes, little)
}

/// The slots below `m` whose occlusion flag is 0, in increasing order.
pub open spec fn zero_flag_slots(flags: Seq<u32>, m: int) -> Seq<usize>
    decreases m,
{
    if m <= 0 {
        Seq::empty()
    } else if flags[m - 1] == 0 {
        zero_flag_slots(flags, m - 1).push((m - 1) as usize)
    } else {
        zero_flag_slots(flags, m - 1)
    }
}

/// The entity slots an occlusion readback marks hidden: among the first
/// `count` slots (and the flags actually read back), those whose flag is 0.
pub fn occluded_slots(flags: &Vec<u32>, count: usize) -> (slots: Vec<usize>)
    ensures
        slots@ == zero_flag_slots(flags@, if count < flags@.len() { count as int } else { flags@.len() as int }),
{
    let n = if count < flags.len() { count } else { flags.len() };
    let mut slots: Vec<usize> = Vec::new();
    let mut i: usize = 0;
    while i < n
        invariant
            n <= flags@.len(),
            n == (if count < flags@.len() { count as int } else { flags@.len() as int }),
            0 <= i <= n,
            slots@ == zero_flag_slots(flags@, i as int),
        decreases n - i,
    {
        if flags[i] == 0 {
            slots.push(i);
        }
        i = i + 1;
    }
    slots
}

} // verus!
