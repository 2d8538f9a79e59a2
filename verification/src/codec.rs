//! Deterministic binary codec and the byte-level delta.
//!
//! A world state has exactly one encoding; a delta between two encodings
//! lists the positions where they differ, falling back from nothing but
//! those pairs; applying a delta to the encoding it was computed against
//! reproduces the target encoding bit for bit.

use vstd::prelude::*;

use crate::geom::{Vec2, CAND_LIMIT};
use crate::state::{view_slot, view_things, Event, GameMap, MapView, Polyline, SlotView, State, StateView};
use crate::store::Id;
use crate::store::Slot;
use crate::thing::{PlayerThing, PlayerView, ProjectileThing, Solid, Thing, ThingView};

verus! {

// ---------------------------------------------------------------------
// Words and zigzag
// ---------------------------------------------------------------------
/// Byte `k` of the eight-byte little-endian encoding of a word.
#[verifier::opaque]
pub open spec fn word_byte(v: u64, k: int) -> u8 {
    let n = v as int;
    if k == 0 {
        (n % 256) as u8
    } else if k == 1 {
        (n / 0x100 % 256) as u8
    } else if k == 2 {
        (n / 0x10000 % 256) as u8
    } else if k == 3 {
        (n / 0x1000000 % 256) as u8
    } else if k == 4 {
        (n / 0x100000000 % 256) as u8
    } else if k == 5 {
        (n / 0x10000000000 % 256) as u8
    } else if k == 6 {
        (n / 0x1000000000000 % 256) as u8
    } else {
        (n / 0x100000000000000 % 256) as u8
    }
}

/// The unique eight-byte little-endian encoding of a word.
pub open spec fn spec_word(v: u64) -> Seq<u8> {
    Seq::new(8, |k: int| word_byte(v, k))
}

/// Zigzag: fold the signed range into the unsigned one, small magnitudes
/// first.
pub open spec fn spec_zigzag(x: i64) -> u64 {
    if x >= 0 {
        (2 * x) as u64
    } else {
        (-2 * x - 1) as u64
    }
}

/// Inverse of [`spec_zigzag`].
pub open spec fn spec_unzigzag(v: u64) -> i64 {
    if v % 2 == 0 {
        (v / 2) as i64
    } else {
        (-(v as int / 2) - 1) as i64
    }
}

pub proof fn lemma_zigzag_roundtrip(x: i64)
    ensures
        spec_unzigzag(spec_zigzag(x)) == x,
{
}

/// Append the eight bytes of `v`.
fn enc_word(out: &mut Vec<u8>, v: u64)
    ensures
        final(out)@ == old(out)@ + spec_word(v),
{
    let b0: u8 = (v % 256) as u8;
    let r1: u64 = v / 256;
    let b1: u8 = (r1 % 256) as u8;
    let r2: u64 = r1 / 256;
    let b2: u8 = (r2 % 256) as u8;
    let r3: u64 = r2 / 256;
    let b3: u8 = (r3 % 256) as u8;
    let r4: u64 = r3 / 256;
    let b4: u8 = (r4 % 256) as u8;
    let r5: u64 = r4 / 256;
    let b5: u8 = (r5 % 256) as u8;
    let r6: u64 = r5 / 256;
    let b6: u8 = (r6 % 256) as u8;
    let r7: u64 = r6 / 256;
    let b7: u8 = (r7 % 256) as u8;
    proof {
        reveal(word_byte);
        lemma_word_digits(v as int);
    }
    out.push(b0);
    out.push(b1);
    out.push(b2);
    out.push(b3);
    out.push(b4);
    out.push(b5);
    out.push(b6);
    out.push(b7);
    proof {
        assert(out@ =~= old(out)@ + spec_word(v));
    }
}

/// Successive halving by 256 lands on the place-value divisions.
proof fn lemma_word_digits(n: int)
    requires
        n >= 0,
    ensures
        n / 256 / 0x100 == n / 0x10000,
        n / 0x10000 / 0x100 == n / 0x1000000,
        n / 0x1000000 / 0x100 == n / 0x100000000,
        n / 0x100000000 / 0x100 == n / 0x10000000000,
        n / 0x10000000000 / 0x100 == n / 0x1000000000000,
        n / 0x1000000000000 / 0x100 == n / 0x100000000000000,
{
    vstd::arithmetic::div_mod::lemma_div_denominator(n, 0x100, 0x100);
    vstd::arithmetic::div_mod::lemma_div_denominator(n, 0x10000, 0x100);
    vstd::arithmetic::div_mod::lemma_div_denominator(n, 0x1000000, 0x100);
    vstd::arithmetic::div_mod::lemma_div_denominator(n, 0x100000000, 0x100);
    vstd::arithmetic::div_mod::lemma_div_denominator(n, 0x10000000000, 0x100);
    vstd::arithmetic::div_mod::lemma_div_denominator(n, 0x1000000000000, 0x100);
}

/// The word a byte run denotes.
pub open spec fn spec_word_value(s: Seq<u8>) -> int
    recommends
        s.len() == 8,
{
    s[0] + 0x100 * s[1] + 0x10000 * s[2] + 0x1000000 * s[3] + 0x100000000 * s[4] + 0x10000000000
        * s[5] + 0x1000000000000 * s[6] + 0x100000000000000 * s[7]
}

/// Reading back the eight bytes of a word recovers it.
pub proof fn lemma_word_roundtrip(v: u64)
    ensures
        spec_word(v).len() == 8,
        spec_word_value(spec_word(v)) == v,
        0 <= spec_word_value(spec_word(v)) < 0x10000000000000000,
{
    reveal(word_byte);
    let n = v as int;
    lemma_word_digits(n);
    vstd::arithmetic::div_mod::lemma_fundamental_div_mod(n, 0x100);
    vstd::arithmetic::div_mod::lemma_fundamental_div_mod(n / 0x100, 0x100);
    vstd::arithmetic::div_mod::lemma_fundamental_div_mod(n / 0x10000, 0x100);
    vstd::arithmetic::div_mod::lemma_fundamental_div_mod(n / 0x1000000, 0x100);
    vstd::arithmetic::div_mod::lemma_fundamental_div_mod(n / 0x100000000, 0x100);
    vstd::arithmetic::div_mod::lemma_fundamental_div_mod(n / 0x10000000000, 0x100);
    vstd::arithmetic::div_mod::lemma_fundamental_div_mod(n / 0x1000000000000, 0x100);
    assert(n / 0x100000000000000 < 0x100) by {
        vstd::arithmetic::div_mod::lemma_div_is_strictly_smaller(n + 1, 2);
        assert(n < 0x10000000000000000);
        vstd::arithmetic::div_mod::lemma_div_is_ordered(n, 0xffffffffffffffff, 0x100000000000000);
    }
}

/// Parse a word at `i`.
pub open spec fn spec_dec_word(bytes: Seq<u8>, i: int) -> Option<(u64, int)> {
    if 0 <= i && i + 8 <= bytes.len() {
        Some((spec_word_value(bytes.subrange(i, i + 8)) as u64, i + 8))
    } else {
        None
    }
}

/// Parsing the bytes [`spec_word`] wrote recovers the word.
pub proof fn lemma_dec_word(bytes: Seq<u8>, i: int, v: u64)
    requires
        0 <= i,
        i + 8 <= bytes.len(),
        bytes.subrange(i, i + 8) == spec_word(v),
    ensures
        spec_dec_word(bytes, i) == Some((v, i + 8)),
{
    lemma_word_roundtrip(v);
}

/// Exec mirror of [`spec_dec_word`].
fn dec_word(bytes: &Vec<u8>, pos: usize) -> (r: Option<(u64, usize)>)
    ensures
        match r {
            Some((v, p)) => spec_dec_word(bytes@, pos as int) == Some((v, p as int)),
            None => spec_dec_word(bytes@, pos as int) is None,
        },
{
    if pos <= bytes.len() && bytes.len() - pos >= 8 {
        let b0: u64 = bytes[pos] as u64;
        let b1: u64 = bytes[pos + 1] as u64;
        let b2: u64 = bytes[pos + 2] as u64;
        let b3: u64 = bytes[pos + 3] as u64;
        let b4: u64 = bytes[pos + 4] as u64;
        let b5: u64 = bytes[pos + 5] as u64;
        let b6: u64 = bytes[pos + 6] as u64;
        let b7: u64 = bytes[pos + 7] as u64;
        let v: u64 = b0 + 0x100 * b1 + 0x10000 * b2 + 0x1000000 * b3 + 0x100000000 * b4
            + 0x10000000000 * b5 + 0x1000000000000 * b6 + 0x100000000000000 * b7;
        proof {
            let s = bytes@.subrange(pos as int, pos as int + 8);
            assert(s[0] == b0 && s[1] == b1 && s[2] == b2 && s[3] == b3 && s[4] == b4 && s[5] == b5
                && s[6] == b6 && s[7] == b7);
        }
        Some((v, pos + 8))
    } else {
        None
    }
}

/// Append one byte.
fn enc_byte(out: &mut Vec<u8>, v: u8)
    ensures
        final(out)@ == old(out)@ + seq![v],
{
    out.push(v);
    proof {
        assert(out@ =~= old(out)@ + seq![v]);
    }
}

/// Parse one byte at `i`.
pub open spec fn spec_dec_byte(bytes: Seq<u8>, i: int) -> Option<(u8, int)> {
    if 0 <= i && i + 1 <= bytes.len() {
        Some((bytes[i], i + 1))
    } else {
        None
    }
}

fn dec_byte(bytes: &Vec<u8>, pos: usize) -> (r: Option<(u8, usize)>)
    ensures
        match r {
            Some((v, p)) => spec_dec_byte(bytes@, pos as int) == Some((v, p as int)),
            None => spec_dec_byte(bytes@, pos as int) is None,
        },
{
    if pos < bytes.len() {
        Some((bytes[pos], pos + 1))
    } else {
        None
    }
}

// ---------------------------------------------------------------------
// The byte-level delta
// ---------------------------------------------------------------------
/// The byte the base provides at `i`: past its end, zero.
pub open spec fn base_at(base: Seq<u8>, i: int) -> u8 {
    if 0 <= i < base.len() {
        base[i]
    } else {
        0
    }
}

/// The positions (with their target bytes) where the target differs from
/// the base, from `i` on, ascending.
pub open spec fn diff_pairs(base: Seq<u8>, target: Seq<u8>, i: int) -> Seq<(int, u8)>
    decreases target.len() - i,
{
    if i < 0 || i >= target.len() {
        Seq::empty()
    } else if base_at(base, i) != target[i] {
        seq![(i, target[i])] + diff_pairs(base, target, i + 1)
    } else {
        diff_pairs(base, target, i + 1)
    }
}

/// The wire form of the difference list.
pub open spec fn pairs_bytes(pairs: Seq<(int, u8)>) -> Seq<u8>
    decreases pairs.len(),
{
    if pairs.len() == 0 {
        Seq::empty()
    } else {
        spec_word(pairs[0].0 as u64) + seq![pairs[0].1] + pairs_bytes(pairs.drop_first())
    }
}

/// The delta between two encodings: the target's length, then the
/// differing positions with their new bytes.
pub open spec fn spec_diff(base: Seq<u8>, target: Seq<u8>) -> Seq<u8> {
    spec_word(target.len() as u64) + pairs_bytes(diff_pairs(base, target, 0))
}

/// Applying a difference list position by position.
pub open spec fn apply_pairs(cur: Seq<u8>, pairs: Seq<(int, u8)>) -> Seq<u8>
    decreases pairs.len(),
{
    if pairs.len() == 0 {
        cur
    } else {
        apply_pairs(cur.update(pairs[0].0, pairs[0].1), pairs.drop_first())
    }
}

/// Parse and apply the difference list carried by `delta` from `i` on.
pub open spec fn spec_apply_from(cur: Seq<u8>, delta: Seq<u8>, i: int) -> Option<Seq<u8>>
    decreases delta.len() - i,
{
    if i == delta.len() {
        Some(cur)
    } else {
        match spec_dec_word(delta, i) {
            Some((off, i1)) => match spec_dec_byte(delta, i1) {
                Some((b, i2)) => {
                    if off < cur.len() && i2 > i {
                        spec_apply_from(cur.update(off as int, b), delta, i2)
                    } else {
                        None
                    }
                },
                None => None,
            },
            None => None,
        }
    }
}

/// Apply a delta to a base encoding: start from the base stretched or
/// cut to the target length, then patch the listed positions.
pub open spec fn spec_apply(base: Seq<u8>, delta: Seq<u8>) -> Option<Seq<u8>> {
    match spec_dec_word(delta, 0) {
        Some((len, i1)) => {
            if len <= usize::MAX as u64 {
                let cur = Seq::new(len as nat, |k: int| base_at(base, k));
                spec_apply_from(cur, delta, i1)
            } else {
                None
            }
        },
        None => None,
    }
}

/// Difference positions lie in `[i, target.len())`.
proof fn lemma_diff_pairs_range(base: Seq<u8>, target: Seq<u8>, i: int)
    ensures
        forall|k: int|
            0 <= k < diff_pairs(base, target, i).len() ==> i <= (#[trigger] diff_pairs(
                base,
                target,
                i,
            )[k]).0 < target.len(),
    decreases target.len() - i,
{
    if i < 0 || i >= target.len() {
    } else {
        lemma_diff_pairs_range(base, target, i + 1);
        assert forall|k: int| 0 <= k < diff_pairs(base, target, i).len() implies i <= (
        #[trigger] diff_pairs(base, target, i)[k]).0 < target.len() by {
            if base_at(base, i) != target[i] {
                if k > 0 {
                    assert(diff_pairs(base, target, i)[k] == diff_pairs(base, target, i + 1)[k - 1]);
                }
            } else {
                assert(diff_pairs(base, target, i)[k] == diff_pairs(base, target, i + 1)[k]);
            }
        }
    }
}

/// Patching every difference of the suffix turns the working copy into
/// the target.
proof fn lemma_apply_pairs_diff(cur: Seq<u8>, base: Seq<u8>, target: Seq<u8>, i: int)
    requires
        cur.len() == target.len(),
        0 <= i <= target.len(),
        forall|k: int| 0 <= k < i ==> cur[k] == target[k],
        forall|k: int| i <= k < target.len() ==> cur[k] == base_at(base, k),
    ensures
        apply_pairs(cur, diff_pairs(base, target, i)) == target,
    decreases target.len() - i,
{
    if i == target.len() {
        assert(cur =~= target);
    } else if base_at(base, i) != target[i] {
        let cur2 = cur.update(i, target[i]);
        assert(diff_pairs(base, target, i).drop_first() =~= diff_pairs(base, target, i + 1));
        lemma_apply_pairs_diff(cur2, base, target, i + 1);
    } else {
        lemma_apply_pairs_diff(cur, base, target, i + 1);
    }
}

/// Parsing the wire form of a difference list applies exactly that list.
#[verifier::rlimit(100)]
proof fn lemma_pairs_bytes_parse(cur: Seq<u8>, pairs: Seq<(int, u8)>, delta: Seq<u8>, i: int)
    requires
        cur.len() <= usize::MAX,
        0 <= i <= delta.len(),
        delta.subrange(i, delta.len() as int) == pairs_bytes(pairs),
        forall|k: int| 0 <= k < pairs.len() ==> 0 <= (#[trigger] pairs[k]).0 < cur.len(),
    ensures
        spec_apply_from(cur, delta, i) == Some(apply_pairs(cur, pairs)),
    decreases pairs.len(),
{
    if pairs.len() == 0 {
        assert(pairs_bytes(pairs) =~= Seq::<u8>::empty());
        assert(delta.subrange(i, delta.len() as int).len() == 0);
        assert(delta.len() == i);
    } else {
        let off = pairs[0].0;
        let b = pairs[0].1;
        let rest = pairs.drop_first();
        let w = spec_word(off as u64);
        let pb = pairs_bytes(pairs);
        let tail = delta.subrange(i, delta.len() as int);
        lemma_word_roundtrip(off as u64);
        assert(pb == w + seq![b] + pairs_bytes(rest));
        assert(tail.len() == pb.len());
        assert(delta.len() - i >= 9);
        assert forall|k: int| 0 <= k < pb.len() implies delta[i + k] == pb[k] by {
            assert(tail[k] == delta[i + k]);
        }
        assert(delta.subrange(i, i + 8) =~= w) by {
            assert forall|k: int| 0 <= k < 8 implies delta.subrange(i, i + 8)[k] == w[k] by {
                assert(delta[i + k] == pb[k]);
                assert(pb[k] == (w + seq![b] + pairs_bytes(rest))[k]);
            }
        }
        lemma_dec_word(delta, i, off as u64);
        assert(delta[i + 8] == pb[8]);
        assert(pb[8] == b);
        assert(delta.subrange(i + 9, delta.len() as int) =~= pairs_bytes(rest)) by {
            assert forall|k: int| 0 <= k < pairs_bytes(rest).len() implies delta.subrange(
                i + 9,
                delta.len() as int,
            )[k] == pairs_bytes(rest)[k] by {
                assert(delta[i + 9 + k] == pb[9 + k]);
                assert(pb[9 + k] == (w + seq![b] + pairs_bytes(rest))[9 + k]);
            }
        }
        lemma_pairs_bytes_parse(cur.update(off, b), rest, delta, i + 9);
        assert(off as u64 as int == off);
    }
}

/// Round trip of the delta itself: applying a computed delta to the base
/// it was computed against yields the target encoding, bit for bit.
pub proof fn lemma_diff_apply(base: Seq<u8>, target: Seq<u8>)
    requires
        target.len() <= usize::MAX,
    ensures
        spec_apply(base, spec_diff(base, target)) == Some(target),
{
    let delta = spec_diff(base, target);
    let pairs = diff_pairs(base, target, 0);
    lemma_word_roundtrip(target.len() as u64);
    assert(target.len() <= usize::MAX);
    assert(delta.subrange(0, 8) =~= spec_word(target.len() as u64));
    lemma_dec_word(delta, 0, target.len() as u64);
    let cur = Seq::new(target.len() as nat, |k: int| base_at(base, k));
    lemma_diff_pairs_range(base, target, 0);
    assert(delta.subrange(8, delta.len() as int) =~= pairs_bytes(pairs));
    lemma_pairs_bytes_parse(cur, pairs, delta, 8);
    lemma_apply_pairs_diff(cur, base, target, 0);
}

/// Exec mirror of [`spec_diff`].
pub fn diff_bytes(base: &Vec<u8>, target: &Vec<u8>) -> (out: Vec<u8>)
    ensures
        out@ == spec_diff(base@, target@),
{
    let n: usize = target.len();
    let mut out: Vec<u8> = Vec::new();
    enc_word(&mut out, n as u64);
    let mut i: usize = 0;
    while i < n
        invariant
            n == target@.len(),
            i <= n,
            out@ + pairs_bytes(diff_pairs(base@, target@, i as int)) == spec_word(n as u64)
                + pairs_bytes(diff_pairs(base@, target@, 0)),
        decreases n - i,
    {
        let bb: u8 = if i < base.len() {
            base[i]
        } else {
            0
        };
        if bb != target[i] {
            enc_word(&mut out, i as u64);
            enc_byte(&mut out, target[i]);
            proof {
                let pairs = diff_pairs(base@, target@, i as int);
                let rest = diff_pairs(base@, target@, i as int + 1);
                assert(pairs == seq![(i as int, target@[i as int])] + rest);
                assert(pairs[0] == (i as int, target@[i as int]));
                assert(pairs.drop_first() =~= rest);
                assert(pairs_bytes(pairs) == spec_word(i as u64) + seq![target@[i as int]]
                    + pairs_bytes(pairs.drop_first()));
                assert(out@ + pairs_bytes(rest) =~= spec_word(n as u64) + pairs_bytes(
                    diff_pairs(base@, target@, 0),
                ));
            }
        }
        i += 1;
    }
    proof {
        assert(out@ =~= spec_diff(base@, target@));
    }
    out
}

/// Exec mirror of [`spec_apply`]: `None` means the delta is corrupt or
/// was computed against a different base.
pub fn apply_bytes(base: &Vec<u8>, delta: &Vec<u8>) -> (out: Option<Vec<u8>>)
    ensures
        match out {
            Some(v) => spec_apply(base@, delta@) == Some(v@),
            None => spec_apply(base@, delta@) is None,
        },
{
    let (len64, mut pos): (u64, usize) = match dec_word(delta, 0) {
        Some(p) => p,
        None => {
            return None;
        },
    };
    if len64 > usize::MAX as u64 {
        return None;
    }
    let len: usize = len64 as usize;
    let mut cur: Vec<u8> = Vec::new();
    let mut k: usize = 0;
    while k < len
        invariant
            k <= len,
            cur@ =~= Seq::new(k as nat, |j: int| base_at(base@, j)),
        decreases len - k,
    {
        let bb: u8 = if k < base.len() {
            base[k]
        } else {
            0
        };
        cur.push(bb);
        k += 1;
    }
    proof {
        assert(cur@ =~= Seq::new(len as nat, |j: int| base_at(base@, j)));
    }
    let ghost whole = spec_apply(base@, delta@);
    proof {
        assert(whole == spec_apply_from(cur@, delta@, pos as int));
    }
    while pos < delta.len()
        invariant
            pos <= delta@.len(),
            cur@.len() <= usize::MAX,
            whole == spec_apply(base@, delta@),
            whole == spec_apply_from(cur@, delta@, pos as int),
        decreases delta@.len() - pos,
    {
        let (off, p1): (u64, usize) = match dec_word(delta, pos) {
            Some(p) => p,
            None => {
                proof {
                    assert(spec_apply_from(cur@, delta@, pos as int) is None);
                }
                return None;
            },
        };
        let (b, p2): (u8, usize) = match dec_byte(delta, p1) {
            Some(p) => p,
            None => {
                proof {
                    assert(spec_apply_from(cur@, delta@, pos as int) is None);
                }
                return None;
            },
        };
        if !(off < cur.len() as u64) {
            proof {
                assert(spec_apply_from(cur@, delta@, pos as int) is None);
            }
            return None;
        }
        let offu: usize = off as usize;
        let ghost cur_before = cur@;
        cur[offu] = b;
        proof {
            assert(cur@ =~= cur_before.update(off as int, b));
        }
        pos = p2;
    }
    proof {
        assert(whole == Some(cur@));
    }
    Some(cur)
}

// ---------------------------------------------------------------------
// The state encoding, field by field
// ---------------------------------------------------------------------
pub open spec fn spec_enc_zz(x: i64) -> Seq<u8> {
    spec_word(spec_zigzag(x))
}

pub open spec fn spec_dec_zz(bytes: Seq<u8>, i: int) -> Option<(i64, int)> {
    match spec_dec_word(bytes, i) {
        Some((v, i1)) => Some((spec_unzigzag(v), i1)),
        None => None,
    }
}

pub open spec fn spec_enc_vec2(p: Vec2) -> Seq<u8> {
    spec_enc_zz(p.x) + spec_enc_zz(p.y)
}

pub open spec fn spec_dec_vec2(bytes: Seq<u8>, i: int) -> Option<(Vec2, int)> {
    match spec_dec_zz(bytes, i) {
        Some((x, i1)) => match spec_dec_zz(bytes, i1) {
            Some((y, i2)) => Some((Vec2 { x, y }, i2)),
            None => None,
        },
        None => None,
    }
}

pub open spec fn spec_enc_id(id: Id) -> Seq<u8> {
    spec_word(id.slot as u64) + spec_word(id.generation)
}

pub open spec fn spec_dec_id(bytes: Seq<u8>, i: int) -> Option<(Id, int)> {
    match spec_dec_word(bytes, i) {
        Some((s, i1)) => {
            if s <= usize::MAX as u64 {
                match spec_dec_word(bytes, i1) {
                    Some((g, i2)) => Some((Id { slot: s as usize, generation: g }, i2)),
                    None => None,
                }
            } else {
                None
            }
        },
        None => None,
    }
}

pub open spec fn spec_enc_bool(b: bool) -> Seq<u8> {
    if b {
        seq![1u8]
    } else {
        seq![0u8]
    }
}

pub open spec fn spec_dec_bool(bytes: Seq<u8>, i: int) -> Option<(bool, int)> {
    match spec_dec_byte(bytes, i) {
        Some((v, i1)) => {
            if v == 0 {
                Some((false, i1))
            } else if v == 1 {
                Some((true, i1))
            } else {
                None
            }
        },
        None => None,
    }
}

pub open spec fn spec_enc_solid(s: Solid) -> Seq<u8> {
    match s {
        Solid::NonSolid => seq![0u8],
        Solid::Partial => seq![1u8],
        Solid::Solid => seq![2u8],
    }
}

pub open spec fn spec_dec_solid(bytes: Seq<u8>, i: int) -> Option<(Solid, int)> {
    match spec_dec_byte(bytes, i) {
        Some((v, i1)) => {
            if v == 0 {
                Some((Solid::NonSolid, i1))
            } else if v == 1 {
                Some((Solid::Partial, i1))
            } else if v == 2 {
                Some((Solid::Solid, i1))
            } else {
                None
            }
        },
        None => None,
    }
}

pub open spec fn spec_enc_opt_vec2(o: Option<Vec2>) -> Seq<u8> {
    match o {
        None => seq![0u8],
        Some(p) => seq![1u8] + spec_enc_vec2(p),
    }
}

pub open spec fn spec_dec_opt_vec2(bytes: Seq<u8>, i: int) -> Option<(Option<Vec2>, int)> {
    match spec_dec_byte(bytes, i) {
        Some((t, i1)) => {
            if t == 0 {
                Some((None, i1))
            } else if t == 1 {
                match spec_dec_vec2(bytes, i1) {
                    Some((p, i2)) => Some((Some(p), i2)),
                    None => None,
                }
            } else {
                None
            }
        },
        None => None,
    }
}

pub open spec fn spec_enc_opt_id(o: Option<Id>) -> Seq<u8> {
    match o {
        None => seq![0u8],
        Some(id) => seq![1u8] + spec_enc_id(id),
    }
}

pub open spec fn spec_dec_opt_id(bytes: Seq<u8>, i: int) -> Option<(Option<Id>, int)> {
    match spec_dec_byte(bytes, i) {
        Some((t, i1)) => {
            if t == 0 {
                Some((None, i1))
            } else if t == 1 {
                match spec_dec_id(bytes, i1) {
                    Some((id, i2)) => Some((Some(id), i2)),
                    None => None,
                }
            } else {
                None
            }
        },
        None => None,
    }
}

#[verifier::opaque]
pub open spec fn spec_enc_name(name: Seq<char>) -> Seq<u8> {
    let bytes = vstd::utf8::encode_utf8(name);
    spec_word(bytes.len() as u64) + bytes
}

#[verifier::opaque]
pub open spec fn spec_dec_name(bytes: Seq<u8>, i: int) -> Option<(Seq<char>, int)> {
    match spec_dec_word(bytes, i) {
        Some((n, i1)) => {
            if n <= usize::MAX as u64 && i1 + n <= bytes.len() {
                let payload = bytes.subrange(i1, i1 + n);
                if vstd::utf8::valid_utf8(payload) {
                    Some((vstd::utf8::decode_utf8(payload), i1 + n))
                } else {
                    None
                }
            } else {
                None
            }
        },
        None => None,
    }
}

#[verifier::opaque]
pub open spec fn spec_enc_player(p: PlayerView) -> Seq<u8> {
    spec_enc_vec2(p.pos) + (spec_enc_zz(p.radius) + (spec_enc_solid(p.solid) + (spec_enc_zz(
        p.hearts as i64,
    ) + (spec_enc_zz(p.respawn_timer) + (spec_word(p.ability_cooldown) + (spec_enc_zz(p.speed)
        + (spec_enc_zz(p.deaths as i64) + (spec_enc_zz(p.kills as i64) + (spec_enc_bool(
        p.no_interpolation,
    ) + (spec_enc_name(p.name) + spec_enc_opt_vec2(p.spawn_pos)))))))))))
}

#[verifier::opaque]
pub open spec fn spec_dec_player(bytes: Seq<u8>, i: int) -> Option<(PlayerView, int)> {
    match spec_dec_vec2(bytes, i) {
        Some((pos, i1)) => match spec_dec_zz(bytes, i1) {
            Some((radius, i2)) => match spec_dec_solid(bytes, i2) {
                Some((solid, i3)) => match spec_dec_zz(bytes, i3) {
                    Some((hearts, i4)) => if i8::MIN <= hearts <= i8::MAX {
                        match spec_dec_zz(bytes, i4) {
                            Some((respawn_timer, i5)) => match spec_dec_word(bytes, i5) {
                                Some((ability_cooldown, i6)) => match spec_dec_zz(bytes, i6) {
                                    Some((speed, i7)) => match spec_dec_zz(bytes, i7) {
                                        Some((deaths, i8r)) => if i32::MIN <= deaths <= i32::MAX {
                                            match spec_dec_zz(bytes, i8r) {
                                                Some((kills, i9)) => if i32::MIN <= kills
                                                    <= i32::MAX {
                                                    match spec_dec_bool(bytes, i9) {
                                                        Some((no_interpolation, i10)) => match spec_dec_name(
                                                            bytes,
                                                            i10,
                                                        ) {
                                                            Some((name, i11)) => match spec_dec_opt_vec2(
                                                                bytes,
                                                                i11,
                                                            ) {
                                                                Some((spawn_pos, i12)) => Some(
                                                                    (
                                                                        PlayerView {
                                                                            pos,
                                                                            radius,
                                                                            solid,
                                                                            hearts: hearts as i8,
                                                                            respawn_timer,
                                                                            ability_cooldown,
                                                                            speed,
                                                                            deaths: deaths as i32,
                                                                            kills: kills as i32,
                                                                            no_interpolation,
                                                                            name,
                                                                            spawn_pos,
                                                                        },
                                                                        i12,
                                                                    ),
                                                                ),
                                                                None => None,
                                                            },
                                                            None => None,
                                                        },
                                                        None => None,
                                                    }
                                                } else {
                                                    None
                                                },
                                                None => None,
                                            }
                                        } else {
                                            None
                                        },
                                        None => None,
                                    },
                                    None => None,
                                },
                                None => None,
                            },
                            None => None,
                        }
                    } else {
                        None
                    },
                    None => None,
                },
                None => None,
            },
            None => None,
        },
        None => None,
    }
}

#[verifier::opaque]
pub open spec fn spec_enc_proj(p: ProjectileThing) -> Seq<u8> {
    spec_enc_vec2(p.pos) + (spec_enc_zz(p.radius) + (spec_enc_solid(p.solid) + (spec_enc_vec2(p.vel)
        + spec_enc_id(p.owner))))
}

#[verifier::opaque]
pub open spec fn spec_dec_proj(bytes: Seq<u8>, i: int) -> Option<(ProjectileThing, int)> {
    match spec_dec_vec2(bytes, i) {
        Some((pos, i1)) => match spec_dec_zz(bytes, i1) {
            Some((radius, i2)) => match spec_dec_solid(bytes, i2) {
                Some((solid, i3)) => match spec_dec_vec2(bytes, i3) {
                    Some((vel, i4)) => match spec_dec_id(bytes, i4) {
                        Some((owner, i5)) => Some(
                            (ProjectileThing { pos, radius, solid, vel, owner }, i5),
                        ),
                        None => None,
                    },
                    None => None,
                },
                None => None,
            },
            None => None,
        },
        None => None,
    }
}

#[verifier::opaque]
pub open spec fn spec_enc_slot(sl: SlotView) -> Seq<u8> {
    spec_word(sl.generation) + (match sl.value {
        None => seq![0u8],
        Some(ThingView::Player(p)) => seq![1u8] + spec_enc_player(p),
        Some(ThingView::Projectile(p)) => seq![2u8] + spec_enc_proj(p),
    })
}

#[verifier::opaque]
pub open spec fn spec_dec_slot(bytes: Seq<u8>, i: int) -> Option<(SlotView, int)> {
    match spec_dec_word(bytes, i) {
        Some((generation, i1)) => match spec_dec_byte(bytes, i1) {
            Some((t, i2)) => {
                if t == 0 {
                    Some((SlotView { generation, value: None }, i2))
                } else if t == 1 {
                    match spec_dec_player(bytes, i2) {
                        Some((p, i3)) => Some(
                            (SlotView { generation, value: Some(ThingView::Player(p)) }, i3),
                        ),
                        None => None,
                    }
                } else if t == 2 {
                    match spec_dec_proj(bytes, i2) {
                        Some((p, i3)) => Some(
                            (SlotView { generation, value: Some(ThingView::Projectile(p)) }, i3),
                        ),
                        None => None,
                    }
                } else {
                    None
                }
            },
            None => None,
        },
        None => None,
    }
}

pub open spec fn spec_enc_slots(things: Seq<SlotView>) -> Seq<u8>
    decreases things.len(),
{
    if things.len() == 0 {
        Seq::empty()
    } else {
        spec_enc_slot(things[0]) + spec_enc_slots(things.drop_first())
    }
}

pub open spec fn spec_dec_slots(bytes: Seq<u8>, i: int, n: nat) -> Option<(Seq<SlotView>, int)>
    decreases n,
{
    if n == 0 {
        Some((Seq::empty(), i))
    } else {
        match spec_dec_slot(bytes, i) {
            Some((sl, i1)) => match spec_dec_slots(bytes, i1, (n - 1) as nat) {
                Some((rest, i2)) => Some((seq![sl] + rest, i2)),
                None => None,
            },
            None => None,
        }
    }
}

#[verifier::opaque]
pub open spec fn spec_enc_event(e: Event) -> Seq<u8> {
    match e {
        Event::PlayerDied { thing_id, pos } => seq![0u8] + (spec_enc_id(thing_id) + spec_enc_vec2(
            pos,
        )),
        Event::ProjectileHit { pos } => seq![1u8] + spec_enc_vec2(pos),
        Event::ProjectileFired { pos } => seq![2u8] + spec_enc_vec2(pos),
    }
}

#[verifier::opaque]
pub open spec fn spec_dec_event(bytes: Seq<u8>, i: int) -> Option<(Event, int)> {
    match spec_dec_byte(bytes, i) {
        Some((t, i1)) => {
            if t == 0 {
                match spec_dec_id(bytes, i1) {
                    Some((thing_id, i2)) => match spec_dec_vec2(bytes, i2) {
                        Some((pos, i3)) => Some((Event::PlayerDied { thing_id, pos }, i3)),
                        None => None,
                    },
                    None => None,
                }
            } else if t == 1 {
                match spec_dec_vec2(bytes, i1) {
                    Some((pos, i2)) => Some((Event::ProjectileHit { pos }, i2)),
                    None => None,
                }
            } else if t == 2 {
                match spec_dec_vec2(bytes, i1) {
                    Some((pos, i2)) => Some((Event::ProjectileFired { pos }, i2)),
                    None => None,
                }
            } else {
                None
            }
        },
        None => None,
    }
}

pub open spec fn spec_enc_events(events: Seq<Event>) -> Seq<u8>
    decreases events.len(),
{
    if events.len() == 0 {
        Seq::empty()
    } else {
        spec_enc_event(events[0]) + spec_enc_events(events.drop_first())
    }
}

pub open spec fn spec_dec_events(bytes: Seq<u8>, i: int, n: nat) -> Option<(Seq<Event>, int)>
    decreases n,
{
    if n == 0 {
        Some((Seq::empty(), i))
    } else {
        match spec_dec_event(bytes, i) {
            Some((e, i1)) => match spec_dec_events(bytes, i1, (n - 1) as nat) {
                Some((rest, i2)) => Some((seq![e] + rest, i2)),
                None => None,
            },
            None => None,
        }
    }
}

pub open spec fn spec_enc_points(pts: Seq<Vec2>) -> Seq<u8>
    decreases pts.len(),
{
    if pts.len() == 0 {
        Seq::empty()
    } else {
        spec_enc_vec2(pts[0]) + spec_enc_points(pts.drop_first())
    }
}

pub open spec fn spec_dec_points(bytes: Seq<u8>, i: int, n: nat) -> Option<(Seq<Vec2>, int)>
    decreases n,
{
    if n == 0 {
        Some((Seq::empty(), i))
    } else {
        match spec_dec_vec2(bytes, i) {
            Some((p, i1)) => match spec_dec_points(bytes, i1, (n - 1) as nat) {
                Some((rest, i2)) => Some((seq![p] + rest, i2)),
                None => None,
            },
            None => None,
        }
    }
}

pub open spec fn spec_enc_polyline(pts: Seq<Vec2>) -> Seq<u8> {
    spec_word(pts.len() as u64) + spec_enc_points(pts)
}

pub open spec fn spec_dec_polyline(bytes: Seq<u8>, i: int) -> Option<(Seq<Vec2>, int)> {
    match spec_dec_word(bytes, i) {
        Some((n, i1)) => {
            if n <= usize::MAX as u64 {
                spec_dec_points(bytes, i1, n as nat)
            } else {
                None
            }
        },
        None => None,
    }
}

pub open spec fn spec_enc_polylines(walls: Seq<Seq<Vec2>>) -> Seq<u8>
    decreases walls.len(),
{
    if walls.len() == 0 {
        Seq::empty()
    } else {
        spec_enc_polyline(walls[0]) + spec_enc_polylines(walls.drop_first())
    }
}

pub open spec fn spec_dec_polylines(bytes: Seq<u8>, i: int, n: nat) -> Option<
    (Seq<Seq<Vec2>>, int),
>
    decreases n,
{
    if n == 0 {
        Some((Seq::empty(), i))
    } else {
        match spec_dec_polyline(bytes, i) {
            Some((pl, i1)) => match spec_dec_polylines(bytes, i1, (n - 1) as nat) {
                Some((rest, i2)) => Some((seq![pl] + rest, i2)),
                None => None,
            },
            None => None,
        }
    }
}

#[verifier::opaque]
pub open spec fn spec_enc_map(m: MapView) -> Seq<u8> {
    spec_word(m.polylines.len() as u64) + (spec_enc_polylines(m.polylines) + (spec_word(
        m.spawn_points.len() as u64,
    ) + spec_enc_points(m.spawn_points)))
}

#[verifier::opaque]
pub open spec fn spec_dec_map(bytes: Seq<u8>, i: int) -> Option<(MapView, int)> {
    match spec_dec_word(bytes, i) {
        Some((np, i1)) => {
            if np <= usize::MAX as u64 {
                match spec_dec_polylines(bytes, i1, np as nat) {
                    Some((polylines, i2)) => match spec_dec_word(bytes, i2) {
                        Some((ns, i3)) => {
                            if ns <= usize::MAX as u64 {
                                match spec_dec_points(bytes, i3, ns as nat) {
                                    Some((spawn_points, i4)) => Some(
                                        (MapView { polylines, spawn_points }, i4),
                                    ),
                                    None => None,
                                }
                            } else {
                                None
                            }
                        },
                        None => None,
                    },
                    None => None,
                }
            } else {
                None
            }
        },
        None => None,
    }
}

/// The one encoding of a whole world state.
#[verifier::opaque]
pub open spec fn spec_enc_state(sv: StateView) -> Seq<u8> {
    spec_word(sv.timestamp) + (spec_enc_zz(sv.next_spawn as i64) + (spec_enc_zz(sv.width)
        + (spec_enc_zz(sv.height) + (spec_enc_map(sv.map) + (spec_word(sv.things.len() as u64)
        + (spec_enc_slots(sv.things) + (spec_word(sv.events.len() as u64) + spec_enc_events(
        sv.events,
    ))))))))
}

#[verifier::opaque]
pub open spec fn spec_dec_state(bytes: Seq<u8>, i: int) -> Option<(StateView, int)> {
    match spec_dec_word(bytes, i) {
        Some((timestamp, i1)) => match spec_dec_zz(bytes, i1) {
            Some((next_spawn, i2)) => if i16::MIN <= next_spawn <= i16::MAX {
                match spec_dec_zz(bytes, i2) {
                    Some((width, i3)) => match spec_dec_zz(bytes, i3) {
                        Some((height, i4)) => match spec_dec_map(bytes, i4) {
                            Some((map, i5)) => match spec_dec_word(bytes, i5) {
                                Some((nt, i6)) => if nt <= usize::MAX as u64 {
                                    match spec_dec_slots(bytes, i6, nt as nat) {
                                        Some((things, i7)) => match spec_dec_word(bytes, i7) {
                                            Some((ne, i8r)) => if ne <= usize::MAX as u64 {
                                                match spec_dec_events(bytes, i8r, ne as nat) {
                                                    Some((events, i9)) => Some(
                                                        (
                                                            StateView {
                                                                timestamp,
                                                                next_spawn: next_spawn as i16,
                                                                things,
                                                                events,
                                                                map,
                                                                width,
                                                                height,
                                                            },
                                                            i9,
                                                        ),
                                                    ),
                                                    None => None,
                                                }
                                            } else {
                                                None
                                            },
                                            None => None,
                                        },
                                        None => None,
                                    }
                                } else {
                                    None
                                },
                                None => None,
                            },
                            None => None,
                        },
                        None => None,
                    },
                    None => None,
                }
            } else {
                None
            },
            None => None,
        },
        None => None,
    }
}

// ---------------------------------------------------------------------
// Round trip: parsing an encoding recovers the encoded value
// ---------------------------------------------------------------------
/// A byte run that equals a concatenation splits at the seam.
proof fn lemma_split(bytes: Seq<u8>, i: int, a: Seq<u8>, b: Seq<u8>)
    requires
        0 <= i,
        i + a.len() + b.len() <= bytes.len(),
        bytes.subrange(i, i + a.len() + b.len()) == a + b,
    ensures
        bytes.subrange(i, i + a.len()) == a,
        bytes.subrange(i + a.len(), i + a.len() + b.len()) == b,
{
    let whole = bytes.subrange(i, i + a.len() + b.len());
    assert forall|j: int| 0 <= j < a.len() implies bytes.subrange(i, i + a.len())[j] == a[j] by {
        assert(whole[j] == (a + b)[j]);
    }
    assert forall|j: int|
        0 <= j < b.len() implies bytes.subrange(i + a.len(), i + a.len() + b.len())[j] == b[j] by {
        assert(whole[a.len() + j] == (a + b)[a.len() + j]);
    }
    assert(bytes.subrange(i, i + a.len()) =~= a);
    assert(bytes.subrange(i + a.len(), i + a.len() + b.len()) =~= b);
}

proof fn lemma_byte_at(bytes: Seq<u8>, i: int, v: u8)
    requires
        0 <= i,
        i + 1 <= bytes.len(),
        bytes.subrange(i, i + 1) == seq![v],
    ensures
        bytes[i] == v,
        spec_dec_byte(bytes, i) == Some((v, i + 1)),
{
    assert(bytes.subrange(i, i + 1)[0] == v);
}

proof fn lemma_dec_zz(bytes: Seq<u8>, i: int, x: i64)
    requires
        0 <= i,
        i + 8 <= bytes.len(),
        bytes.subrange(i, i + 8) == spec_enc_zz(x),
    ensures
        spec_dec_zz(bytes, i) == Some((x, i + 8)),
{
    lemma_dec_word(bytes, i, spec_zigzag(x));
}

proof fn lemma_dec_vec2(bytes: Seq<u8>, i: int, p: Vec2)
    requires
        0 <= i,
        i + 16 <= bytes.len(),
        bytes.subrange(i, i + 16) == spec_enc_vec2(p),
    ensures
        spec_dec_vec2(bytes, i) == Some((p, i + 16)),
{
    lemma_split(bytes, i, spec_enc_zz(p.x), spec_enc_zz(p.y));
    lemma_dec_zz(bytes, i, p.x);
    lemma_dec_zz(bytes, i + 8, p.y);
}

proof fn lemma_dec_id(bytes: Seq<u8>, i: int, id: Id)
    requires
        0 <= i,
        i + 16 <= bytes.len(),
        bytes.subrange(i, i + 16) == spec_enc_id(id),
    ensures
        spec_dec_id(bytes, i) == Some((id, i + 16)),
{
    lemma_split(bytes, i, spec_word(id.slot as u64), spec_word(id.generation));
    lemma_dec_word(bytes, i, id.slot as u64);
    lemma_dec_word(bytes, i + 8, id.generation);
}

proof fn lemma_dec_bool(bytes: Seq<u8>, i: int, b: bool)
    requires
        0 <= i,
        i + 1 <= bytes.len(),
        bytes.subrange(i, i + 1) == spec_enc_bool(b),
    ensures
        spec_dec_bool(bytes, i) == Some((b, i + 1)),
{
    lemma_byte_at(bytes, i, if b { 1u8 } else { 0u8 });
}

proof fn lemma_dec_solid(bytes: Seq<u8>, i: int, v: Solid)
    requires
        0 <= i,
        i + 1 <= bytes.len(),
        bytes.subrange(i, i + 1) == spec_enc_solid(v),
    ensures
        spec_dec_solid(bytes, i) == Some((v, i + 1)),
{
    lemma_byte_at(
        bytes,
        i,
        match v {
            Solid::NonSolid => 0u8,
            Solid::Partial => 1u8,
            Solid::Solid => 2u8,
        },
    );
}

#[verifier::rlimit(100)]
proof fn lemma_dec_opt_vec2(bytes: Seq<u8>, i: int, o: Option<Vec2>)
    requires
        0 <= i,
        i + spec_enc_opt_vec2(o).len() <= bytes.len(),
        bytes.subrange(i, i + spec_enc_opt_vec2(o).len()) == spec_enc_opt_vec2(o),
    ensures
        spec_dec_opt_vec2(bytes, i) == Some((o, i + spec_enc_opt_vec2(o).len())),
{
    match o {
        None => {
            lemma_byte_at(bytes, i, 0u8);
        },
        Some(p) => {
            lemma_split(bytes, i, seq![1u8], spec_enc_vec2(p));
            lemma_byte_at(bytes, i, 1u8);
            lemma_dec_vec2(bytes, i + 1, p);
        },
    }
}

#[verifier::rlimit(100)]
proof fn lemma_dec_opt_id(bytes: Seq<u8>, i: int, o: Option<Id>)
    requires
        0 <= i,
        i + spec_enc_opt_id(o).len() <= bytes.len(),
        bytes.subrange(i, i + spec_enc_opt_id(o).len()) == spec_enc_opt_id(o),
    ensures
        spec_dec_opt_id(bytes, i) == Some((o, i + spec_enc_opt_id(o).len())),
{
    match o {
        None => {
            lemma_byte_at(bytes, i, 0u8);
        },
        Some(id) => {
            lemma_split(bytes, i, seq![1u8], spec_enc_id(id));
            lemma_byte_at(bytes, i, 1u8);
            lemma_dec_id(bytes, i + 1, id);
        },
    }
}

#[verifier::rlimit(100)]
proof fn lemma_dec_name(bytes: Seq<u8>, i: int, name: Seq<char>)
    requires
        0 <= i,
        vstd::utf8::encode_utf8(name).len() <= usize::MAX,
        i + spec_enc_name(name).len() <= bytes.len(),
        bytes.subrange(i, i + spec_enc_name(name).len()) == spec_enc_name(name),
    ensures
        spec_dec_name(bytes, i) == Some((name, i + spec_enc_name(name).len())),
{
    reveal(spec_enc_name);
    reveal(spec_dec_name);
    let payload = vstd::utf8::encode_utf8(name);
    lemma_split(bytes, i, spec_word(payload.len() as u64), payload);
    lemma_dec_word(bytes, i, payload.len() as u64);
    vstd::utf8::encode_utf8_valid_utf8(name);
    vstd::utf8::encode_utf8_decode_utf8(name);
    assert(bytes.subrange(i + 8, i + 8 + payload.len()) == payload);
}

/// Decoding chain for a player, first quarter.
#[verifier::rlimit(100)]
proof fn lemma_dec_player_front_a(bytes: Seq<u8>, i: int, p: PlayerView)
    requires
        0 <= i,
        i + spec_enc_player(p).len() <= bytes.len(),
        bytes.subrange(i, i + spec_enc_player(p).len()) == spec_enc_player(p),
    ensures
        spec_dec_vec2(bytes, i) == Some((p.pos, i + 16)),
        spec_dec_zz(bytes, i + 16) == Some((p.radius, i + 24)),
        spec_dec_solid(bytes, i + 24) == Some((p.solid, i + 25)),
        bytes.subrange(i + 25, i + spec_enc_player(p).len()) == spec_enc_zz(p.hearts as i64) + (
        spec_enc_zz(p.respawn_timer) + (spec_word(p.ability_cooldown) + (spec_enc_zz(p.speed) + (
        spec_enc_zz(p.deaths as i64) + (spec_enc_zz(p.kills as i64) + (spec_enc_bool(
            p.no_interpolation,
        ) + (spec_enc_name(p.name) + spec_enc_opt_vec2(p.spawn_pos)))))))),
{
    reveal(spec_enc_player);
    let e12 = spec_enc_opt_vec2(p.spawn_pos);
    let e11 = spec_enc_name(p.name) + e12;
    let e10 = spec_enc_bool(p.no_interpolation) + e11;
    let e9 = spec_enc_zz(p.kills as i64) + e10;
    let e8 = spec_enc_zz(p.deaths as i64) + e9;
    let e7 = spec_enc_zz(p.speed) + e8;
    let e6 = spec_word(p.ability_cooldown) + e7;
    let e5 = spec_enc_zz(p.respawn_timer) + e6;
    let e4 = spec_enc_zz(p.hearts as i64) + e5;
    let e3 = spec_enc_solid(p.solid) + e4;
    let e2 = spec_enc_zz(p.radius) + e3;
    lemma_split(bytes, i, spec_enc_vec2(p.pos), e2);
    lemma_dec_vec2(bytes, i, p.pos);
    lemma_split(bytes, i + 16, spec_enc_zz(p.radius), e3);
    lemma_dec_zz(bytes, i + 16, p.radius);
    lemma_split(bytes, i + 24, spec_enc_solid(p.solid), e4);
    lemma_dec_solid(bytes, i + 24, p.solid);
}

/// Decoding chain for a player, second quarter.
#[verifier::rlimit(100)]
proof fn lemma_dec_player_front_b(bytes: Seq<u8>, c: int, p: PlayerView, end: int)
    requires
        0 <= c,
        end <= bytes.len(),
        end - c == 24 + 25 + spec_enc_name(p.name).len() + spec_enc_opt_vec2(p.spawn_pos).len(),
        bytes.subrange(c, end) == spec_enc_zz(p.hearts as i64) + (spec_enc_zz(p.respawn_timer) + (
        spec_word(p.ability_cooldown) + (spec_enc_zz(p.speed) + (spec_enc_zz(p.deaths as i64) + (
        spec_enc_zz(p.kills as i64) + (spec_enc_bool(p.no_interpolation) + (spec_enc_name(p.name)
            + spec_enc_opt_vec2(p.spawn_pos)))))))),
    ensures
        spec_dec_zz(bytes, c) == Some((p.hearts as i64, c + 8)),
        spec_dec_zz(bytes, c + 8) == Some((p.respawn_timer, c + 16)),
        spec_dec_word(bytes, c + 16) == Some((p.ability_cooldown, c + 24)),
        bytes.subrange(c + 24, end) == spec_enc_zz(p.speed) + (spec_enc_zz(p.deaths as i64) + (
        spec_enc_zz(p.kills as i64) + (spec_enc_bool(p.no_interpolation) + (spec_enc_name(p.name)
            + spec_enc_opt_vec2(p.spawn_pos))))),
{
    let e12 = spec_enc_opt_vec2(p.spawn_pos);
    let e11 = spec_enc_name(p.name) + e12;
    let e10 = spec_enc_bool(p.no_interpolation) + e11;
    let e9 = spec_enc_zz(p.kills as i64) + e10;
    let e8 = spec_enc_zz(p.deaths as i64) + e9;
    let e7 = spec_enc_zz(p.speed) + e8;
    let e6 = spec_word(p.ability_cooldown) + e7;
    let e5 = spec_enc_zz(p.respawn_timer) + e6;
    lemma_split(bytes, c, spec_enc_zz(p.hearts as i64), e5);
    lemma_dec_zz(bytes, c, p.hearts as i64);
    lemma_split(bytes, c + 8, spec_enc_zz(p.respawn_timer), e6);
    lemma_dec_zz(bytes, c + 8, p.respawn_timer);
    lemma_split(bytes, c + 16, spec_word(p.ability_cooldown), e7);
    lemma_dec_word(bytes, c + 16, p.ability_cooldown);
}

/// Decoding chain for a player, second half.
#[verifier::rlimit(100)]
proof fn lemma_dec_player_back(bytes: Seq<u8>, c: int, p: PlayerView, end: int)
    requires
        0 <= c,
        vstd::utf8::encode_utf8(p.name).len() <= usize::MAX,
        end <= bytes.len(),
        end - c == 25 + spec_enc_name(p.name).len() + spec_enc_opt_vec2(p.spawn_pos).len(),
        bytes.subrange(c, end) == spec_enc_zz(p.speed) + (spec_enc_zz(p.deaths as i64) + (
        spec_enc_zz(p.kills as i64) + (spec_enc_bool(p.no_interpolation) + (spec_enc_name(p.name)
            + spec_enc_opt_vec2(p.spawn_pos))))),
    ensures
        spec_dec_zz(bytes, c) == Some((p.speed, c + 8)),
        spec_dec_zz(bytes, c + 8) == Some((p.deaths as i64, c + 16)),
        spec_dec_zz(bytes, c + 16) == Some((p.kills as i64, c + 24)),
        spec_dec_bool(bytes, c + 24) == Some((p.no_interpolation, c + 25)),
        spec_dec_name(bytes, c + 25) == Some((p.name, c + 25 + spec_enc_name(p.name).len())),
        spec_dec_opt_vec2(bytes, c + 25 + spec_enc_name(p.name).len()) == Some((p.spawn_pos, end)),
{
    let e12 = spec_enc_opt_vec2(p.spawn_pos);
    let e11 = spec_enc_name(p.name) + e12;
    let e10 = spec_enc_bool(p.no_interpolation) + e11;
    let e9 = spec_enc_zz(p.kills as i64) + e10;
    let e8 = spec_enc_zz(p.deaths as i64) + e9;
    lemma_split(bytes, c, spec_enc_zz(p.speed), e8);
    lemma_dec_zz(bytes, c, p.speed);
    lemma_split(bytes, c + 8, spec_enc_zz(p.deaths as i64), e9);
    lemma_dec_zz(bytes, c + 8, p.deaths as i64);
    lemma_split(bytes, c + 16, spec_enc_zz(p.kills as i64), e10);
    lemma_dec_zz(bytes, c + 16, p.kills as i64);
    lemma_split(bytes, c + 24, spec_enc_bool(p.no_interpolation), e11);
    lemma_dec_bool(bytes, c + 24, p.no_interpolation);
    lemma_split(bytes, c + 25, spec_enc_name(p.name), e12);
    lemma_dec_name(bytes, c + 25, p.name);
    lemma_dec_opt_vec2(bytes, c + 25 + spec_enc_name(p.name).len(), p.spawn_pos);
}

#[verifier::rlimit(100)]
proof fn lemma_dec_player(bytes: Seq<u8>, i: int, p: PlayerView)
    requires
        0 <= i,
        vstd::utf8::encode_utf8(p.name).len() <= usize::MAX,
        i + spec_enc_player(p).len() <= bytes.len(),
        bytes.subrange(i, i + spec_enc_player(p).len()) == spec_enc_player(p),
    ensures
        spec_dec_player(bytes, i) == Some((p, i + spec_enc_player(p).len())),
{
    reveal(spec_enc_player);
    reveal(spec_dec_player);
    let end = i + spec_enc_player(p).len();
    lemma_dec_player_front_a(bytes, i, p);
    lemma_dec_player_front_b(bytes, i + 25, p, end);
    lemma_dec_player_back(bytes, i + 49, p, end);
}

#[verifier::rlimit(100)]
#[verifier::spinoff_prover]
proof fn lemma_dec_proj(bytes: Seq<u8>, i: int, p: ProjectileThing)
    requires
        0 <= i,
        i + spec_enc_proj(p).len() <= bytes.len(),
        bytes.subrange(i, i + spec_enc_proj(p).len()) == spec_enc_proj(p),
    ensures
        spec_dec_proj(bytes, i) == Some((p, i + spec_enc_proj(p).len())),
{
    reveal(spec_enc_proj);
    reveal(spec_dec_proj);
    let e5 = spec_enc_id(p.owner);
    let e4 = spec_enc_vec2(p.vel) + e5;
    let e3 = spec_enc_solid(p.solid) + e4;
    let e2 = spec_enc_zz(p.radius) + e3;
    assert(spec_enc_proj(p) == spec_enc_vec2(p.pos) + e2);
    lemma_split(bytes, i, spec_enc_vec2(p.pos), e2);
    lemma_dec_vec2(bytes, i, p.pos);
    lemma_split(bytes, i + 16, spec_enc_zz(p.radius), e3);
    lemma_dec_zz(bytes, i + 16, p.radius);
    lemma_split(bytes, i + 24, spec_enc_solid(p.solid), e4);
    lemma_dec_solid(bytes, i + 24, p.solid);
    lemma_split(bytes, i + 25, spec_enc_vec2(p.vel), e5);
    lemma_dec_vec2(bytes, i + 25, p.vel);
    lemma_dec_id(bytes, i + 41, p.owner);
}

#[verifier::rlimit(100)]
proof fn lemma_dec_slot(bytes: Seq<u8>, i: int, sl: SlotView)
    requires
        0 <= i,
        (sl.value matches Some(ThingView::Player(p)) ==> vstd::utf8::encode_utf8(p.name).len()
            <= usize::MAX),
        i + spec_enc_slot(sl).len() <= bytes.len(),
        bytes.subrange(i, i + spec_enc_slot(sl).len()) == spec_enc_slot(sl),
    ensures
        spec_dec_slot(bytes, i) == Some((sl, i + spec_enc_slot(sl).len())),
{
    reveal(spec_enc_slot);
    reveal(spec_dec_slot);
    let body = match sl.value {
        None => seq![0u8],
        Some(ThingView::Player(p)) => seq![1u8] + spec_enc_player(p),
        Some(ThingView::Projectile(p)) => seq![2u8] + spec_enc_proj(p),
    };
    lemma_split(bytes, i, spec_word(sl.generation), body);
    lemma_dec_word(bytes, i, sl.generation);
    match sl.value {
        None => {
            lemma_byte_at(bytes, i + 8, 0u8);
        },
        Some(ThingView::Player(p)) => {
            lemma_split(bytes, i + 8, seq![1u8], spec_enc_player(p));
            lemma_byte_at(bytes, i + 8, 1u8);
            lemma_dec_player(bytes, i + 9, p);
        },
        Some(ThingView::Projectile(p)) => {
            lemma_split(bytes, i + 8, seq![2u8], spec_enc_proj(p));
            lemma_byte_at(bytes, i + 8, 2u8);
            lemma_dec_proj(bytes, i + 9, p);
        },
    }
}

/// Names of every player in the sequence are encodable.
pub open spec fn names_fit(things: Seq<SlotView>) -> bool {
    forall|k: int|
        0 <= k < things.len() ==> ((#[trigger] things[k]).value matches Some(ThingView::Player(p))
            ==> vstd::utf8::encode_utf8(p.name).len() <= usize::MAX)
}

#[verifier::rlimit(100)]
proof fn lemma_dec_slots(bytes: Seq<u8>, i: int, things: Seq<SlotView>)
    requires
        0 <= i,
        names_fit(things),
        i + spec_enc_slots(things).len() <= bytes.len(),
        bytes.subrange(i, i + spec_enc_slots(things).len()) == spec_enc_slots(things),
    ensures
        spec_dec_slots(bytes, i, things.len()) == Some((things, i + spec_enc_slots(things).len())),
    decreases things.len(),
{
    if things.len() == 0 {
    } else {
        let rest = things.drop_first();
        lemma_split(bytes, i, spec_enc_slot(things[0]), spec_enc_slots(rest));
        lemma_dec_slot(bytes, i, things[0]);
        assert(names_fit(rest)) by {
            assert(forall|k: int|
                0 <= k < rest.len() ==> rest[k] == things[k + 1]);
        }
        lemma_dec_slots(bytes, i + spec_enc_slot(things[0]).len(), rest);
        assert(seq![things[0]] + rest =~= things);
    }
}

#[verifier::rlimit(100)]
proof fn lemma_dec_event(bytes: Seq<u8>, i: int, e: Event)
    requires
        0 <= i,
        i + spec_enc_event(e).len() <= bytes.len(),
        bytes.subrange(i, i + spec_enc_event(e).len()) == spec_enc_event(e),
    ensures
        spec_dec_event(bytes, i) == Some((e, i + spec_enc_event(e).len())),
{
    reveal(spec_enc_event);
    reveal(spec_dec_event);
    match e {
        Event::PlayerDied { thing_id, pos } => {
            let body = spec_enc_id(thing_id) + spec_enc_vec2(pos);
            lemma_split(bytes, i, seq![0u8], body);
            lemma_byte_at(bytes, i, 0u8);
            lemma_split(bytes, i + 1, spec_enc_id(thing_id), spec_enc_vec2(pos));
            lemma_dec_id(bytes, i + 1, thing_id);
            lemma_dec_vec2(bytes, i + 17, pos);
        },
        Event::ProjectileHit { pos } => {
            lemma_split(bytes, i, seq![1u8], spec_enc_vec2(pos));
            lemma_byte_at(bytes, i, 1u8);
            lemma_dec_vec2(bytes, i + 1, pos);
        },
        Event::ProjectileFired { pos } => {
            lemma_split(bytes, i, seq![2u8], spec_enc_vec2(pos));
            lemma_byte_at(bytes, i, 2u8);
            lemma_dec_vec2(bytes, i + 1, pos);
        },
    }
}

#[verifier::rlimit(100)]
proof fn lemma_dec_events(bytes: Seq<u8>, i: int, events: Seq<Event>)
    requires
        0 <= i,
        i + spec_enc_events(events).len() <= bytes.len(),
        bytes.subrange(i, i + spec_enc_events(events).len()) == spec_enc_events(events),
    ensures
        spec_dec_events(bytes, i, events.len()) == Some(
            (events, i + spec_enc_events(events).len()),
        ),
    decreases events.len(),
{
    if events.len() == 0 {
    } else {
        let rest = events.drop_first();
        lemma_split(bytes, i, spec_enc_event(events[0]), spec_enc_events(rest));
        lemma_dec_event(bytes, i, events[0]);
        lemma_dec_events(bytes, i + spec_enc_event(events[0]).len(), rest);
        assert(seq![events[0]] + rest =~= events);
    }
}

#[verifier::rlimit(100)]
proof fn lemma_dec_points(bytes: Seq<u8>, i: int, pts: Seq<Vec2>)
    requires
        0 <= i,
        i + spec_enc_points(pts).len() <= bytes.len(),
        bytes.subrange(i, i + spec_enc_points(pts).len()) == spec_enc_points(pts),
    ensures
        spec_dec_points(bytes, i, pts.len()) == Some((pts, i + spec_enc_points(pts).len())),
    decreases pts.len(),
{
    if pts.len() == 0 {
    } else {
        let rest = pts.drop_first();
        lemma_split(bytes, i, spec_enc_vec2(pts[0]), spec_enc_points(rest));
        lemma_dec_vec2(bytes, i, pts[0]);
        lemma_dec_points(bytes, i + 16, rest);
        assert(seq![pts[0]] + rest =~= pts);
    }
}

#[verifier::rlimit(100)]
proof fn lemma_dec_polyline(bytes: Seq<u8>, i: int, pts: Seq<Vec2>)
    requires
        0 <= i,
        pts.len() <= usize::MAX,
        i + spec_enc_polyline(pts).len() <= bytes.len(),
        bytes.subrange(i, i + spec_enc_polyline(pts).len()) == spec_enc_polyline(pts),
    ensures
        spec_dec_polyline(bytes, i) == Some((pts, i + spec_enc_polyline(pts).len())),
{
    lemma_split(bytes, i, spec_word(pts.len() as u64), spec_enc_points(pts));
    lemma_dec_word(bytes, i, pts.len() as u64);
    lemma_dec_points(bytes, i + 8, pts);
}

#[verifier::rlimit(100)]
proof fn lemma_dec_polylines(bytes: Seq<u8>, i: int, walls: Seq<Seq<Vec2>>)
    requires
        0 <= i,
        forall|k: int| 0 <= k < walls.len() ==> (#[trigger] walls[k]).len() <= usize::MAX,
        i + spec_enc_polylines(walls).len() <= bytes.len(),
        bytes.subrange(i, i + spec_enc_polylines(walls).len()) == spec_enc_polylines(walls),
    ensures
        spec_dec_polylines(bytes, i, walls.len()) == Some(
            (walls, i + spec_enc_polylines(walls).len()),
        ),
    decreases walls.len(),
{
    if walls.len() == 0 {
    } else {
        let rest = walls.drop_first();
        lemma_split(bytes, i, spec_enc_polyline(walls[0]), spec_enc_polylines(rest));
        lemma_dec_polyline(bytes, i, walls[0]);
        assert(forall|k: int| 0 <= k < rest.len() ==> rest[k] == walls[k + 1]);
        lemma_dec_polylines(bytes, i + spec_enc_polyline(walls[0]).len(), rest);
        assert(seq![walls[0]] + rest =~= walls);
    }
}

#[verifier::rlimit(100)]
proof fn lemma_dec_map(bytes: Seq<u8>, i: int, m: MapView)
    requires
        0 <= i,
        m.polylines.len() <= usize::MAX,
        m.spawn_points.len() <= usize::MAX,
        forall|k: int| 0 <= k < m.polylines.len() ==> (#[trigger] m.polylines[k]).len()
            <= usize::MAX,
        i + spec_enc_map(m).len() <= bytes.len(),
        bytes.subrange(i, i + spec_enc_map(m).len()) == spec_enc_map(m),
    ensures
        spec_dec_map(bytes, i) == Some((m, i + spec_enc_map(m).len())),
{
    reveal(spec_enc_map);
    reveal(spec_dec_map);
    let e3 = spec_enc_points(m.spawn_points);
    let e2 = spec_word(m.spawn_points.len() as u64) + e3;
    let e1 = spec_enc_polylines(m.polylines) + e2;
    lemma_split(bytes, i, spec_word(m.polylines.len() as u64), e1);
    lemma_dec_word(bytes, i, m.polylines.len() as u64);
    let c1 = i + 8;
    lemma_split(bytes, c1, spec_enc_polylines(m.polylines), e2);
    lemma_dec_polylines(bytes, c1, m.polylines);
    let c2 = c1 + spec_enc_polylines(m.polylines).len();
    lemma_split(bytes, c2, spec_word(m.spawn_points.len() as u64), e3);
    lemma_dec_word(bytes, c2, m.spawn_points.len() as u64);
    lemma_dec_points(bytes, c2 + 8, m.spawn_points);
}

/// Decoding chain for a whole state, first half.
#[verifier::rlimit(100)]
proof fn lemma_dec_state_front(bytes: Seq<u8>, i: int, sv: StateView)
    requires
        0 <= i,
        sv.wf_at(CAND_LIMIT),
        i + spec_enc_state(sv).len() <= bytes.len(),
        bytes.subrange(i, i + spec_enc_state(sv).len()) == spec_enc_state(sv),
    ensures
        spec_dec_word(bytes, i) == Some((sv.timestamp, i + 8)),
        spec_dec_zz(bytes, i + 8) == Some((sv.next_spawn as i64, i + 16)),
        spec_dec_zz(bytes, i + 16) == Some((sv.width, i + 24)),
        spec_dec_zz(bytes, i + 24) == Some((sv.height, i + 32)),
        spec_dec_map(bytes, i + 32) == Some((sv.map, i + 32 + spec_enc_map(sv.map).len())),
        bytes.subrange(i + 32 + spec_enc_map(sv.map).len(), i + spec_enc_state(sv).len())
            == spec_word(sv.things.len() as u64) + (spec_enc_slots(sv.things) + (spec_word(
            sv.events.len() as u64,
        ) + spec_enc_events(sv.events))),
{
    reveal(spec_enc_state);
    let e8 = spec_enc_events(sv.events);
    let e7 = spec_word(sv.events.len() as u64) + e8;
    let e6 = spec_enc_slots(sv.things) + e7;
    let e5 = spec_word(sv.things.len() as u64) + e6;
    let e4 = spec_enc_map(sv.map) + e5;
    let e3 = spec_enc_zz(sv.height) + e4;
    let e2 = spec_enc_zz(sv.width) + e3;
    let e1 = spec_enc_zz(sv.next_spawn as i64) + e2;
    lemma_split(bytes, i, spec_word(sv.timestamp), e1);
    lemma_dec_word(bytes, i, sv.timestamp);
    lemma_split(bytes, i + 8, spec_enc_zz(sv.next_spawn as i64), e2);
    lemma_dec_zz(bytes, i + 8, sv.next_spawn as i64);
    lemma_split(bytes, i + 16, spec_enc_zz(sv.width), e3);
    lemma_dec_zz(bytes, i + 16, sv.width);
    lemma_split(bytes, i + 24, spec_enc_zz(sv.height), e4);
    lemma_dec_zz(bytes, i + 24, sv.height);
    lemma_split(bytes, i + 32, spec_enc_map(sv.map), e5);
    lemma_dec_map(bytes, i + 32, sv.map);
}

/// Decoding chain for a whole state, second half.
#[verifier::rlimit(100)]
proof fn lemma_dec_state_back(bytes: Seq<u8>, c: int, sv: StateView, end: int)
    requires
        0 <= c,
        sv.wf_at(CAND_LIMIT),
        end <= bytes.len(),
        end - c == 16 + spec_enc_slots(sv.things).len() + spec_enc_events(sv.events).len(),
        bytes.subrange(c, end) == spec_word(sv.things.len() as u64) + (spec_enc_slots(sv.things)
            + (spec_word(sv.events.len() as u64) + spec_enc_events(sv.events))),
    ensures
        spec_dec_word(bytes, c) == Some((sv.things.len() as u64, c + 8)),
        spec_dec_slots(bytes, c + 8, sv.things.len()) == Some(
            (sv.things, c + 8 + spec_enc_slots(sv.things).len()),
        ),
        spec_dec_word(bytes, c + 8 + spec_enc_slots(sv.things).len()) == Some(
            (sv.events.len() as u64, c + 16 + spec_enc_slots(sv.things).len()),
        ),
        spec_dec_events(bytes, c + 16 + spec_enc_slots(sv.things).len(), sv.events.len()) == Some(
            (sv.events, end),
        ),
{
    let e8 = spec_enc_events(sv.events);
    let e7 = spec_word(sv.events.len() as u64) + e8;
    let e6 = spec_enc_slots(sv.things) + e7;
    lemma_split(bytes, c, spec_word(sv.things.len() as u64), e6);
    lemma_dec_word(bytes, c, sv.things.len() as u64);
    lemma_split(bytes, c + 8, spec_enc_slots(sv.things), e7);
    assert(names_fit(sv.things)) by {
        assert(forall|k: int|
            0 <= k < sv.things.len() ==> match (#[trigger] sv.things[k]).value {
                Some(t) => t.wf_at(CAND_LIMIT),
                None => true,
            });
    }
    lemma_dec_slots(bytes, c + 8, sv.things);
    let c2 = c + 8 + spec_enc_slots(sv.things).len();
    lemma_split(bytes, c2, spec_word(sv.events.len() as u64), e8);
    lemma_dec_word(bytes, c2, sv.events.len() as u64);
    lemma_dec_events(bytes, c2 + 8, sv.events);
}

/// Decoding an encoded world state recovers it exactly. Well-formedness
/// keeps every count and name within the encodable range.
#[verifier::rlimit(100)]
pub proof fn lemma_dec_state(bytes: Seq<u8>, i: int, sv: StateView)
    requires
        0 <= i,
        sv.wf_at(CAND_LIMIT),
        i + spec_enc_state(sv).len() <= bytes.len(),
        bytes.subrange(i, i + spec_enc_state(sv).len()) == spec_enc_state(sv),
    ensures
        spec_dec_state(bytes, i) == Some((sv, i + spec_enc_state(sv).len())),
{
    reveal(spec_enc_state);
    reveal(spec_dec_state);
    lemma_dec_state_front(bytes, i, sv);
    lemma_dec_state_back(bytes, i + 32 + spec_enc_map(sv.map).len(), sv, i + spec_enc_state(
        sv,
    ).len());
}

// ---------------------------------------------------------------------
// Exec encoder
// ---------------------------------------------------------------------
fn enc_zz(out: &mut Vec<u8>, x: i64)
    ensures
        final(out)@ == old(out)@ + spec_enc_zz(x),
{
    let v: u64 = if x >= 0 {
        (x as u64) * 2
    } else {
        let m: u64 = (-(x + 1)) as u64;
        2 * m + 1
    };
    proof {
        assert(v == spec_zigzag(x));
    }
    enc_word(out, v);
}

fn enc_vec2(out: &mut Vec<u8>, p: Vec2)
    ensures
        final(out)@ == old(out)@ + spec_enc_vec2(p),
{
    enc_zz(out, p.x);
    enc_zz(out, p.y);
    proof {
        assert(out@ =~= old(out)@ + spec_enc_vec2(p));
    }
}

fn enc_id(out: &mut Vec<u8>, id: Id)
    ensures
        final(out)@ == old(out)@ + spec_enc_id(id),
{
    enc_word(out, id.slot as u64);
    enc_word(out, id.generation);
    proof {
        assert(out@ =~= old(out)@ + spec_enc_id(id));
    }
}

fn enc_bool(out: &mut Vec<u8>, b: bool)
    ensures
        final(out)@ == old(out)@ + spec_enc_bool(b),
{
    enc_byte(out, if b { 1 } else { 0 });
}

fn enc_solid(out: &mut Vec<u8>, v: Solid)
    ensures
        final(out)@ == old(out)@ + spec_enc_solid(v),
{
    match v {
        Solid::NonSolid => enc_byte(out, 0),
        Solid::Partial => enc_byte(out, 1),
        Solid::Solid => enc_byte(out, 2),
    }
}

fn enc_opt_vec2(out: &mut Vec<u8>, o: &Option<Vec2>)
    ensures
        final(out)@ == old(out)@ + spec_enc_opt_vec2(*o),
{
    match o {
        None => enc_byte(out, 0),
        Some(p) => {
            enc_byte(out, 1);
            enc_vec2(out, *p);
            proof {
                assert(out@ =~= old(out)@ + spec_enc_opt_vec2(*o));
            }
        },
    }
}

fn enc_opt_id(out: &mut Vec<u8>, o: &Option<Id>)
    ensures
        final(out)@ == old(out)@ + spec_enc_opt_id(*o),
{
    match o {
        None => enc_byte(out, 0),
        Some(id) => {
            enc_byte(out, 1);
            enc_id(out, *id);
            proof {
                assert(out@ =~= old(out)@ + spec_enc_opt_id(*o));
            }
        },
    }
}

fn push_bytes(out: &mut Vec<u8>, bytes: &Vec<u8>)
    ensures
        final(out)@ == old(out)@ + bytes@,
{
    let n: usize = bytes.len();
    let mut k: usize = 0;
    while k < n
        invariant
            n == bytes@.len(),
            k <= n,
            out@ == old(out)@ + bytes@.subrange(0, k as int),
        decreases n - k,
    {
        out.push(bytes[k]);
        proof {
            assert(out@ =~= old(out)@ + bytes@.subrange(0, k as int + 1));
        }
        k += 1;
    }
    proof {
        assert(out@ =~= old(out)@ + bytes@);
    }
}

fn enc_name(out: &mut Vec<u8>, name: &String)
    ensures
        final(out)@ == old(out)@ + spec_enc_name(name@),
{
    proof {
        reveal(spec_enc_name);
    }
    let bytes: Vec<u8> = name.as_str().as_bytes_vec();
    enc_word(out, bytes.len() as u64);
    push_bytes(out, &bytes);
    proof {
        assert(out@ =~= old(out)@ + spec_enc_name(name@));
    }
}

#[verifier::rlimit(100)]
#[verifier::spinoff_prover]
fn enc_player(out: &mut Vec<u8>, p: &PlayerThing)
    ensures
        final(out)@ == old(out)@ + spec_enc_player(p@),
{
    proof {
        reveal(spec_enc_player);
    }
    enc_vec2(out, p.pos);
    enc_zz(out, p.radius);
    enc_solid(out, p.solid);
    enc_zz(out, p.hearts as i64);
    enc_zz(out, p.respawn_timer);
    enc_word(out, p.ability_cooldown);
    enc_zz(out, p.speed);
    enc_zz(out, p.deaths as i64);
    enc_zz(out, p.kills as i64);
    enc_bool(out, p.no_interpolation);
    enc_name(out, &p.name);
    enc_opt_vec2(out, &p.spawn_pos);
    proof {
        assert(out@ =~= old(out)@ + spec_enc_player(p@));
    }
}

fn enc_proj(out: &mut Vec<u8>, p: &ProjectileThing)
    ensures
        final(out)@ == old(out)@ + spec_enc_proj(*p),
{
    proof {
        reveal(spec_enc_proj);
    }
    enc_vec2(out, p.pos);
    enc_zz(out, p.radius);
    enc_solid(out, p.solid);
    enc_vec2(out, p.vel);
    enc_id(out, p.owner);
    proof {
        assert(out@ =~= old(out)@ + spec_enc_proj(*p));
    }
}

#[verifier::rlimit(100)]
fn enc_slot(out: &mut Vec<u8>, sl: &Slot<Thing>)
    ensures
        final(out)@ == old(out)@ + spec_enc_slot(view_slot(*sl)),
{
    proof {
        reveal(spec_enc_slot);
    }
    enc_word(out, sl.generation);
    match &sl.value {
        None => enc_byte(out, 0),
        Some(t) => match t {
            Thing::Player(p) => {
                enc_byte(out, 1);
                enc_player(out, p);
            },
            Thing::Projectile(p) => {
                enc_byte(out, 2);
                enc_proj(out, p);
            },
        },
    }
    proof {
        assert(out@ =~= old(out)@ + spec_enc_slot(view_slot(*sl)));
    }
}

fn enc_event(out: &mut Vec<u8>, e: &Event)
    ensures
        final(out)@ == old(out)@ + spec_enc_event(*e),
{
    proof {
        reveal(spec_enc_event);
    }
    match e {
        Event::PlayerDied { thing_id, pos } => {
            enc_byte(out, 0);
            enc_id(out, *thing_id);
            enc_vec2(out, *pos);
        },
        Event::ProjectileHit { pos } => {
            enc_byte(out, 1);
            enc_vec2(out, *pos);
        },
        Event::ProjectileFired { pos } => {
            enc_byte(out, 2);
            enc_vec2(out, *pos);
        },
    }
    proof {
        assert(out@ =~= old(out)@ + spec_enc_event(*e));
    }
}

/// Tail of a slot-sequence encoding from index `j` on.
proof fn lemma_enc_slots_step(things: Seq<SlotView>, j: int)
    requires
        0 <= j < things.len(),
    ensures
        spec_enc_slots(things.skip(j)) == spec_enc_slot(things[j]) + spec_enc_slots(
            things.skip(j + 1),
        ),
{
    assert(things.skip(j).len() > 0);
    assert(things.skip(j)[0] == things[j]);
    assert(things.skip(j).drop_first() =~= things.skip(j + 1));
}

proof fn lemma_enc_events_step(events: Seq<Event>, j: int)
    requires
        0 <= j < events.len(),
    ensures
        spec_enc_events(events.skip(j)) == spec_enc_event(events[j]) + spec_enc_events(
            events.skip(j + 1),
        ),
{
    assert(events.skip(j)[0] == events[j]);
    assert(events.skip(j).drop_first() =~= events.skip(j + 1));
}

proof fn lemma_enc_points_step(pts: Seq<Vec2>, j: int)
    requires
        0 <= j < pts.len(),
    ensures
        spec_enc_points(pts.skip(j)) == spec_enc_vec2(pts[j]) + spec_enc_points(pts.skip(j + 1)),
{
    assert(pts.skip(j)[0] == pts[j]);
    assert(pts.skip(j).drop_first() =~= pts.skip(j + 1));
}

proof fn lemma_enc_polylines_step(walls: Seq<Seq<Vec2>>, j: int)
    requires
        0 <= j < walls.len(),
    ensures
        spec_enc_polylines(walls.skip(j)) == spec_enc_polyline(walls[j]) + spec_enc_polylines(
            walls.skip(j + 1),
        ),
{
    assert(walls.skip(j)[0] == walls[j]);
    assert(walls.skip(j).drop_first() =~= walls.skip(j + 1));
}

#[verifier::rlimit(100)]
fn enc_points(out: &mut Vec<u8>, pts: &Vec<Vec2>)
    ensures
        final(out)@ == old(out)@ + spec_enc_points(pts@),
{
    let n: usize = pts.len();
    proof {
        assert(pts@.skip(0) =~= pts@);
    }
    let mut j: usize = 0;
    while j < n
        invariant
            n == pts@.len(),
            j <= n,
            out@ + spec_enc_points(pts@.skip(j as int)) == old(out)@ + spec_enc_points(pts@),
        decreases n - j,
    {
        proof {
            lemma_enc_points_step(pts@, j as int);
        }
        enc_vec2(out, pts[j]);
        proof {
            assert(out@ + spec_enc_points(pts@.skip(j as int + 1)) =~= old(out)@ + spec_enc_points(
                pts@,
            ));
        }
        j += 1;
    }
    proof {
        assert(pts@.skip(n as int) =~= Seq::<Vec2>::empty());
        assert(out@ =~= old(out)@ + spec_enc_points(pts@));
    }
}

#[verifier::rlimit(100)]
fn enc_map(out: &mut Vec<u8>, map: &GameMap)
    ensures
        final(out)@ == old(out)@ + spec_enc_map(map@),
{
    proof {
        reveal(spec_enc_map);
    }
    let np: usize = map.polylines.len();
    enc_word(out, np as u64);
    let ghost walls = map@.polylines;
    proof {
        assert(walls.skip(0) =~= walls);
    }
    let mut j: usize = 0;
    while j < np
        invariant
            walls == map@.polylines,
            np == walls.len(),
            j <= np,
            out@ + spec_enc_polylines(walls.skip(j as int)) == old(out)@ + spec_word(np as u64)
                + spec_enc_polylines(walls),
        decreases np - j,
    {
        proof {
            lemma_enc_polylines_step(walls, j as int);
        }
        let pts = &map.polylines[j].points;
        enc_word(out, pts.len() as u64);
        enc_points(out, pts);
        proof {
            assert(walls[j as int] == pts@);
            assert(out@ + spec_enc_polylines(walls.skip(j as int + 1)) =~= old(out)@ + spec_word(
                np as u64,
            ) + spec_enc_polylines(walls));
        }
        j += 1;
    }
    proof {
        assert(walls.skip(np as int) =~= Seq::<Seq<Vec2>>::empty());
    }
    enc_word(out, map.spawn_points.len() as u64);
    enc_points(out, &map.spawn_points);
    proof {
        assert(out@ =~= old(out)@ + spec_enc_map(map@));
    }
}

/// Encode a whole state deterministically.
#[verifier::rlimit(100)]
pub fn encode_state(state: &State) -> (out: Vec<u8>)
    ensures
        out@ == spec_enc_state(state@),
{
    proof {
        reveal(spec_enc_state);
    }
    let mut out: Vec<u8> = Vec::new();
    enc_word(&mut out, state.timestamp);
    enc_zz(&mut out, state.next_spawn as i64);
    enc_zz(&mut out, state.width);
    enc_zz(&mut out, state.height);
    enc_map(&mut out, &state.map);
    let n: usize = state.things.slots.len();
    enc_word(&mut out, n as u64);
    let ghost things = state@.things;
    let ghost prefix = out@;
    proof {
        assert(things.skip(0) =~= things);
    }
    let mut j: usize = 0;
    while j < n
        invariant
            things == state@.things,
            n == things.len(),
            n == state.things.slots@.len(),
            j <= n,
            out@ + spec_enc_slots(things.skip(j as int)) == prefix + spec_enc_slots(things),
        decreases n - j,
    {
        proof {
            lemma_enc_slots_step(things, j as int);
        }
        enc_slot(&mut out, &state.things.slots[j]);
        proof {
            assert(things[j as int] == view_slot(state.things.slots@[j as int]));
            assert(out@ + spec_enc_slots(things.skip(j as int + 1)) =~= prefix + spec_enc_slots(
                things,
            ));
        }
        j += 1;
    }
    proof {
        assert(things.skip(n as int) =~= Seq::<SlotView>::empty());
    }
    let ne: usize = state.events.len();
    enc_word(&mut out, ne as u64);
    let ghost prefix2 = out@;
    proof {
        assert(state.events@.skip(0) =~= state.events@);
    }
    let mut k: usize = 0;
    while k < ne
        invariant
            ne == state.events@.len(),
            k <= ne,
            out@ + spec_enc_events(state.events@.skip(k as int)) == prefix2 + spec_enc_events(
                state.events@,
            ),
        decreases ne - k,
    {
        proof {
            lemma_enc_events_step(state.events@, k as int);
        }
        enc_event(&mut out, &state.events[k]);
        proof {
            assert(out@ + spec_enc_events(state.events@.skip(k as int + 1)) =~= prefix2
                + spec_enc_events(state.events@));
        }
        k += 1;
    }
    proof {
        assert(state.events@.skip(ne as int) =~= Seq::<Event>::empty());
        assert(out@ =~= spec_enc_state(state@));
    }
    out
}

// ---------------------------------------------------------------------
// Exec decoder
// ---------------------------------------------------------------------
fn dec_zz(bytes: &Vec<u8>, pos: usize) -> (r: Option<(i64, usize)>)
    ensures
        match r {
            Some((v, p)) => spec_dec_zz(bytes@, pos as int) == Some((v, p as int)),
            None => spec_dec_zz(bytes@, pos as int) is None,
        },
{
    match dec_word(bytes, pos) {
        Some((v, p)) => {
            let x: i64 = if v % 2 == 0 {
                (v / 2) as i64
            } else {
                -((v / 2) as i64) - 1
            };
            proof {
                assert(x == spec_unzigzag(v));
            }
            Some((x, p))
        },
        None => None,
    }
}

fn dec_vec2(bytes: &Vec<u8>, pos: usize) -> (r: Option<(Vec2, usize)>)
    ensures
        match r {
            Some((v, p)) => spec_dec_vec2(bytes@, pos as int) == Some((v, p as int)),
            None => spec_dec_vec2(bytes@, pos as int) is None,
        },
{
    match dec_zz(bytes, pos) {
        Some((x, p1)) => match dec_zz(bytes, p1) {
            Some((y, p2)) => Some((Vec2 { x, y }, p2)),
            None => None,
        },
        None => None,
    }
}

fn dec_id(bytes: &Vec<u8>, pos: usize) -> (r: Option<(Id, usize)>)
    ensures
        match r {
            Some((v, p)) => spec_dec_id(bytes@, pos as int) == Some((v, p as int)),
            None => spec_dec_id(bytes@, pos as int) is None,
        },
{
    match dec_word(bytes, pos) {
        Some((sl, p1)) => {
            if sl <= usize::MAX as u64 {
                match dec_word(bytes, p1) {
                    Some((g, p2)) => Some((Id { slot: sl as usize, generation: g }, p2)),
                    None => None,
                }
            } else {
                None
            }
        },
        None => None,
    }
}

fn dec_bool(bytes: &Vec<u8>, pos: usize) -> (r: Option<(bool, usize)>)
    ensures
        match r {
            Some((v, p)) => spec_dec_bool(bytes@, pos as int) == Some((v, p as int)),
            None => spec_dec_bool(bytes@, pos as int) is None,
        },
{
    match dec_byte(bytes, pos) {
        Some((v, p)) => {
            if v == 0 {
                Some((false, p))
            } else if v == 1 {
                Some((true, p))
            } else {
                None
            }
        },
        None => None,
    }
}

fn dec_solid(bytes: &Vec<u8>, pos: usize) -> (r: Option<(Solid, usize)>)
    ensures
        match r {
            Some((v, p)) => spec_dec_solid(bytes@, pos as int) == Some((v, p as int)),
            None => spec_dec_solid(bytes@, pos as int) is None,
        },
{
    match dec_byte(bytes, pos) {
        Some((v, p)) => {
            if v == 0 {
                Some((Solid::NonSolid, p))
            } else if v == 1 {
                Some((Solid::Partial, p))
            } else if v == 2 {
                Some((Solid::Solid, p))
            } else {
                None
            }
        },
        None => None,
    }
}

fn dec_opt_vec2(bytes: &Vec<u8>, pos: usize) -> (r: Option<(Option<Vec2>, usize)>)
    ensures
        match r {
            Some((v, p)) => spec_dec_opt_vec2(bytes@, pos as int) == Some((v, p as int)),
            None => spec_dec_opt_vec2(bytes@, pos as int) is None,
        },
{
    match dec_byte(bytes, pos) {
        Some((t, p1)) => {
            if t == 0 {
                Some((None, p1))
            } else if t == 1 {
                match dec_vec2(bytes, p1) {
                    Some((v, p2)) => Some((Some(v), p2)),
                    None => None,
                }
            } else {
                None
            }
        },
        None => None,
    }
}

fn dec_opt_id(bytes: &Vec<u8>, pos: usize) -> (r: Option<(Option<Id>, usize)>)
    ensures
        match r {
            Some((v, p)) => spec_dec_opt_id(bytes@, pos as int) == Some((v, p as int)),
            None => spec_dec_opt_id(bytes@, pos as int) is None,
        },
{
    match dec_byte(bytes, pos) {
        Some((t, p1)) => {
            if t == 0 {
                Some((None, p1))
            } else if t == 1 {
                match dec_id(bytes, p1) {
                    Some((v, p2)) => Some((Some(v), p2)),
                    None => None,
                }
            } else {
                None
            }
        },
        None => None,
    }
}

/// Relies on `String::from_utf8`: builds the string those bytes encode,
/// failing exactly on bytes that are not valid UTF-8.
#[verifier::external_body]
fn string_from_utf8(bytes: Vec<u8>) -> (r: Option<String>)
    ensures
        match r {
            Some(s) => vstd::utf8::valid_utf8(bytes@) && s@ == vstd::utf8::decode_utf8(bytes@),
            None => !vstd::utf8::valid_utf8(bytes@),
        },
{
    match String::from_utf8(bytes) {
        Ok(s) => Some(s),
        Err(_) => None,
    }
}

#[verifier::rlimit(50)]
fn dec_name(bytes: &Vec<u8>, pos: usize) -> (r: Option<(String, usize)>)
    ensures
        match r {
            Some((v, p)) => spec_dec_name(bytes@, pos as int) == Some((v@, p as int)),
            None => spec_dec_name(bytes@, pos as int) is None,
        },
{
    proof {
        reveal(spec_dec_name);
    }
    match dec_word(bytes, pos) {
        Some((n, p1)) => {
            if p1 <= bytes.len() && n <= (bytes.len() - p1) as u64 {
                let n_us: usize = n as usize;
                let mut payload: Vec<u8> = Vec::new();
                let mut k: usize = 0;
                while k < n_us
                    invariant
                        bytes@.len() <= usize::MAX,
                        p1 + n_us <= bytes@.len(),
                        k <= n_us,
                        payload@ =~= bytes@.subrange(p1 as int, p1 as int + k as int),
                    decreases n_us - k,
                {
                    assert(p1 + k < bytes@.len());
                    let idx: usize = p1 + k;
                    payload.push(bytes[idx]);
                    proof {
                        assert(payload@ =~= bytes@.subrange(p1 as int, p1 as int + k as int + 1));
                    }
                    k += 1;
                }
                proof {
                    assert(payload@ =~= bytes@.subrange(p1 as int, p1 as int + n as int));
                }
                match string_from_utf8(payload) {
                    Some(sname) => Some((sname, p1 + n_us)),
                    None => None,
                }
            } else {
                None
            }
        },
        None => None,
    }
}

#[verifier::rlimit(100)]
fn dec_player(bytes: &Vec<u8>, pos: usize) -> (r: Option<(PlayerThing, usize)>)
    ensures
        match r {
            Some((v, p)) => spec_dec_player(bytes@, pos as int) == Some((v@, p as int)),
            None => spec_dec_player(bytes@, pos as int) is None,
        },
{
    proof {
        reveal(spec_dec_player);
    }
    let (pos2, i1) = match dec_vec2(bytes, pos) {
        Some(v) => v,
        None => {
            return None;
        },
    };
    let (radius, i2) = match dec_zz(bytes, i1) {
        Some(v) => v,
        None => {
            return None;
        },
    };
    let (solid, i3) = match dec_solid(bytes, i2) {
        Some(v) => v,
        None => {
            return None;
        },
    };
    let (hearts64, i4) = match dec_zz(bytes, i3) {
        Some(v) => v,
        None => {
            return None;
        },
    };
    if hearts64 < i8::MIN as i64 || hearts64 > i8::MAX as i64 {
        return None;
    }
    let (respawn_timer, i5) = match dec_zz(bytes, i4) {
        Some(v) => v,
        None => {
            return None;
        },
    };
    let (ability_cooldown, i6) = match dec_word(bytes, i5) {
        Some(v) => v,
        None => {
            return None;
        },
    };
    let (speed, i7) = match dec_zz(bytes, i6) {
        Some(v) => v,
        None => {
            return None;
        },
    };
    let (deaths64, i8v) = match dec_zz(bytes, i7) {
        Some(v) => v,
        None => {
            return None;
        },
    };
    if deaths64 < i32::MIN as i64 || deaths64 > i32::MAX as i64 {
        return None;
    }
    let (kills64, i9) = match dec_zz(bytes, i8v) {
        Some(v) => v,
        None => {
            return None;
        },
    };
    if kills64 < i32::MIN as i64 || kills64 > i32::MAX as i64 {
        return None;
    }
    let (no_interpolation, i10) = match dec_bool(bytes, i9) {
        Some(v) => v,
        None => {
            return None;
        },
    };
    let (name, i11) = match dec_name(bytes, i10) {
        Some(v) => v,
        None => {
            return None;
        },
    };
    let (spawn_pos, i12) = match dec_opt_vec2(bytes, i11) {
        Some(v) => v,
        None => {
            return None;
        },
    };
    Some(
        (
            PlayerThing {
                pos: pos2,
                radius,
                solid,
                hearts: hearts64 as i8,
                respawn_timer,
                ability_cooldown,
                speed,
                deaths: deaths64 as i32,
                kills: kills64 as i32,
                no_interpolation,
                name,
                spawn_pos,
            },
            i12,
        ),
    )
}

#[verifier::rlimit(50)]
fn dec_proj(bytes: &Vec<u8>, pos: usize) -> (r: Option<(ProjectileThing, usize)>)
    ensures
        match r {
            Some((v, p)) => spec_dec_proj(bytes@, pos as int) == Some((v, p as int)),
            None => spec_dec_proj(bytes@, pos as int) is None,
        },
{
    proof {
        reveal(spec_dec_proj);
    }
    let (pos2, i1) = match dec_vec2(bytes, pos) {
        Some(v) => v,
        None => {
            return None;
        },
    };
    let (radius, i2) = match dec_zz(bytes, i1) {
        Some(v) => v,
        None => {
            return None;
        },
    };
    let (solid, i3) = match dec_solid(bytes, i2) {
        Some(v) => v,
        None => {
            return None;
        },
    };
    let (vel, i4) = match dec_vec2(bytes, i3) {
        Some(v) => v,
        None => {
            return None;
        },
    };
    let (owner, i5) = match dec_id(bytes, i4) {
        Some(v) => v,
        None => {
            return None;
        },
    };
    Some((ProjectileThing { pos: pos2, radius, solid, vel, owner }, i5))
}

#[verifier::rlimit(50)]
fn dec_slot(bytes: &Vec<u8>, pos: usize) -> (r: Option<(Slot<Thing>, usize)>)
    ensures
        match r {
            Some((v, p)) => spec_dec_slot(bytes@, pos as int) == Some((view_slot(v), p as int)),
            None => spec_dec_slot(bytes@, pos as int) is None,
        },
{
    proof {
        reveal(spec_dec_slot);
    }
    let (generation, i1) = match dec_word(bytes, pos) {
        Some(v) => v,
        None => {
            return None;
        },
    };
    let (tag, i2) = match dec_byte(bytes, i1) {
        Some(v) => v,
        None => {
            return None;
        },
    };
    if tag == 0 {
        Some((Slot { generation, value: None }, i2))
    } else if tag == 1 {
        match dec_player(bytes, i2) {
            Some((pl, i3)) => Some((Slot { generation, value: Some(Thing::Player(pl)) }, i3)),
            None => None,
        }
    } else if tag == 2 {
        match dec_proj(bytes, i2) {
            Some((pr, i3)) => Some((Slot { generation, value: Some(Thing::Projectile(pr)) }, i3)),
            None => None,
        }
    } else {
        None
    }
}

#[verifier::rlimit(50)]
fn dec_event(bytes: &Vec<u8>, pos: usize) -> (r: Option<(Event, usize)>)
    ensures
        match r {
            Some((v, p)) => spec_dec_event(bytes@, pos as int) == Some((v, p as int)),
            None => spec_dec_event(bytes@, pos as int) is None,
        },
{
    proof {
        reveal(spec_dec_event);
    }
    let (tag, i1) = match dec_byte(bytes, pos) {
        Some(v) => v,
        None => {
            return None;
        },
    };
    if tag == 0 {
        match dec_id(bytes, i1) {
            Some((thing_id, i2)) => match dec_vec2(bytes, i2) {
                Some((pos2, i3)) => Some((Event::PlayerDied { thing_id, pos: pos2 }, i3)),
                None => None,
            },
            None => None,
        }
    } else if tag == 1 {
        match dec_vec2(bytes, i1) {
            Some((pos2, i2)) => Some((Event::ProjectileHit { pos: pos2 }, i2)),
            None => None,
        }
    } else if tag == 2 {
        match dec_vec2(bytes, i1) {
            Some((pos2, i2)) => Some((Event::ProjectileFired { pos: pos2 }, i2)),
            None => None,
        }
    } else {
        None
    }
}

/// Appending one element then a tail is the same run of elements.
proof fn lemma_push_assoc<T>(a: Seq<T>, x: T, rest: Seq<T>)
    ensures
        a.push(x) + rest == a + (seq![x] + rest),
{
    assert(a.push(x) + rest =~= a + (seq![x] + rest));
}

/// Views of a decoded slot vector.
pub open spec fn slots_view(v: Seq<Slot<Thing>>) -> Seq<SlotView> {
    Seq::new(v.len(), |i: int| view_slot(v[i]))
}

#[verifier::rlimit(50)]
fn dec_slots(bytes: &Vec<u8>, pos: usize, n: usize) -> (r: Option<(Vec<Slot<Thing>>, usize)>)
    ensures
        match r {
            Some((v, p)) => spec_dec_slots(bytes@, pos as int, n as nat) == Some(
                (slots_view(v@), p as int),
            ),
            None => spec_dec_slots(bytes@, pos as int, n as nat) is None,
        },
{
    let mut out: Vec<Slot<Thing>> = Vec::new();
    let mut cur: usize = pos;
    let mut k: usize = 0;
    while k < n
        invariant
            k <= n,
            spec_dec_slots(bytes@, pos as int, n as nat) == (match spec_dec_slots(
                bytes@,
                cur as int,
                (n - k) as nat,
            ) {
                Some((rest, p)) => Some((slots_view(out@) + rest, p)),
                None => None::<(Seq<SlotView>, int)>,
            }),
        decreases n - k,
    {
        match dec_slot(bytes, cur) {
            Some((sl, p1)) => {
                let ghost out_before = out@;
                let ghost sl_snap = sl;
                out.push(sl);
                proof {
                    assert(slots_view(out@) =~= slots_view(out_before).push(view_slot(sl_snap)));
                    match spec_dec_slots(bytes@, p1 as int, (n - k - 1) as nat) {
                        Some((rest0, _p0)) => {
                            lemma_push_assoc(slots_view(out_before), view_slot(sl_snap), rest0);
                        },
                        None => {},
                    }
                }
                cur = p1;
            },
            None => {
                return None;
            },
        }
        k += 1;
    }
    proof {
        assert(spec_dec_slots(bytes@, cur as int, 0) == Some((Seq::<SlotView>::empty(), cur as int)));
        assert(slots_view(out@) + Seq::<SlotView>::empty() =~= slots_view(out@));
    }
    Some((out, cur))
}

#[verifier::rlimit(50)]
fn dec_events(bytes: &Vec<u8>, pos: usize, n: usize) -> (r: Option<(Vec<Event>, usize)>)
    ensures
        match r {
            Some((v, p)) => spec_dec_events(bytes@, pos as int, n as nat) == Some((v@, p as int)),
            None => spec_dec_events(bytes@, pos as int, n as nat) is None,
        },
{
    let mut out: Vec<Event> = Vec::new();
    let mut cur: usize = pos;
    let mut k: usize = 0;
    while k < n
        invariant
            k <= n,
            spec_dec_events(bytes@, pos as int, n as nat) == (match spec_dec_events(
                bytes@,
                cur as int,
                (n - k) as nat,
            ) {
                Some((rest, p)) => Some((out@ + rest, p)),
                None => None::<(Seq<Event>, int)>,
            }),
        decreases n - k,
    {
        match dec_event(bytes, cur) {
            Some((e, p1)) => {
                let ghost out_before = out@;
                out.push(e);
                proof {
                    match spec_dec_events(bytes@, p1 as int, (n - k - 1) as nat) {
                        Some((rest0, _p0)) => {
                            lemma_push_assoc(out_before, e, rest0);
                        },
                        None => {},
                    }
                }
                cur = p1;
            },
            None => {
                return None;
            },
        }
        k += 1;
    }
    proof {
        assert(out@ + Seq::<Event>::empty() =~= out@);
    }
    Some((out, cur))
}

#[verifier::rlimit(50)]
fn dec_points(bytes: &Vec<u8>, pos: usize, n: usize) -> (r: Option<(Vec<Vec2>, usize)>)
    ensures
        match r {
            Some((v, p)) => spec_dec_points(bytes@, pos as int, n as nat) == Some((v@, p as int)),
            None => spec_dec_points(bytes@, pos as int, n as nat) is None,
        },
{
    let mut out: Vec<Vec2> = Vec::new();
    let mut cur: usize = pos;
    let mut k: usize = 0;
    while k < n
        invariant
            k <= n,
            spec_dec_points(bytes@, pos as int, n as nat) == (match spec_dec_points(
                bytes@,
                cur as int,
                (n - k) as nat,
            ) {
                Some((rest, p)) => Some((out@ + rest, p)),
                None => None::<(Seq<Vec2>, int)>,
            }),
        decreases n - k,
    {
        match dec_vec2(bytes, cur) {
            Some((v, p1)) => {
                let ghost out_before = out@;
                out.push(v);
                proof {
                    match spec_dec_points(bytes@, p1 as int, (n - k - 1) as nat) {
                        Some((rest0, _p0)) => {
                            lemma_push_assoc(out_before, v, rest0);
                        },
                        None => {},
                    }
                }
                cur = p1;
            },
            None => {
                return None;
            },
        }
        k += 1;
    }
    proof {
        assert(out@ + Seq::<Vec2>::empty() =~= out@);
    }
    Some((out, cur))
}

/// Views of a decoded polyline vector.
pub open spec fn polylines_view(v: Seq<Polyline>) -> Seq<Seq<Vec2>> {
    Seq::new(v.len(), |i: int| v[i]@)
}

#[verifier::rlimit(50)]
fn dec_polylines(bytes: &Vec<u8>, pos: usize, n: usize) -> (r: Option<(Vec<Polyline>, usize)>)
    ensures
        match r {
            Some((v, p)) => spec_dec_polylines(bytes@, pos as int, n as nat) == Some(
                (polylines_view(v@), p as int),
            ),
            None => spec_dec_polylines(bytes@, pos as int, n as nat) is None,
        },
{
    let mut out: Vec<Polyline> = Vec::new();
    let mut cur: usize = pos;
    let mut k: usize = 0;
    while k < n
        invariant
            k <= n,
            spec_dec_polylines(bytes@, pos as int, n as nat) == (match spec_dec_polylines(
                bytes@,
                cur as int,
                (n - k) as nat,
            ) {
                Some((rest, p)) => Some((polylines_view(out@) + rest, p)),
                None => None::<(Seq<Seq<Vec2>>, int)>,
            }),
        decreases n - k,
    {
        let np: u64 = match dec_word(bytes, cur) {
            Some((v, p1)) => {
                if v <= usize::MAX as u64 {
                    cur = p1;
                    v
                } else {
                    return None;
                }
            },
            None => {
                return None;
            },
        };
        match dec_points(bytes, cur, np as usize) {
            Some((pts, p2)) => {
                let ghost out_before = out@;
                let ghost pts_snap = pts@;
                out.push(Polyline { points: pts });
                proof {
                    assert(polylines_view(out@) =~= polylines_view(out_before).push(pts_snap));
                    match spec_dec_polylines(bytes@, p2 as int, (n - k - 1) as nat) {
                        Some((rest0, _p0)) => {
                            lemma_push_assoc(polylines_view(out_before), pts_snap, rest0);
                        },
                        None => {},
                    }
                }
                cur = p2;
            },
            None => {
                return None;
            },
        }
        k += 1;
    }
    proof {
        assert(polylines_view(out@) + Seq::<Seq<Vec2>>::empty() =~= polylines_view(out@));
    }
    Some((out, cur))
}

#[verifier::rlimit(100)]
fn dec_map(bytes: &Vec<u8>, pos: usize) -> (r: Option<(GameMap, usize)>)
    ensures
        match r {
            Some((v, p)) => spec_dec_map(bytes@, pos as int) == Some((v@, p as int)),
            None => spec_dec_map(bytes@, pos as int) is None,
        },
{
    proof {
        reveal(spec_dec_map);
    }
    let (np, i1) = match dec_word(bytes, pos) {
        Some(v) => v,
        None => {
            return None;
        },
    };
    if np > usize::MAX as u64 {
        return None;
    }
    let (polylines, i2) = match dec_polylines(bytes, i1, np as usize) {
        Some(v) => v,
        None => {
            return None;
        },
    };
    let (ns, i3) = match dec_word(bytes, i2) {
        Some(v) => v,
        None => {
            return None;
        },
    };
    if ns > usize::MAX as u64 {
        return None;
    }
    let (spawn_points, i4) = match dec_points(bytes, i3, ns as usize) {
        Some(v) => v,
        None => {
            return None;
        },
    };
    let m = GameMap { polylines, spawn_points };
    proof {
        assert(m@.polylines =~= polylines_view(m.polylines@));
    }
    Some((m, i4))
}

/// Decode a full state; `None` means the bytes are not exactly one
/// state encoding.
#[verifier::rlimit(100)]
pub fn decode_state(bytes: &Vec<u8>) -> (r: Option<State>)
    ensures
        match r {
            Some(s) => spec_dec_state(bytes@, 0) == Some((s@, bytes@.len() as int)),
            None => !(exists|sv: StateView|
                spec_dec_state(bytes@, 0) == Some((sv, bytes@.len() as int))),
        },
{
    proof {
        reveal(spec_dec_state);
    }
    let (timestamp, i1) = match dec_word(bytes, 0) {
        Some(v) => v,
        None => {
            return None;
        },
    };
    let (next_spawn64, i2) = match dec_zz(bytes, i1) {
        Some(v) => v,
        None => {
            return None;
        },
    };
    if next_spawn64 < i16::MIN as i64 || next_spawn64 > i16::MAX as i64 {
        return None;
    }
    let (width, i3) = match dec_zz(bytes, i2) {
        Some(v) => v,
        None => {
            return None;
        },
    };
    let (height, i4) = match dec_zz(bytes, i3) {
        Some(v) => v,
        None => {
            return None;
        },
    };
    let (map, i5) = match dec_map(bytes, i4) {
        Some(v) => v,
        None => {
            return None;
        },
    };
    let (nt, i6) = match dec_word(bytes, i5) {
        Some(v) => v,
        None => {
            return None;
        },
    };
    if nt > usize::MAX as u64 {
        return None;
    }
    let (slots, i7) = match dec_slots(bytes, i6, nt as usize) {
        Some(v) => v,
        None => {
            return None;
        },
    };
    let (ne, i8v) = match dec_word(bytes, i7) {
        Some(v) => v,
        None => {
            return None;
        },
    };
    if ne > usize::MAX as u64 {
        return None;
    }
    let (events, i9) = match dec_events(bytes, i8v, ne as usize) {
        Some(v) => v,
        None => {
            return None;
        },
    };
    if i9 != bytes.len() {
        return None;
    }
    let st = State {
        timestamp,
        next_spawn: next_spawn64 as i16,
        things: crate::store::Store { slots },
        events,
        map,
        width,
        height,
    };
    proof {
        assert(st@.things =~= slots_view(st.things.slots@));
    }
    Some(st)
}

// ---------------------------------------------------------------------
// The delta layer over whole states
// ---------------------------------------------------------------------
impl State {
    /// The delta that carries this state to a client holding `base`.
    pub fn to_delta(&self, base: &State) -> (delta: Vec<u8>)
        ensures
            delta@ == spec_diff(spec_enc_state(base@), spec_enc_state(self@)),
    {
        let base_bytes = encode_state(base);
        let target_bytes = encode_state(self);
        diff_bytes(&base_bytes, &target_bytes)
    }

    /// Reconstruct the state a delta carries, given the base it was
    /// computed against. `None` exactly when the delta does not apply
    /// against this base's encoding, or the applied bytes are not one
    /// state encoding: the caller must fall back to a full snapshot.
    pub fn from_delta(base: &State, delta: &Vec<u8>) -> (r: Option<State>)
        ensures
            match r {
                Some(s) => {
                    &&& spec_apply(spec_enc_state(base@), delta@) is Some
                    &&& spec_dec_state(spec_apply(spec_enc_state(base@), delta@)->Some_0, 0)
                        == Some(
                        (s@, spec_apply(spec_enc_state(base@), delta@)->Some_0.len() as int),
                    )
                },
                None => spec_apply(spec_enc_state(base@), delta@) is None || !(exists|sv: StateView|
                    spec_dec_state(spec_apply(spec_enc_state(base@), delta@)->Some_0, 0) == Some(
                        (
                            sv,
                            spec_apply(spec_enc_state(base@), delta@)->Some_0.len() as int,
                        ),
                    )),
            },
    {
        let base_bytes = encode_state(base);
        let target_bytes = match apply_bytes(&base_bytes, delta) {
            Some(v) => v,
            None => {
                return None;
            },
        };
        decode_state(&target_bytes)
    }
}

/// Round trip of the synchronization layer: for any two well-formed
/// states, applying the delta computed from `a` to `b` against `a`'s
/// encoding reproduces `b`'s encoding bit for bit, and decoding that
/// encoding reproduces `b` itself.
pub proof fn lemma_state_delta_roundtrip(a: StateView, b: StateView)
    requires
        a.wf(),
        b.wf(),
        spec_enc_state(b).len() <= usize::MAX,
    ensures
        spec_apply(spec_enc_state(a), spec_diff(spec_enc_state(a), spec_enc_state(b))) == Some(
            spec_enc_state(b),
        ),
        spec_dec_state(spec_enc_state(b), 0) == Some((b, spec_enc_state(b).len() as int)),
{
    lemma_diff_apply(spec_enc_state(a), spec_enc_state(b));
    assert(spec_enc_state(b).subrange(0, spec_enc_state(b).len() as int) =~= spec_enc_state(b));
    lemma_dec_state(spec_enc_state(b), 0, b);
}

} // verus!