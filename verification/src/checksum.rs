//! The protocol's rolling two-byte checksum: two 8-bit accumulators, where
//! each byte is added to the first accumulator and the first accumulator is
//! then added to the second, both modulo 256.

use vstd::prelude::*;
use vstd::arithmetic::div_mod::lemma_add_mod_noop;
use vstd::arithmetic::div_mod::lemma_small_mod;
use vstd::arithmetic::div_mod::lemma_mod_sub_multiples_vanish;

verus! {

/// One 8-bit accumulation step: addition modulo 256.
pub open spec fn ck_add(a: u8, x: u8) -> u8 {
    ((a + x) % 256) as u8
}

/// Folding one byte into the accumulator pair `(ck_a, ck_b)`.
pub open spec fn ck_step(p: (u8, u8), x: u8) -> (u8, u8) {
    (ck_add(p.0, x), ck_add(p.1, ck_add(p.0, x)))
}

/// Folding a whole byte sequence into the accumulator pair, in order.
pub open spec fn ck_fold(p: (u8, u8), s: Seq<u8>) -> (u8, u8)
    decreases s.len(),
{
    if s.len() == 0 {
        p
    } else {
        ck_step(ck_fold(p, s.drop_last()), s.last())
    }
}

/// The checksum of a byte sequence, folded from zeroed accumulators.
pub open spec fn checksum_of(s: Seq<u8>) -> (u8, u8) {
    ck_fold((0u8, 0u8), s)
}

/// Folding is one step at a time: appending a byte folds it last.
pub proof fn lemma_ck_fold_push(p: (u8, u8), s: Seq<u8>, x: u8)
    ensures
        ck_fold(p, s.push(x)) == ck_step(ck_fold(p, s), x),
{
    assert(s.push(x).drop_last() =~= s);
}

/// Folding a concatenation folds the two parts in turn.
pub proof fn lemma_ck_fold_concat(p: (u8, u8), s1: Seq<u8>, s2: Seq<u8>)
    ensures
        ck_fold(p, s1 + s2) == ck_fold(ck_fold(p, s1), s2),
    decreases s2.len(),
{
    if s2.len() == 0 {
        assert(s1 + s2 =~= s1);
    } else {
        lemma_ck_fold_concat(p, s1, s2.drop_last());
        assert((s1 + s2).drop_last() =~= s1 + s2.drop_last());
        assert((s1 + s2).last() == s2.last());
    }
}

/// The plain integer sum of a byte sequence.
pub open spec fn byte_sum(s: Seq<u8>) -> int
    decreases s.len(),
{
    if s.len() == 0 {
        0
    } else {
        byte_sum(s.drop_last()) + s.last()
    }
}

/// The first accumulator is the byte sum modulo 256, shifted by its
/// starting value.
pub proof fn lemma_ck_a_is_sum(p: (u8, u8), s: Seq<u8>)
    ensures
        ck_fold(p, s).0 == (p.0 + byte_sum(s)) % 256,
    decreases s.len(),
{
    if s.len() == 0 {
        lemma_small_mod(p.0 as nat, 256);
    } else {
        lemma_ck_a_is_sum(p, s.drop_last());
        let a = ck_fold(p, s.drop_last()).0;
        let x = s.last();
        assert(ck_fold(p, s).0 == (a + x) % 256);
        lemma_add_mod_noop(p.0 + byte_sum(s.drop_last()), x as int, 256);
        lemma_small_mod(x as nat, 256);
    }
}

/// Replacing one byte moves the byte sum by exactly the difference.
pub proof fn lemma_byte_sum_update(s: Seq<u8>, j: int, b: u8)
    requires
        0 <= j < s.len(),
    ensures
        byte_sum(s.update(j, b)) == byte_sum(s) - s[j] + b,
    decreases s.len(),
{
    let t = s.update(j, b);
    if j == s.len() - 1 {
        assert(t.drop_last() =~= s.drop_last());
    } else {
        assert(t.drop_last() =~= s.drop_last().update(j, b));
        lemma_byte_sum_update(s.drop_last(), j, b);
    }
}

/// Two integers whose distance is strictly between 0 and 256 have distinct
/// residues modulo 256.
proof fn lemma_mod_shift_nonzero(x: int, d: int)
    requires
        0 < d < 256,
    ensures
        (x + d) % 256 != x % 256,
{
    let r = x % 256;
    lemma_add_mod_noop(x, d, 256);
    lemma_small_mod(d as nat, 256);
    assert((x + d) % 256 == (r + d) % 256);
    if r + d < 256 {
        lemma_small_mod((r + d) as nat, 256);
    } else {
        lemma_mod_sub_multiples_vanish(r + d, 256);
        lemma_small_mod((r + d - 256) as nat, 256);
    }
}

/// Replacing one byte of a sequence with a different byte changes the first
/// checksum accumulator: the corruption cannot go unnoticed.
pub proof fn lemma_checksum_detects_change(p: (u8, u8), s: Seq<u8>, j: int, b: u8)
    requires
        0 <= j < s.len(),
        b != s[j],
    ensures
        ck_fold(p, s.update(j, b)).0 != ck_fold(p, s).0,
{
    lemma_ck_a_is_sum(p, s);
    lemma_ck_a_is_sum(p, s.update(j, b));
    lemma_byte_sum_update(s, j, b);
    let x = p.0 + byte_sum(s);
    let d = b - s[j];
    if d > 0 {
        lemma_mod_shift_nonzero(x, d);
    } else {
        lemma_mod_shift_nonzero(x + d, -d);
    }
}

} // verus!
