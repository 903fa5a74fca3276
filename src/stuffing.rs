//! Byte stuffing: the reserved bytes `0xf0..=0xf3` are sent inside a frame as
//! the pair `0xf3, offset`, so that the start and stop flags never occur in it.
use vstd::prelude::*;

use crate::consts::{CSAFE_ESCAPE_BASE, CSAFE_ESCAPE_FLAG, CSAFE_STOP_FLAG};

verus! {

/// Whether a byte must be escaped inside a frame.
pub open spec fn is_reserved(b: u8) -> bool {
    CSAFE_ESCAPE_BASE <= b && b <= CSAFE_ESCAPE_FLAG
}

/// The bytes that stand for `b` inside a frame.
pub open spec fn stuffed(b: u8) -> Seq<u8> {
    if is_reserved(b) {
        seq![CSAFE_ESCAPE_FLAG, (b - CSAFE_ESCAPE_BASE) as u8]
    } else {
        seq![b]
    }
}

/// Every byte of `s` stuffed, in order.
pub open spec fn stuffed_all(s: Seq<u8>) -> Seq<u8>
    decreases s.len(),
{
    if s.len() == 0 {
        Seq::empty()
    } else {
        stuffed(s[0]) + stuffed_all(s.drop_first())
    }
}

/// Undoes stuffing from left to right. A stop flag outside an escape ends the
/// scan and is kept; an escape flag without a valid offset after it is kept as
/// it is and ends the scan.
pub open spec fn unstuffed(s: Seq<u8>) -> Seq<u8>
    decreases s.len(),
{
    if s.len() == 0 {
        Seq::empty()
    } else if s[0] == CSAFE_STOP_FLAG {
        seq![CSAFE_STOP_FLAG]
    } else if s[0] == CSAFE_ESCAPE_FLAG {
        if s.len() >= 2 && s[1] <= 3 {
            seq![(CSAFE_ESCAPE_BASE + s[1]) as u8] + unstuffed(s.skip(2))
        } else {
            seq![CSAFE_ESCAPE_FLAG]
        }
    } else {
        seq![s[0]] + unstuffed(s.drop_first())
    }
}

/// Unstuffing a stuffed byte gives that byte back.
pub proof fn lemma_unstuff_stuff(b: u8)
    ensures
        unstuffed(stuffed(b)) == seq![b],
{
    reveal_with_fuel(unstuffed, 2);
    if is_reserved(b) {
        assert(stuffed(b).skip(2) =~= Seq::<u8>::empty());
    } else {
        assert(stuffed(b).drop_first() =~= Seq::<u8>::empty());
    }
}

/// Unstuffing reads a stuffed run back and goes on with what follows it.
pub proof fn lemma_unstuff_stuffed_prefix(p: Seq<u8>, rest: Seq<u8>)
    ensures
        unstuffed(stuffed_all(p) + rest) == p + unstuffed(rest),
    decreases p.len(),
{
    if p.len() == 0 {
        assert(stuffed_all(p) + rest =~= rest);
        assert(p + unstuffed(rest) =~= unstuffed(rest));
    } else {
        let s = stuffed_all(p) + rest;
        let tail = stuffed_all(p.drop_first()) + rest;
        lemma_unstuff_stuffed_prefix(p.drop_first(), rest);
        if is_reserved(p[0]) {
            assert(s =~= seq![CSAFE_ESCAPE_FLAG, (p[0] - CSAFE_ESCAPE_BASE) as u8] + tail);
            assert(s.skip(2) =~= tail);
        } else {
            assert(s =~= seq![p[0]] + tail);
            assert(s.drop_first() =~= tail);
        }
        assert(p =~= seq![p[0]] + p.drop_first());
    }
}

/// Appending a byte to a run appends its stuffed form.
pub proof fn lemma_stuffed_all_push(s: Seq<u8>, b: u8)
    ensures
        stuffed_all(s.push(b)) == stuffed_all(s) + stuffed(b),
    decreases s.len(),
{
    reveal_with_fuel(stuffed_all, 2);
    if s.len() == 0 {
        assert(s.push(b).drop_first() =~= Seq::<u8>::empty());
        assert(stuffed(b) + Seq::<u8>::empty() =~= stuffed(b));
    } else {
        assert(s.push(b).drop_first() =~= s.drop_first().push(b));
        lemma_stuffed_all_push(s.drop_first(), b);
        assert(stuffed_all(s.push(b)) =~= stuffed(s[0]) + (stuffed_all(s.drop_first()) + stuffed(b)));
    }
}

/// Stuffing distributes over concatenation.
pub proof fn lemma_stuffed_all_append(a: Seq<u8>, b: Seq<u8>)
    ensures
        stuffed_all(a + b) == stuffed_all(a) + stuffed_all(b),
    decreases a.len(),
{
    if a.len() == 0 {
        assert(a + b =~= b);
        assert(stuffed_all(a) + stuffed_all(b) =~= stuffed_all(b));
    } else {
        assert((a + b).drop_first() =~= a.drop_first() + b);
        lemma_stuffed_all_append(a.drop_first(), b);
        assert(stuffed_all(a + b) =~= stuffed(a[0]) + (stuffed_all(a.drop_first()) + stuffed_all(b)));
    }
}

/// The bytes that stand for `x` inside a frame.
pub fn stuff_bytes(x: u8) -> (r: Vec<u8>)
    ensures
        r@ == stuffed(x),
{
    if CSAFE_ESCAPE_BASE <= x && x <= CSAFE_ESCAPE_FLAG {
        let offset: u8 = x - CSAFE_ESCAPE_BASE;
        vec![CSAFE_ESCAPE_FLAG, offset]
    } else {
        vec![x]
    }
}

/// Appends the stuffed form of `x` to `out`.
pub fn push_stuffed(out: &mut Vec<u8>, x: u8)
    ensures
        final(out)@ == old(out)@ + stuffed(x),
{
    let mut s = stuff_bytes(x);
    out.append(&mut s);
}

/// Undoes stuffing on `v`, up to and including the first stop flag.
pub fn unstuff(v: &[u8]) -> (r: Vec<u8>)
    ensures
        r@ == unstuffed(v@),
{
    let mut result: Vec<u8> = Vec::new();
    let mut i: usize = 0;
    assert(v@.skip(0) =~= v@);
    assert(result@ + unstuffed(v@) =~= unstuffed(v@));
    while i < v.len()
        invariant
            i <= v@.len(),
            unstuffed(v@) == result@ + unstuffed(v@.skip(i as int)),
        decreases v@.len() - i,
    {
        let x = v[i];
        let ghost s = v@.skip(i as int);
        if x == CSAFE_STOP_FLAG {
            result.push(CSAFE_STOP_FLAG);
            return result;
        } else if x == CSAFE_ESCAPE_FLAG {
            if i + 1 < v.len() && v[i + 1] <= 3 {
                result.push(CSAFE_ESCAPE_BASE + v[i + 1]);
                assert(s.skip(2) =~= v@.skip(i + 2));
                i = i + 2;
            } else {
                result.push(CSAFE_ESCAPE_FLAG);
                return result;
            }
        } else {
            result.push(x);
            assert(s.drop_first() =~= v@.skip(i + 1));
            i = i + 1;
        }
    }
    assert(v@.skip(i as int) =~= Seq::<u8>::empty());
    result
}

} // verus!
