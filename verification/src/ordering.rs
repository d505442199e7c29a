//! Comparing by keys: fractions compared by value, and sequences of fractions compared
//! lexicographically. Such a comparison is a total preorder, which is what sorting needs.
use vstd::prelude::*;

verus! {

/// The outcome of comparing `a` with `b`: `a` comes before `b`, they tie, or `a` comes after.
#[derive(Clone, Copy, PartialEq, Eq, Structural, Debug)]
pub enum Rank {
    Before,
    Tie,
    After,
}

/// A fraction `numerator / denominator`; it stands for a number when the denominator
/// is positive.
pub type Frac = (int, int);

pub open spec fn flip(r: Rank) -> Rank {
    match r {
        Rank::Before => Rank::After,
        Rank::Tie => Rank::Tie,
        Rank::After => Rank::Before,
    }
}

/// The first outcome, unless it is a tie.
pub open spec fn then(first: Rank, second: Rank) -> Rank {
    if first == Rank::Tie {
        second
    } else {
        first
    }
}

pub open spec fn int_order(a: int, b: int) -> Rank {
    if a < b {
        Rank::Before
    } else if a == b {
        Rank::Tie
    } else {
        Rank::After
    }
}

/// Fractions compared by value.
pub open spec fn frac_order(a: Frac, b: Frac) -> Rank {
    int_order(a.0 * b.1, b.0 * a.1)
}

/// Keys compared position by position; a key that is a beginning of another comes first.
pub open spec fn lex_order(a: Seq<Frac>, b: Seq<Frac>) -> Rank
    decreases a.len(),
{
    if a.len() == 0 && b.len() == 0 {
        Rank::Tie
    } else if a.len() == 0 {
        Rank::Before
    } else if b.len() == 0 {
        Rank::After
    } else {
        then(frac_order(a[0], b[0]), lex_order(a.drop_first(), b.drop_first()))
    }
}

/// Every fraction of the key has a positive denominator.
pub open spec fn valid_key(k: Seq<Frac>) -> bool {
    forall|i: int| 0 <= i < k.len() ==> (#[trigger] k[i]).1 > 0
}

proof fn lemma_frac_trans(a: Frac, b: Frac, c: Frac)
    requires
        a.1 > 0,
        b.1 > 0,
        c.1 > 0,
    ensures
        frac_order(a, b) != Rank::After && frac_order(b, c) != Rank::After ==> frac_order(a, c)
            != Rank::After,
        frac_order(a, b) == Rank::Before && frac_order(b, c) != Rank::After ==> frac_order(a, c)
            == Rank::Before,
        frac_order(a, b) != Rank::After && frac_order(b, c) == Rank::Before ==> frac_order(a, c)
            == Rank::Before,
        frac_order(a, b) == Rank::Tie && frac_order(b, c) == Rank::Tie ==> frac_order(a, c)
            == Rank::Tie,
{
    let (an, ad) = a;
    let (bn, bd) = b;
    let (cn, cd) = c;
    assert(an * bd <= bn * ad && bn * cd <= cn * bd ==> an * cd <= cn * ad) by (nonlinear_arith)
        requires
            ad > 0,
            bd > 0,
            cd > 0,
    ;
    assert(an * bd < bn * ad && bn * cd <= cn * bd ==> an * cd < cn * ad) by (nonlinear_arith)
        requires
            ad > 0,
            bd > 0,
            cd > 0,
    ;
    assert(an * bd <= bn * ad && bn * cd < cn * bd ==> an * cd < cn * ad) by (nonlinear_arith)
        requires
            ad > 0,
            bd > 0,
            cd > 0,
    ;
    assert(an * bd == bn * ad && bn * cd == cn * bd ==> an * cd == cn * ad) by (nonlinear_arith)
        requires
            ad > 0,
            bd > 0,
            cd > 0,
    ;
}

/// Comparing the other way round flips the outcome.
pub proof fn lemma_lex_flip(a: Seq<Frac>, b: Seq<Frac>)
    ensures
        lex_order(b, a) == flip(lex_order(a, b)),
    decreases a.len(),
{
    if a.len() > 0 && b.len() > 0 {
        lemma_lex_flip(a.drop_first(), b.drop_first());
    }
}

/// Coming no later is transitive, and so is coming strictly before.
pub proof fn lemma_lex_trans(a: Seq<Frac>, b: Seq<Frac>, c: Seq<Frac>)
    requires
        valid_key(a),
        valid_key(b),
        valid_key(c),
    ensures
        lex_order(a, b) != Rank::After && lex_order(b, c) != Rank::After ==> lex_order(a, c)
            != Rank::After,
        lex_order(a, b) == Rank::Before && lex_order(b, c) != Rank::After ==> lex_order(a, c)
            == Rank::Before,
        lex_order(a, b) != Rank::After && lex_order(b, c) == Rank::Before ==> lex_order(a, c)
            == Rank::Before,
    decreases a.len(),
{
    if a.len() > 0 && b.len() > 0 && c.len() > 0 {
        assert(valid_key(a.drop_first()));
        assert(valid_key(b.drop_first()));
        assert(valid_key(c.drop_first()));
        assert(a[0].1 > 0 && b[0].1 > 0 && c[0].1 > 0);
        lemma_frac_trans(a[0], b[0], c[0]);
        lemma_lex_trans(a.drop_first(), b.drop_first(), c.drop_first());
    }
}

/// Comparing keys made of two parts, the first ones of equal length, compares the
/// first parts and then, on a tie, the second parts.
pub proof fn lemma_lex_append(a1: Seq<Frac>, b1: Seq<Frac>, a2: Seq<Frac>, b2: Seq<Frac>)
    requires
        a1.len() == a2.len(),
    ensures
        lex_order(a1 + b1, a2 + b2) == then(lex_order(a1, a2), lex_order(b1, b2)),
    decreases a1.len(),
{
    if a1.len() == 0 {
        assert(a1 + b1 =~= b1);
        assert(a2 + b2 =~= b2);
    } else {
        assert((a1 + b1)[0] == a1[0]);
        assert((a2 + b2)[0] == a2[0]);
        assert((a1 + b1).drop_first() =~= a1.drop_first() + b1);
        assert((a2 + b2).drop_first() =~= a2.drop_first() + b2);
        lemma_lex_append(a1.drop_first(), b1, a2.drop_first(), b2);
    }
}

/// Two single fractions compare as the fractions do.
pub proof fn lemma_lex_single(a: Frac, b: Frac)
    ensures
        lex_order(seq![a], seq![b]) == frac_order(a, b),
{
    assert(seq![a].drop_first() =~= Seq::<Frac>::empty());
    assert(seq![b].drop_first() =~= Seq::<Frac>::empty());
    assert(lex_order(Seq::<Frac>::empty(), Seq::<Frac>::empty()) == Rank::Tie);
}

/// Compares two numbers.
pub fn compare_u64(a: u64, b: u64) -> (r: Rank)
    ensures
        r == int_order(a as int, b as int),
{
    if a < b {
        Rank::Before
    } else if a == b {
        Rank::Tie
    } else {
        Rank::After
    }
}

/// Compares two numbers.
pub fn compare_u128(a: u128, b: u128) -> (r: Rank)
    ensures
        r == int_order(a as int, b as int),
{
    if a < b {
        Rank::Before
    } else if a == b {
        Rank::Tie
    } else {
        Rank::After
    }
}

pub fn flip_rank(r: Rank) -> (f: Rank)
    ensures
        f == flip(r),
{
    match r {
        Rank::Before => Rank::After,
        Rank::Tie => Rank::Tie,
        Rank::After => Rank::Before,
    }
}

pub fn then_rank(first: Rank, second: Rank) -> (r: Rank)
    ensures
        r == then(first, second),
{
    match first {
        Rank::Tie => second,
        _ => first,
    }
}

} // verus!
