//! Lexicographic byte order, the one total order every sorted collection
//! in the kernel is kept in (it is the order `BTreeMap` gives `String` and
//! `[u8; 32]` keys).

use vstd::prelude::*;

verus! {

/// Three-way lexicographic comparison of byte strings: -1, 0 or 1.
#[verifier::opaque]
pub open spec fn lex_order(a: Seq<u8>, b: Seq<u8>) -> int
    decreases a.len(),
{
    if a.len() == 0 {
        if b.len() == 0 {
            0
        } else {
            -1
        }
    } else if b.len() == 0 {
        1
    } else if a[0] < b[0] {
        -1
    } else if a[0] > b[0] {
        1
    } else {
        lex_order(a.drop_first(), b.drop_first())
    }
}

pub open spec fn lex_lt(a: Seq<u8>, b: Seq<u8>) -> bool {
    lex_order(a, b) < 0
}

/// One-byte strings compare as their bytes.
pub proof fn lemma_lex_order_single(a: u8, b: u8)
    ensures
        lex_order(seq![a], seq![b]) == if a < b {
            -1int
        } else if a == b {
            0int
        } else {
            1int
        },
{
    reveal(lex_order);
    assert(seq![a].drop_first() =~= Seq::<u8>::empty());
    assert(seq![b].drop_first() =~= Seq::<u8>::empty());
    reveal_with_fuel(lex_order, 2);
}

pub proof fn lemma_lex_order_range(a: Seq<u8>, b: Seq<u8>)
    ensures
        -1 <= lex_order(a, b) <= 1,
    decreases a.len(),
{
    reveal(lex_order);
    if a.len() > 0 && b.len() > 0 && a[0] == b[0] {
        lemma_lex_order_range(a.drop_first(), b.drop_first());
    }
}

/// Comparison is antisymmetric, and it is zero exactly on equal strings.
pub proof fn lemma_lex_order_antisym(a: Seq<u8>, b: Seq<u8>)
    ensures
        lex_order(a, b) == -lex_order(b, a),
        (lex_order(a, b) == 0) == (a == b),
    decreases a.len(),
{
    reveal(lex_order);
    if a.len() > 0 && b.len() > 0 && a[0] == b[0] {
        lemma_lex_order_antisym(a.drop_first(), b.drop_first());
        if a.drop_first() == b.drop_first() {
            assert(a =~= b) by {
                assert forall|i: int| 0 <= i < a.len() implies a[i] == b[i] by {
                    if i > 0 {
                        assert(a[i] == a.drop_first()[i - 1]);
                        assert(b[i] == b.drop_first()[i - 1]);
                    }
                }
            }
        }
        if a == b {
            assert(a.drop_first() =~= b.drop_first());
        }
    } else if a.len() == 0 && b.len() == 0 {
        assert(a =~= b);
    } else if a.len() == 0 || b.len() == 0 {
        assert(a.len() != b.len());
    } else {
        assert(a[0] != b[0]);
    }
}

/// Strict lexicographic order is transitive.
pub proof fn lemma_lex_lt_trans(a: Seq<u8>, b: Seq<u8>, c: Seq<u8>)
    requires
        lex_lt(a, b),
        lex_lt(b, c),
    ensures
        lex_lt(a, c),
    decreases a.len(),
{
    reveal(lex_order);
    if a.len() > 0 && b.len() > 0 && c.len() > 0 && a[0] == b[0] && b[0] == c[0] {
        lemma_lex_lt_trans(a.drop_first(), b.drop_first(), c.drop_first());
    }
}

pub proof fn lemma_lex_order_refl(a: Seq<u8>)
    ensures
        lex_order(a, a) == 0,
{
    lemma_lex_order_antisym(a, a);
}

proof fn lemma_skip_drop<T>(s: Seq<T>, i: int)
    requires
        0 <= i < s.len(),
    ensures
        s.skip(i).drop_first() =~= s.skip(i + 1),
        s.skip(i)[0] == s[i],
{
}

/// Executable lexicographic comparison.
pub fn compare_bytes(a: &[u8], b: &[u8]) -> (r: i8)
    ensures
        r as int == lex_order(a@, b@),
{
    let mut i: usize = 0;
    assert(a@.skip(0) =~= a@);
    assert(b@.skip(0) =~= b@);
    while i < a.len() && i < b.len()
        invariant
            i <= a@.len(),
            i <= b@.len(),
            lex_order(a@, b@) == lex_order(a@.skip(i as int), b@.skip(i as int)),
        decreases a@.len() - i,
    {
        proof {
            reveal(lex_order);
            lemma_skip_drop(a@, i as int);
            lemma_skip_drop(b@, i as int);
        }
        if a[i] < b[i] {
            return -1;
        }
        if a[i] > b[i] {
            return 1;
        }
        i = i + 1;
    }
    proof {
        reveal(lex_order);
    }
    if i < a.len() {
        1
    } else if i < b.len() {
        -1
    } else {
        0
    }
}

/// Executable byte-string equality.
pub fn bytes_equal(a: &[u8], b: &[u8]) -> (r: bool)
    ensures
        r == (a@ == b@),
{
    let c = compare_bytes(a, b);
    proof {
        lemma_lex_order_antisym(a@, b@);
    }
    c == 0
}

} // verus!
