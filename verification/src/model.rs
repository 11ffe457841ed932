//! Mathematical model of longest-common-prefix computation.
//!
//! `lcp_len` and `lcp` describe the pairwise operation over character
//! sequences; `fold_lcp` and `collection_lcp` describe the left fold of
//! the pairwise operation over an ordered collection. The proof functions
//! state the algebraic laws these operations obey.

use vstd::prelude::*;

verus! {

/// The length of the longest common prefix of `a` and `b`: the number of
/// leading positions at which the two sequences agree.
pub open spec fn lcp_len(a: Seq<char>, b: Seq<char>) -> nat
    decreases a.len(),
{
    if a.len() == 0 || b.len() == 0 || a[0] != b[0] {
        0
    } else {
        lcp_len(a.drop_first(), b.drop_first()) + 1
    }
}

/// The longest common prefix of `a` and `b`, as a sequence.
pub open spec fn lcp(a: Seq<char>, b: Seq<char>) -> Seq<char> {
    a.take(lcp_len(a, b) as int)
}

/// `lcp_len` is bounded by both lengths, the sequences agree on every
/// position below it, and it is maximal: if it stops short of both
/// sequences, the characters just past it differ.
pub proof fn lemma_lcp_len_props(a: Seq<char>, b: Seq<char>)
    ensures
        lcp_len(a, b) <= a.len(),
        lcp_len(a, b) <= b.len(),
        forall|i: int| 0 <= i < lcp_len(a, b) ==> a[i] == b[i],
        lcp_len(a, b) < a.len() && lcp_len(a, b) < b.len() ==> a[lcp_len(a, b) as int] != b[lcp_len(a, b) as int],
    decreases a.len(),
{
    if a.len() == 0 || b.len() == 0 || a[0] != b[0] {
    } else {
        lemma_lcp_len_props(a.drop_first(), b.drop_first());
        let k = lcp_len(a.drop_first(), b.drop_first()) as int;
        assert forall|i: int| 0 <= i < lcp_len(a, b) implies a[i] == b[i] by {
            if i > 0 {
                assert(a.drop_first()[i - 1] == a[i]);
                assert(b.drop_first()[i - 1] == b[i]);
            }
        }
        if k + 1 < a.len() && k + 1 < b.len() {
            assert(a.drop_first()[k] == a[k + 1]);
            assert(b.drop_first()[k] == b[k + 1]);
        }
    }
}

/// `lcp_len` is the unique `k` such that the sequences agree below `k`
/// and, unless `k` exhausts one of them, differ at `k`.
pub proof fn lemma_lcp_len_is(a: Seq<char>, b: Seq<char>, k: int)
    requires
        0 <= k <= a.len(),
        k <= b.len(),
        forall|i: int| 0 <= i < k ==> a[i] == b[i],
        k < a.len() && k < b.len() ==> a[k] != b[k],
    ensures
        lcp_len(a, b) == k,
    decreases a.len(),
{
    if k == 0 {
    } else {
        assert(a[0] == b[0]);
        assert forall|i: int| 0 <= i < k - 1 implies a.drop_first()[i] == b.drop_first()[i] by {
            assert(a.drop_first()[i] == a[i + 1]);
            assert(b.drop_first()[i] == b[i + 1]);
        }
        if k - 1 < a.drop_first().len() && k - 1 < b.drop_first().len() {
            assert(a.drop_first()[k - 1] == a[k]);
            assert(b.drop_first()[k - 1] == b[k]);
        }
        lemma_lcp_len_is(a.drop_first(), b.drop_first(), k - 1);
    }
}

/// Identity: the longest common prefix of a sequence with itself is the
/// whole sequence.
pub proof fn lemma_lcp_identity(s: Seq<char>)
    ensures
        lcp(s, s) == s,
{
    lemma_lcp_len_is(s, s, s.len() as int);
    assert(lcp(s, s) =~= s);
}

/// Commutativity: the longest common prefix has the same content and
/// length whichever way round its arguments come.
pub proof fn lemma_lcp_commutative(a: Seq<char>, b: Seq<char>)
    ensures
        lcp(a, b) == lcp(b, a),
        lcp_len(a, b) == lcp_len(b, a),
{
    lemma_lcp_len_props(a, b);
    let k = lcp_len(a, b) as int;
    assert forall|i: int| 0 <= i < k implies b[i] == a[i] by {
        assert(a[i] == b[i]);
    }
    lemma_lcp_len_is(b, a, k);
    assert(lcp(a, b) =~= lcp(b, a));
}

/// Boundedness: the longest common prefix is no longer than either input.
pub proof fn lemma_lcp_bounded(a: Seq<char>, b: Seq<char>)
    ensures
        lcp(a, b).len() <= a.len(),
        lcp(a, b).len() <= b.len(),
        lcp(a, b).len() == lcp_len(a, b),
{
    lemma_lcp_len_props(a, b);
}

/// Prefix property: the longest common prefix is a true prefix of both
/// inputs, character for character, and agrees with each of them on every
/// position below its length.
pub proof fn lemma_lcp_is_prefix(a: Seq<char>, b: Seq<char>)
    ensures
        lcp(a, b).is_prefix_of(a),
        lcp(a, b).is_prefix_of(b),
        lcp(a, b) == a.take(lcp_len(a, b) as int),
        lcp(a, b) == b.take(lcp_len(a, b) as int),
        forall|i: int| 0 <= i < lcp_len(a, b) ==> lcp(a, b)[i] == a[i] && lcp(a, b)[i] == b[i],
{
    lemma_lcp_len_props(a, b);
    assert(lcp(a, b) =~= b.take(lcp_len(a, b) as int));
    assert(lcp(a, b) =~= a.subrange(0, lcp(a, b).len() as int));
    assert(lcp(a, b) =~= b.subrange(0, lcp(a, b).len() as int));
}

/// Empty-dominance: the longest common prefix with an empty sequence on
/// either side is empty.
pub proof fn lemma_lcp_empty(a: Seq<char>)
    ensures
        lcp(a, Seq::<char>::empty()) == Seq::<char>::empty(),
        lcp(Seq::<char>::empty(), a) == Seq::<char>::empty(),
{
    assert(lcp(a, Seq::<char>::empty()) =~= Seq::<char>::empty());
    assert(lcp(Seq::<char>::empty(), a) =~= Seq::<char>::empty());
}

/// The running prefix after folding the pairwise operation, starting from
/// `acc`, over every element of `rest` in order. No short-circuit appears
/// here: the fold always consumes the whole of `rest`.
pub open spec fn fold_lcp(acc: Seq<char>, rest: Seq<Seq<char>>) -> Seq<char>
    decreases rest.len(),
{
    if rest.len() == 0 {
        acc
    } else {
        fold_lcp(lcp(acc, rest[0]), rest.drop_first())
    }
}

/// The longest prefix shared by every element of `items`: absent when
/// `items` is empty, otherwise the left fold of the pairwise operation
/// seeded with the first element.
pub open spec fn collection_lcp(items: Seq<Seq<char>>) -> Option<Seq<char>> {
    if items.len() == 0 {
        None
    } else {
        Some(fold_lcp(items[0], items.drop_first()))
    }
}

/// The character sequences viewed by a sequence of string slices.
pub open spec fn seq_views(items: Seq<&str>) -> Seq<Seq<char>> {
    items.map_values(|s: &str| s@)
}

/// The character sequence viewed by an optional string slice.
pub open spec fn opt_view(r: Option<&str>) -> Option<Seq<char>> {
    match r {
        None => None,
        Some(s) => Some(s@),
    }
}

/// Folding one more element onto the back equals applying the pairwise
/// operation to the fold of the front.
pub proof fn lemma_fold_lcp_snoc(acc: Seq<char>, rest: Seq<Seq<char>>, x: Seq<char>)
    ensures
        fold_lcp(acc, rest.push(x)) == lcp(fold_lcp(acc, rest), x),
    decreases rest.len(),
{
    reveal_with_fuel(fold_lcp, 3);
    if rest.len() == 0 {
        assert(rest.push(x)[0] == x);
        assert(rest.push(x).drop_first() =~= Seq::<Seq<char>>::empty());
    } else {
        assert(rest.push(x)[0] == rest[0]);
        assert(rest.push(x).drop_first() =~= rest.drop_first().push(x));
        lemma_fold_lcp_snoc(lcp(acc, rest[0]), rest.drop_first(), x);
    }
}

/// The fold splits over concatenation of the element sequence.
pub proof fn lemma_fold_lcp_app(acc: Seq<char>, s1: Seq<Seq<char>>, s2: Seq<Seq<char>>)
    ensures
        fold_lcp(acc, s1 + s2) == fold_lcp(fold_lcp(acc, s1), s2),
    decreases s1.len(),
{
    if s1.len() == 0 {
        assert(s1 + s2 =~= s2);
    } else {
        assert((s1 + s2)[0] == s1[0]);
        assert((s1 + s2).drop_first() =~= s1.drop_first() + s2);
        lemma_fold_lcp_app(lcp(acc, s1[0]), s1.drop_first(), s2);
    }
}

proof fn lemma_prefix_transitive(p: Seq<char>, q: Seq<char>, r: Seq<char>)
    requires
        p.is_prefix_of(q),
        q.is_prefix_of(r),
    ensures
        p.is_prefix_of(r),
{
    assert(p =~= r.subrange(0, p.len() as int));
}

/// The running prefix after a fold is a true prefix of the seed and of
/// every element folded in.
pub proof fn lemma_fold_lcp_is_prefix(acc: Seq<char>, rest: Seq<Seq<char>>)
    ensures
        fold_lcp(acc, rest).is_prefix_of(acc),
        forall|i: int| 0 <= i < rest.len() ==> fold_lcp(acc, rest).is_prefix_of(rest[i]),
    decreases rest.len(),
{
    if rest.len() == 0 {
        assert(acc =~= acc.subrange(0, acc.len() as int));
    } else {
        let step = lcp(acc, rest[0]);
        lemma_lcp_is_prefix(acc, rest[0]);
        lemma_fold_lcp_is_prefix(step, rest.drop_first());
        lemma_prefix_transitive(fold_lcp(step, rest.drop_first()), step, acc);
        lemma_prefix_transitive(fold_lcp(step, rest.drop_first()), step, rest[0]);
        assert forall|i: int| 0 <= i < rest.len() implies fold_lcp(acc, rest).is_prefix_of(
            rest[i],
        ) by {
            if i > 0 {
                assert(rest.drop_first()[i - 1] == rest[i]);
            }
        }
    }
}

/// Once the running prefix is empty, folding further elements changes
/// nothing: stopping early at an empty running prefix returns the same
/// value the full fold would.
pub proof fn lemma_fold_lcp_empty_acc(acc: Seq<char>, rest: Seq<Seq<char>>)
    requires
        acc.len() == 0,
    ensures
        fold_lcp(acc, rest) == acc,
    decreases rest.len(),
{
    if rest.len() > 0 {
        assert(lcp(acc, rest[0]) =~= acc);
        lemma_fold_lcp_empty_acc(lcp(acc, rest[0]), rest.drop_first());
    }
}

} // verus!
