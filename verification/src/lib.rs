//! Find the longest common prefix in a string.
//!
//! There are only two publicly exported methods:
//! [`longest_common_prefix`] and [`longest_common_prefix_in`].
//! Both compare by decoded character, never by raw byte, and both return
//! borrowed views into their inputs: no allocation takes place.

pub mod model;

use vstd::prelude::*;
use vstd::string::StrSliceExecFns;

use crate::model::{
    collection_lcp, fold_lcp, lcp, lemma_fold_lcp_app, lemma_fold_lcp_empty_acc,
    lemma_fold_lcp_snoc, lemma_lcp_len_is, opt_view, seq_views,
};

verus! {

/// Find the longest common prefix between two strings.
///
/// This returns a [`str`], which can be the empty string `""` if
/// there is no common prefix. The result borrows from one of the inputs.
pub fn longest_common_prefix<'a>(a: &'a str, b: &'a str) -> (r: &'a str)
    ensures
        r@ == lcp(a@, b@),
{
    let a_len = a.unicode_len();
    let b_len = b.unicode_len();
    let n = if a_len < b_len {
        a_len
    } else {
        b_len
    };
    let mut i: usize = 0;
    while i < n
        invariant
            0 <= i <= n,
            a_len == a@.len(),
            b_len == b@.len(),
            n == if a_len < b_len {
                a_len
            } else {
                b_len
            },
            forall|j: int| 0 <= j < i ==> a@[j] == b@[j],
        decreases n - i,
    {
        let ac = a.get_char(i);
        let bc = b.get_char(i);
        if ac != bc {
            proof {
                lemma_lcp_len_is(a@, b@, i as int);
            }
            let r = a.substring_char(0, i);
            proof {
                assert(r@ =~= lcp(a@, b@));
            }
            return r;
        }
        i = i + 1;
    }
    proof {
        lemma_lcp_len_is(a@, b@, n as int);
    }
    if a_len < b_len {
        proof {
            assert(a@ =~= lcp(a@, b@));
        }
        a
    } else {
        proof {
            assert(b@ =~= lcp(a@, b@));
        }
        b
    }
}

/// Find the longest prefix shared by every string in a slice.
///
/// This returns [`None`] if the passed in slice is empty. Otherwise,
/// it returns a [`str`] (including the empty string `""` if there is
/// no common prefix), borrowed from one of the elements. Once the running
/// prefix becomes empty no further elements are scanned; the result is
/// the same as that of the full left fold.
pub fn longest_common_prefix_in<'a>(items: &[&'a str]) -> (r: Option<&'a str>)
    ensures
        opt_view(r) == collection_lcp(seq_views(items@)),
        r is Some <==> items@.len() > 0,
{
    if items.len() == 0 {
        return None;
    }
    let mut acc: &'a str = items[0];
    let mut i: usize = 1;
    proof {
        assert(seq_views(items@.subrange(1, 1)) =~= Seq::<Seq<char>>::empty());
    }
    while i < items.len()
        invariant
            1 <= i <= items@.len(),
            acc@ == fold_lcp(items@[0]@, seq_views(items@.subrange(1, i as int))),
        decreases items@.len() - i,
    {
        acc = longest_common_prefix(acc, items[i]);
        proof {
            lemma_fold_lcp_snoc(
                items@[0]@,
                seq_views(items@.subrange(1, i as int)),
                items@[i as int]@,
            );
            assert(seq_views(items@.subrange(1, i + 1)) =~= seq_views(
                items@.subrange(1, i as int),
            ).push(items@[i as int]@));
        }
        i = i + 1;
        if acc.is_empty() {
            proof {
                let done = seq_views(items@.subrange(1, i as int));
                let rest = seq_views(items@.subrange(i as int, items@.len() as int));
                assert(seq_views(items@).drop_first() =~= done + rest);
                assert(seq_views(items@)[0] == items@[0]@);
                lemma_fold_lcp_app(items@[0]@, done, rest);
                lemma_fold_lcp_empty_acc(acc@, rest);
            }
            return Some(acc);
        }
    }
    proof {
        assert(seq_views(items@).drop_first() =~= seq_views(items@.subrange(1, i as int)));
        assert(seq_views(items@)[0] == items@[0]@);
    }
    Some(acc)
}

} // verus!
