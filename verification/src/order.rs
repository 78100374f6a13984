//! Lexicographic ordering of module stems and a sort that the
//! module-listing synthesizer relies on.

use vstd::multiset::Multiset;
use vstd::prelude::*;
use vstd::relations::{sorted_by, total_ordering};
use vstd::string::StrSliceExecFns;

verus! {

/// Lexicographic order on character sequences, by code point, with a
/// prefix ordered before every extension of it.
pub open spec fn lex_leq(a: Seq<char>, b: Seq<char>) -> bool
    decreases a.len(),
{
    if a.len() == 0 {
        true
    } else if b.len() == 0 {
        false
    } else if a[0] == b[0] {
        lex_leq(a.drop_first(), b.drop_first())
    } else {
        (a[0] as int) < (b[0] as int)
    }
}

/// The ordering as a function value, for use with `sort_by`.
pub open spec fn stem_le() -> spec_fn(Seq<char>, Seq<char>) -> bool {
    |a: Seq<char>, b: Seq<char>| lex_leq(a, b)
}

proof fn lemma_lex_leq_refl(a: Seq<char>)
    ensures
        lex_leq(a, a),
    decreases a.len(),
{
    if a.len() > 0 {
        lemma_lex_leq_refl(a.drop_first());
    }
}

proof fn lemma_lex_leq_antisym(a: Seq<char>, b: Seq<char>)
    requires
        lex_leq(a, b),
        lex_leq(b, a),
    ensures
        a == b,
    decreases a.len(),
{
    if a.len() == 0 {
        assert(b.len() == 0);
        assert(a =~= b);
    } else {
        assert(b.len() > 0);
        assert(a[0] == b[0]);
        lemma_lex_leq_antisym(a.drop_first(), b.drop_first());
        assert(a.drop_first().len() == b.drop_first().len());
        assert(a.drop_first().len() == a.len() - 1);
        assert(b.drop_first().len() == b.len() - 1);
        assert(a.len() == b.len());
        assert forall|k: int| 0 <= k < a.len() implies a[k] == b[k] by {
            if k > 0 {
                assert(a[k] == a.drop_first()[k - 1]);
                assert(b[k] == b.drop_first()[k - 1]);
            }
        }
        assert(a =~= b);
    }
}

proof fn lemma_lex_leq_trans(a: Seq<char>, b: Seq<char>, c: Seq<char>)
    requires
        lex_leq(a, b),
        lex_leq(b, c),
    ensures
        lex_leq(a, c),
    decreases a.len(),
{
    if a.len() == 0 {
    } else if b.len() == 0 {
    } else if c.len() == 0 {
    } else {
        if a[0] == b[0] && b[0] == c[0] {
            lemma_lex_leq_trans(a.drop_first(), b.drop_first(), c.drop_first());
        }
    }
}

proof fn lemma_lex_leq_connected(a: Seq<char>, b: Seq<char>)
    ensures
        lex_leq(a, b) || lex_leq(b, a),
    decreases a.len(),
{
    if a.len() > 0 && b.len() > 0 && a[0] == b[0] {
        lemma_lex_leq_connected(a.drop_first(), b.drop_first());
    }
}

/// The stem order is a total order, so sorting by it is well behaved and a
/// sorted sequence of distinct stems is unique for its contents.
pub proof fn lemma_stem_le_total_ordering()
    ensures
        total_ordering(stem_le()),
{
    let le = stem_le();
    assert forall|a: Seq<char>| #[trigger] le(a, a) by {
        lemma_lex_leq_refl(a);
    }
    assert forall|a: Seq<char>, b: Seq<char>| #[trigger] le(a, b) && #[trigger] le(b, a)
        implies a == b by {
        lemma_lex_leq_antisym(a, b);
    }
    assert forall|a: Seq<char>, b: Seq<char>, c: Seq<char>|
        #[trigger] le(a, b) && #[trigger] le(b, c) implies le(a, c) by {
        lemma_lex_leq_trans(a, b, c);
    }
    assert forall|a: Seq<char>, b: Seq<char>| !(#[trigger] le(a, b)) implies le(b, a) by {
        lemma_lex_leq_connected(a, b);
    }
}

/// Decides `lex_leq` on two string slices.
pub fn str_le(a: &str, b: &str) -> (r: bool)
    ensures
        r == lex_leq(a@, b@),
{
    let na = a.unicode_len();
    let nb = b.unicode_len();
    let mut i: usize = 0;
    proof {
        assert(a@.skip(0) =~= a@);
        assert(b@.skip(0) =~= b@);
    }
    loop
        invariant
            na == a@.len(),
            nb == b@.len(),
            i <= na,
            i <= nb,
            lex_leq(a@, b@) == lex_leq(a@.skip(i as int), b@.skip(i as int)),
        decreases na - i,
    {
        if i >= na {
            proof {
                assert(a@.skip(i as int).len() == 0);
            }
            return true;
        }
        if i >= nb {
            proof {
                assert(b@.skip(i as int).len() == 0);
                assert(a@.skip(i as int).len() > 0);
            }
            return false;
        }
        let ca = a.get_char(i);
        let cb = b.get_char(i);
        proof {
            assert(a@.skip(i as int)[0] == a@[i as int]);
            assert(b@.skip(i as int)[0] == b@[i as int]);
        }
        if ca != cb {
            return (ca as u32) < (cb as u32);
        }
        proof {
            assert(a@.skip(i as int).drop_first() =~= a@.skip(i + 1));
            assert(b@.skip(i as int).drop_first() =~= b@.skip(i + 1));
        }
        i = i + 1;
    }
}

/// The views of a sequence of strings.
pub open spec fn strs_view(s: Seq<String>) -> Seq<Seq<char>> {
    s.map_values(|x: String| x@)
}

/// Sorts module names lexicographically.
pub fn sort_module_names(names: Vec<String>) -> (r: Vec<String>)
    ensures
        strs_view(r@) == strs_view(names@).sort_by(stem_le()),
{
    broadcast use vstd::seq_lib::group_to_multiset_ensures;

    let mut out: Vec<String> = Vec::new();
    let mut i: usize = 0;
    proof {
        lemma_stem_le_total_ordering();
        assert(strs_view(out@) =~= Seq::<Seq<char>>::empty());
        assert(strs_view(names@.subrange(0, 0)) =~= Seq::<Seq<char>>::empty());
        assert(Seq::<Seq<char>>::empty().to_multiset() =~= Multiset::empty());
    }
    while i < names.len()
        invariant
            i <= names@.len(),
            sorted_by(strs_view(out@), stem_le()),
            strs_view(out@).to_multiset() == strs_view(names@.subrange(0, i as int)).to_multiset(),
        decreases names@.len() - i,
    {
        let x = names[i].clone();
        let ghost outv = strs_view(out@);
        let mut j: usize = 0;
        loop
            invariant
                i < names@.len(),
                j <= out@.len(),
                outv == strs_view(out@),
                outv.len() == out@.len(),
                x@ == names@[i as int]@,
                forall|k: int| 0 <= k < j ==> !lex_leq(x@, outv[k]),
            ensures
                j <= outv.len(),
                forall|k: int| 0 <= k < j ==> !lex_leq(x@, outv[k]),
                j < outv.len() ==> lex_leq(x@, outv[j as int]),
            decreases out@.len() - j,
        {
            if j >= out.len() {
                break ;
            }
            if str_le(x.as_str(), out[j].as_str()) {
                break ;
            }
            j = j + 1;
        }
        proof {
            lemma_stem_le_total_ordering();
        }
        out.insert(j, x);
        proof {
            broadcast use vstd::seq_lib::group_to_multiset_ensures;

            let le = stem_le();
            let newv = strs_view(out@);
            assert(newv =~= outv.insert(j as int, names@[i as int]@));
            outv.insert_ensures(j as int, names@[i as int]@);
            let xv = names@[i as int]@;
            assert forall|p: int, q: int| 0 <= p < q < newv.len() implies #[trigger] le(
                newv[p],
                newv[q],
            ) by {
                if q < j {
                    assert(le(outv[p], outv[q]));
                } else if p > j {
                    assert(le(outv[p - 1], outv[q - 1]));
                } else if p == j {
                    // x is ordered before everything from position j on.
                    assert(newv[p] == xv);
                    assert(newv[q] == outv[q - 1]);
                    assert(le(xv, outv[j as int]));
                    if q > j + 1 {
                        assert(le(outv[j as int], outv[q - 1]));
                        lemma_lex_leq_trans(xv, outv[j as int], outv[q - 1]);
                    }
                } else if q == j {
                    // Everything before position j is ordered before x.
                    assert(newv[p] == outv[p]);
                    assert(newv[q] == xv);
                    assert(!lex_leq(xv, outv[p]));
                    lemma_lex_leq_connected(xv, outv[p]);
                } else {
                    // p < j < q: chain through x's insertion point.
                    assert(newv[p] == outv[p]);
                    assert(newv[q] == outv[q - 1]);
                    assert(!lex_leq(xv, outv[p]));
                    lemma_lex_leq_connected(xv, outv[p]);
                    assert(le(xv, outv[j as int]));
                    lemma_lex_leq_trans(outv[p], xv, outv[j as int]);
                    if q > j + 1 {
                        assert(le(outv[j as int], outv[q - 1]));
                        lemma_lex_leq_trans(outv[p], outv[j as int], outv[q - 1]);
                    }
                }
            }
            assert(sorted_by(newv, le));
            assert(strs_view(names@.subrange(0, i + 1)) =~= strs_view(
                names@.subrange(0, i as int),
            ).push(xv));
            assert(outv.insert(j as int, xv).to_multiset() =~= outv.to_multiset().insert(xv));
            assert(newv.to_multiset() =~= outv.to_multiset().insert(xv));
            assert(strs_view(names@.subrange(0, i as int)).push(xv).to_multiset() =~= strs_view(
                names@.subrange(0, i as int),
            ).to_multiset().insert(xv));
        }
        i = i + 1;
    }
    proof {
        assert(names@.subrange(0, names@.len() as int) =~= names@);
        lemma_stem_le_total_ordering();
        strs_view(names@).lemma_sort_by_ensures(stem_le());
        vstd::seq_lib::lemma_sorted_unique(
            strs_view(out@),
            strs_view(names@).sort_by(stem_le()),
            stem_le(),
        );
    }
    out
}

} // verus!
