//! Insertion sort for block energies, ascending.

use vstd::prelude::*;
use vstd::multiset::Multiset;

verus! {

/// Insert `x` in front of the first element that is at least `x`.
pub open spec fn spec_insert_sorted(x: u128, s: Seq<u128>) -> Seq<u128>
    decreases s.len(),
{
    if s.len() == 0 {
        seq![x]
    } else if x <= s[0] {
        seq![x] + s
    } else {
        seq![s[0]] + spec_insert_sorted(x, s.drop_first())
    }
}

/// Ascending insertion sort.
pub open spec fn spec_sort(s: Seq<u128>) -> Seq<u128>
    decreases s.len(),
{
    if s.len() == 0 {
        Seq::empty()
    } else {
        spec_insert_sorted(s.last(), spec_sort(s.drop_last()))
    }
}

/// Inserting at the first position whose element is at least `x` is what
/// the specification does.
proof fn lemma_insert_at(s: Seq<u128>, x: u128, j: int)
    requires
        0 <= j <= s.len(),
        forall|i: int| 0 <= i < j ==> s[i] < x,
        j < s.len() ==> s[j] >= x,
    ensures
        spec_insert_sorted(x, s) =~= s.subrange(0, j) + seq![x] + s.subrange(j, s.len() as int),
    decreases j,
{
    if s.len() == 0 {
    } else if j == 0 {
    } else {
        lemma_insert_at(s.drop_first(), x, j - 1);
    }
}

/// Sorting keeps the length.
pub proof fn lemma_sort_len(s: Seq<u128>)
    ensures
        spec_sort(s).len() == s.len(),
    decreases s.len(),
{
    if s.len() > 0 {
        lemma_sort_len(s.drop_last());
        lemma_insert_len(s.last(), spec_sort(s.drop_last()));
    }
}

proof fn lemma_insert_len(x: u128, s: Seq<u128>)
    ensures
        spec_insert_sorted(x, s).len() == s.len() + 1,
    decreases s.len(),
{
    if s.len() > 0 && x > s[0] {
        lemma_insert_len(x, s.drop_first());
    }
}

/// Sorting keeps every element inside the bounds of the input.
pub proof fn lemma_sort_bounds(s: Seq<u128>, lo: u128, hi: u128)
    requires
        forall|i: int| 0 <= i < s.len() ==> lo <= #[trigger] s[i] <= hi,
    ensures
        forall|i: int|
            0 <= i < spec_sort(s).len() ==> lo <= #[trigger] spec_sort(s)[i] <= hi,
    decreases s.len(),
{
    if s.len() > 0 {
        assert(forall|i: int|
            0 <= i < s.drop_last().len() ==> lo <= #[trigger] s.drop_last()[i] <= hi);
        lemma_sort_bounds(s.drop_last(), lo, hi);
        lemma_insert_bounds(s.last(), spec_sort(s.drop_last()), lo, hi);
    }
}

proof fn lemma_insert_bounds(x: u128, s: Seq<u128>, lo: u128, hi: u128)
    requires
        lo <= x <= hi,
        forall|i: int| 0 <= i < s.len() ==> lo <= #[trigger] s[i] <= hi,
    ensures
        forall|i: int|
            0 <= i < spec_insert_sorted(x, s).len() ==> lo <= #[trigger] spec_insert_sorted(
                x,
                s,
            )[i] <= hi,
    decreases s.len(),
{
    if s.len() > 0 && x > s[0] {
        assert(forall|i: int|
            0 <= i < s.drop_first().len() ==> lo <= #[trigger] s.drop_first()[i] <= hi);
        lemma_insert_bounds(x, s.drop_first(), lo, hi);
        let t = spec_insert_sorted(x, s);
        let u = spec_insert_sorted(x, s.drop_first());
        assert forall|i: int| 0 <= i < t.len() implies lo <= #[trigger] t[i] <= hi by {
            if i > 0 {
                assert(t[i] == u[i - 1]);
            }
        }
    }
}

/// Ascending order, stated over adjacent elements.
pub open spec fn sorted_ascending(s: Seq<u128>) -> bool {
    forall|i: int| 0 <= i < s.len() - 1 ==> #[trigger] s[i] <= s[i + 1]
}

/// The sort's result is ascending.
pub proof fn lemma_sort_sorted(s: Seq<u128>)
    ensures
        sorted_ascending(spec_sort(s)),
    decreases s.len(),
{
    if s.len() > 0 {
        lemma_sort_sorted(s.drop_last());
        lemma_insert_keeps_sorted(s.last(), spec_sort(s.drop_last()));
    }
}

proof fn lemma_insert_keeps_sorted(x: u128, s: Seq<u128>)
    requires
        sorted_ascending(s),
    ensures
        sorted_ascending(spec_insert_sorted(x, s)),
    decreases s.len(),
{
    if s.len() == 0 {
    } else if x <= s[0] {
        let t = seq![x] + s;
        assert forall|i: int| 0 <= i < t.len() - 1 implies #[trigger] t[i] <= t[i + 1] by {
            if i > 0 {
                assert(t[i] == s[i - 1] && t[i + 1] == s[i]);
            }
        }
    } else {
        assert(sorted_ascending(s.drop_first())) by {
            assert forall|i: int|
                0 <= i < s.drop_first().len() - 1 implies #[trigger] (s.drop_first()[i]) <= (
            s.drop_first()[i + 1]) by {
                assert(s.drop_first()[i] == s[i + 1] && s.drop_first()[i + 1] == s[i + 2]);
            }
        }
        lemma_insert_keeps_sorted(x, s.drop_first());
        let u = spec_insert_sorted(x, s.drop_first());
        let t = seq![s[0]] + u;
        lemma_insert_len(x, s.drop_first());
        assert(s[0] <= u[0]) by {
            if s.drop_first().len() == 0 {
            } else if x <= s.drop_first()[0] {
                assert(u[0] == x);
            } else {
                assert(u[0] == s.drop_first()[0]);
                assert(s.drop_first()[0] == s[1]);
            }
        }
        assert forall|i: int| 0 <= i < t.len() - 1 implies #[trigger] t[i] <= t[i + 1] by {
            if i > 0 {
                assert(t[i] == u[i - 1] && t[i + 1] == u[i]);
            }
        }
    }
}

/// The sort's result holds exactly the input's energies.
pub proof fn lemma_sort_multiset(s: Seq<u128>)
    ensures
        spec_sort(s).to_multiset() =~= s.to_multiset(),
    decreases s.len(),
{
    broadcast use vstd::seq_lib::group_to_multiset_ensures;
    broadcast use vstd::multiset::group_multiset_axioms;

    if s.len() > 0 {
        lemma_sort_multiset(s.drop_last());
        lemma_insert_multiset(s.last(), spec_sort(s.drop_last()));
        assert(s =~= s.drop_last().push(s.last()));
        assert(s.to_multiset() =~= s.drop_last().to_multiset().insert(s.last()));
    }
}

proof fn lemma_insert_multiset(x: u128, s: Seq<u128>)
    ensures
        spec_insert_sorted(x, s).to_multiset() =~= s.to_multiset().insert(x),
    decreases s.len(),
{
    broadcast use vstd::seq_lib::group_to_multiset_ensures;
    broadcast use vstd::multiset::group_multiset_axioms;

    if s.len() == 0 {
        assert(seq![x] =~= Seq::<u128>::empty().push(x));
        assert(seq![x].to_multiset() =~= Seq::<u128>::empty().to_multiset().insert(x));
    } else if x <= s[0] {
        vstd::seq_lib::lemma_multiset_commutative(seq![x], s);
        assert(seq![x] =~= Seq::<u128>::empty().push(x));
        assert(seq![x].to_multiset() =~= Multiset::<u128>::empty().insert(x));
    } else {
        lemma_insert_multiset(x, s.drop_first());
        vstd::seq_lib::lemma_multiset_commutative(
            seq![s[0]],
            spec_insert_sorted(x, s.drop_first()),
        );
        vstd::seq_lib::lemma_multiset_commutative(seq![s[0]], s.drop_first());
        assert(s =~= seq![s[0]] + s.drop_first());
        assert(seq![s[0]] =~= Seq::<u128>::empty().push(s[0]));
        assert(seq![s[0]].to_multiset() =~= Multiset::<u128>::empty().insert(s[0]));
    }
}

/// Return an ascending copy of the energies.
pub fn sorted_energies(input: &Vec<u128>) -> (r: Vec<u128>)
    ensures
        r@ == spec_sort(input@),
        r@.len() == input@.len(),
{
    proof {
        lemma_sort_len(input@);
    }
    let mut out: Vec<u128> = Vec::new();
    let mut i: usize = 0;
    proof {
        assert(input@.subrange(0, 0) =~= Seq::<u128>::empty());
    }
    while i < input.len()
        invariant
            i <= input@.len(),
            out@ == spec_sort(input@.subrange(0, i as int)),
            out@.len() == i,
        decreases input@.len() - i,
    {
        let x: u128 = input[i];
        let mut j: usize = 0;
        while j < out.len() && out[j] < x
            invariant
                j <= out@.len(),
                forall|t: int| 0 <= t < j ==> out@[t] < x,
            decreases out@.len() - j,
        {
            j = j + 1;
        }
        proof {
            lemma_insert_at(out@, x, j as int);
            lemma_insert_len(x, out@);
            assert(input@.subrange(0, i as int + 1).drop_last() =~= input@.subrange(0, i as int));
            assert(input@.subrange(0, i as int + 1).last() == input@[i as int]);
        }
        out.insert(j, x);
        proof {
            assert(out@ =~= spec_sort(input@.subrange(0, i as int + 1)));
        }
        i = i + 1;
    }
    proof {
        assert(input@.subrange(0, input@.len() as int) =~= input@);
    }
    out
}

} // verus!
