//! Sets of texts, kept as lists in which nothing stands twice.
use vstd::prelude::*;
use crate::text::same;

verus! {

/// The set of the texts of a list.
pub open spec fn text_set(list: Seq<Seq<char>>) -> Set<Seq<char>> {
    list.to_set()
}

/// Appending to a list adds to its set.
pub proof fn lemma_pushed_set(list: Seq<Seq<char>>, w: Seq<char>)
    ensures
        list.push(w).to_set() == list.to_set().insert(w),
{
    assert forall|x: Seq<char>| #[trigger] list.push(w).contains(x) <==> list.contains(x) || x == w by {
        if list.contains(x) {
            let i = choose|i: int| 0 <= i < list.len() && list[i] == x;
            assert(list.push(w)[i] == x);
        }
        if x == w {
            assert(list.push(w)[list.len() as int] == x);
        }
    }
    assert(list.push(w).to_set() =~= list.to_set().insert(w));
}

/// Whether `s` stands in the list.
pub fn has_text(list: &Vec<String>, s: &str) -> (r: bool)
    ensures
        r == text_set(list.deep_view()).contains(s@),
{
    let mut i: usize = 0;
    while i < list.len()
        invariant
            i <= list@.len(),
            forall|j: int| 0 <= j < i ==> list.deep_view()[j] != s@,
        decreases list@.len() - i,
    {
        if same(&list[i], s) {
            assert(list.deep_view()[i as int] == s@);
            return true;
        }
        i = i + 1;
    }
    false
}

/// Puts `s` into the set.
pub fn insert_text(list: &mut Vec<String>, s: String)
    requires
        old(list).deep_view().no_duplicates(),
    ensures
        final(list).deep_view().no_duplicates(),
        text_set(final(list).deep_view()) == text_set(old(list).deep_view()).insert(s@),
{
    let ghost before = list.deep_view();
    if has_text(list, &s) {
        assert(text_set(before).insert(s@) =~= text_set(before));
        return;
    }
    let ghost text = s@;
    list.push(s);
    assert(list.deep_view() =~= before.push(text));
    proof {
        lemma_pushed_set(before, text);
    }
}

/// The number of texts that two sets share.
pub fn count_shared(a: &Vec<String>, b: &Vec<String>) -> (r: usize)
    requires
        a.deep_view().no_duplicates(),
        b.deep_view().no_duplicates(),
    ensures
        r == text_set(a.deep_view()).intersect(text_set(b.deep_view())).len(),
        r <= a@.len(),
        r <= b@.len(),
{
    let mut r: usize = 0;
    let mut i: usize = 0;
    let ghost all = a.deep_view();
    let ghost other = text_set(b.deep_view());
    assert(all.take(0).to_set().intersect(other) =~= Set::empty());
    while i < a.len()
        invariant
            all == a.deep_view(),
            other == text_set(b.deep_view()),
            all.no_duplicates(),
            i <= a@.len(),
            r <= i,
            all.take(i as int).to_set().intersect(other).finite(),
            r == all.take(i as int).to_set().intersect(other).len(),
        decreases a@.len() - i,
    {
        let ghost before = all.take(i as int);
        let ghost text = all[i as int];
        proof {
            assert(all.take(i + 1) =~= before.push(text));
            assert(!before.contains(text));
            lemma_pushed_set(before, text);
        }
        if has_text(b, &a[i]) {
            proof {
                assert(before.push(text).to_set().intersect(other) =~= before.to_set().intersect(
                    other,
                ).insert(text));
            }
            r = r + 1;
        } else {
            proof {
                assert(before.push(text).to_set().intersect(other) =~= before.to_set().intersect(
                    other,
                ));
            }
        }
        i = i + 1;
    }
    proof {
        assert(all.take(i as int) =~= all);
        b.deep_view().unique_seq_to_set();
        vstd::seq_lib::seq_to_set_is_finite(b.deep_view());
        vstd::set_lib::lemma_len_subset(all.to_set().intersect(other), other);
    }
    r
}

/// The number of texts in two sets together.
pub fn count_total(a: &Vec<String>, b: &Vec<String>) -> (r: u128)
    requires
        a.deep_view().no_duplicates(),
        b.deep_view().no_duplicates(),
    ensures
        r == text_set(a.deep_view()).union(text_set(b.deep_view())).len(),
{
    let shared = count_shared(a, b);
    proof {
        let x = a.deep_view();
        let y = b.deep_view();
        x.unique_seq_to_set();
        y.unique_seq_to_set();
        vstd::seq_lib::seq_to_set_is_finite(x);
        vstd::seq_lib::seq_to_set_is_finite(y);
        vstd::set_lib::lemma_set_intersect_union_lens(x.to_set(), y.to_set());
    }
    a.len() as u128 + b.len() as u128 - shared as u128
}

/// The number of texts that two sets share is at most the number in both together.
pub proof fn lemma_shared_within_total(a: Set<Seq<char>>, b: Set<Seq<char>>)
    requires
        a.finite(),
        b.finite(),
    ensures
        a.intersect(b).len() <= a.union(b).len(),
{
    vstd::set_lib::lemma_len_subset(a.intersect(b), a.union(b));
}

} // verus!
