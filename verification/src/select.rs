//! Choosing the references to resolve: each distinct candidate once, in
//! canonical order, unless the author already defined its label.

use vstd::prelude::*;
use crate::link::{
    label, lemma_link_lt_irreflexive, lemma_link_lt_total, lemma_link_lt_transitive, link_lt,
    link_views, str_views, Link, LinkView,
};
use crate::text::str_same;

verus! {

/// Each element of `s` comes before all later ones.
pub open spec fn strictly_sorted(s: Seq<LinkView>) -> bool {
    forall|i: int, j: int| 0 <= i < j < s.len() ==> link_lt(s[i], s[j])
}

/// `s` lists, in canonical order and once each, exactly the candidates whose
/// label is not among `defined`.
pub open spec fn is_selection(
    s: Seq<LinkView>,
    candidates: Seq<LinkView>,
    defined: Seq<Seq<char>>,
) -> bool {
    &&& strictly_sorted(s)
    &&& forall|l: LinkView|
        s.contains(l) <==> candidates.contains(l) && !defined.contains(label(l))
}

/// The references to resolve among `candidates`, given the labels that the
/// author defined.
pub open spec fn selection(candidates: Seq<LinkView>, defined: Seq<Seq<char>>) -> Seq<LinkView> {
    choose|s: Seq<LinkView>| is_selection(s, candidates, defined)
}

/// Two strictly sorted lists with the same elements are the same list.
pub proof fn lemma_sorted_unique(a: Seq<LinkView>, b: Seq<LinkView>)
    requires
        strictly_sorted(a),
        strictly_sorted(b),
        forall|l: LinkView| a.contains(l) <==> b.contains(l),
    ensures
        a == b,
    decreases a.len(),
{
    if a.len() == 0 {
        if b.len() > 0 {
            assert(b.contains(b[0]));
        }
        assert(a =~= b);
    } else if b.len() == 0 {
        assert(a.contains(a[0]));
    } else {
        assert(a.contains(a[0]));
        assert(b.contains(b[0]));
        let j = choose|j: int| 0 <= j < b.len() && b[j] == a[0];
        let i = choose|i: int| 0 <= i < a.len() && a[i] == b[0];
        if a[0] != b[0] {
            lemma_link_lt_transitive(a[0], b[0], a[0]);
            lemma_link_lt_irreflexive(a[0]);
        }
        let ta = a.drop_first();
        let tb = b.drop_first();
        assert forall|l: LinkView| ta.contains(l) <==> tb.contains(l) by {
            lemma_link_lt_irreflexive(l);
            if ta.contains(l) {
                let k = choose|k: int| 0 <= k < ta.len() && ta[k] == l;
                assert(a[k + 1] == l);
                assert(a.contains(l));
                let m = choose|m: int| 0 <= m < b.len() && b[m] == l;
                assert(m > 0);
                assert(tb[m - 1] == l);
            }
            if tb.contains(l) {
                let k = choose|k: int| 0 <= k < tb.len() && tb[k] == l;
                assert(b[k + 1] == l);
                assert(b.contains(l));
                let m = choose|m: int| 0 <= m < a.len() && a[m] == l;
                assert(m > 0);
                assert(ta[m - 1] == l);
            }
        }
        assert(strictly_sorted(ta)) by {
            assert forall|x: int, y: int| 0 <= x < y < ta.len() implies link_lt(ta[x], ta[y]) by {
                assert(link_lt(a[x + 1], a[y + 1]));
            }
        }
        assert(strictly_sorted(tb)) by {
            assert forall|x: int, y: int| 0 <= x < y < tb.len() implies link_lt(tb[x], tb[y]) by {
                assert(link_lt(b[x + 1], b[y + 1]));
            }
        }
        lemma_sorted_unique(ta, tb);
        assert(a =~= seq![a[0]] + ta);
        assert(b =~= seq![b[0]] + tb);
    }
}

/// A strictly sorted list with one more element put at its place.
proof fn lemma_insert(s: Seq<LinkView>, l: LinkView) -> (r: Seq<LinkView>)
    requires
        strictly_sorted(s),
    ensures
        strictly_sorted(r),
        forall|x: LinkView| r.contains(x) <==> s.contains(x) || x == l,
    decreases s.len(),
{
    if s.len() == 0 {
        let r = seq![l];
        assert(r[0] == l);
        r
    } else if s.last() == l {
        assert(s.contains(l));
        s
    } else if link_lt(s.last(), l) {
        let r = s.push(l);
        assert forall|i: int, j: int| 0 <= i < j < r.len() implies link_lt(r[i], r[j]) by {
            if j == s.len() && i < s.len() - 1 {
                lemma_link_lt_transitive(s[i], s.last(), l);
            }
        }
        assert forall|x: LinkView| r.contains(x) <==> s.contains(x) || x == l by {
            if s.contains(x) {
                let k = choose|k: int| 0 <= k < s.len() && s[k] == x;
                assert(r[k] == x);
            }
            if x == l {
                assert(r[s.len() as int] == x);
            }
            if r.contains(x) {
                let k = choose|k: int| 0 <= k < r.len() && r[k] == x;
                if k < s.len() {
                    assert(s[k] == x);
                }
            }
        }
        r
    } else {
        let front = s.drop_last();
        assert(strictly_sorted(front)) by {
            assert forall|i: int, j: int| 0 <= i < j < front.len() implies link_lt(
                front[i],
                front[j],
            ) by {
                assert(link_lt(s[i], s[j]));
            }
        }
        let r0 = lemma_insert(front, l);
        let r = r0.push(s.last());
        lemma_link_lt_total(s.last(), l);
        assert forall|i: int, j: int| 0 <= i < j < r.len() implies link_lt(r[i], r[j]) by {
            if j == r0.len() {
                assert(r0.contains(r0[i]));
                if front.contains(r0[i]) {
                    let k = choose|k: int| 0 <= k < front.len() && front[k] == r0[i];
                    assert(link_lt(s[k], s[s.len() - 1]));
                }
            } else {
                assert(link_lt(r0[i], r0[j]));
            }
        }
        assert forall|x: LinkView| r.contains(x) <==> s.contains(x) || x == l by {
            if s.contains(x) {
                let k = choose|k: int| 0 <= k < s.len() && s[k] == x;
                if k < s.len() - 1 {
                    assert(front[k] == x);
                    assert(r0.contains(x));
                    let m = choose|m: int| 0 <= m < r0.len() && r0[m] == x;
                    assert(r[m] == x);
                } else {
                    assert(r[r0.len() as int] == x);
                }
            }
            if x == l {
                assert(r0.contains(x));
                let m = choose|m: int| 0 <= m < r0.len() && r0[m] == x;
                assert(r[m] == x);
            }
            if r.contains(x) {
                let k = choose|k: int| 0 <= k < r.len() && r[k] == x;
                if k < r0.len() {
                    assert(r0[k] == x);
                    assert(r0.contains(x));
                    if front.contains(x) {
                        let m = choose|m: int| 0 <= m < front.len() && front[m] == x;
                        assert(s[m] == x);
                    }
                } else {
                    assert(s[s.len() - 1] == x);
                }
            }
        }
        r
    }
}

/// Some list is the selection of any candidates and defined labels.
proof fn lemma_build(candidates: Seq<LinkView>, defined: Seq<Seq<char>>) -> (s: Seq<LinkView>)
    ensures
        is_selection(s, candidates, defined),
    decreases candidates.len(),
{
    if candidates.len() == 0 {
        Seq::<LinkView>::empty()
    } else {
        let front = candidates.drop_last();
        let last = candidates.last();
        let s0 = lemma_build(front, defined);
        let s = if defined.contains(label(last)) {
            s0
        } else {
            lemma_insert(s0, last)
        };
        assert forall|l: LinkView|
            s.contains(l) <==> candidates.contains(l) && !defined.contains(label(l)) by {
            if candidates.contains(l) {
                let k = choose|k: int| 0 <= k < candidates.len() && candidates[k] == l;
                if k < front.len() {
                    assert(front[k] == l);
                }
            }
            if front.contains(l) {
                let k = choose|k: int| 0 <= k < front.len() && front[k] == l;
                assert(candidates[k] == l);
            }
            assert(candidates[candidates.len() - 1] == last);
        }
        s
    }
}

/// The selection is what its name says, whatever the candidates.
pub proof fn lemma_selection(candidates: Seq<LinkView>, defined: Seq<Seq<char>>)
    ensures
        is_selection(selection(candidates, defined), candidates, defined),
{
    let s = lemma_build(candidates, defined);
}

/// Any list that is a selection is the selection.
pub proof fn lemma_selection_unique(
    s: Seq<LinkView>,
    candidates: Seq<LinkView>,
    defined: Seq<Seq<char>>,
)
    requires
        is_selection(s, candidates, defined),
    ensures
        s == selection(candidates, defined),
{
    lemma_sorted_unique(s, selection(candidates, defined));
}

/// Which references are selected, and in which order, depends on which
/// candidates there are: not on the order in which they were found, nor on
/// how often each was.
pub proof fn lemma_selection_ignores_order(
    a: Seq<LinkView>,
    b: Seq<LinkView>,
    defined: Seq<Seq<char>>,
)
    requires
        forall|l: LinkView| a.contains(l) <==> b.contains(l),
    ensures
        selection(a, defined) == selection(b, defined),
{
    lemma_selection(a, defined);
    lemma_selection(b, defined);
    lemma_sorted_unique(selection(a, defined), selection(b, defined));
}

/// A candidate that is found once more changes nothing.
pub proof fn lemma_repeated_candidate(
    candidates: Seq<LinkView>,
    again: LinkView,
    defined: Seq<Seq<char>>,
)
    requires
        candidates.contains(again),
    ensures
        selection(candidates.push(again), defined) == selection(candidates, defined),
{
    let more = candidates.push(again);
    assert forall|l: LinkView| more.contains(l) <==> candidates.contains(l) by {
        if candidates.contains(l) {
            let k = choose|k: int| 0 <= k < candidates.len() && candidates[k] == l;
            assert(more[k] == l);
        }
        if more.contains(l) {
            let k = choose|k: int| 0 <= k < more.len() && more[k] == l;
            if k < candidates.len() {
                assert(candidates[k] == l);
            }
        }
    }
    lemma_selection_ignores_order(more, candidates, defined);
}

/// Every candidate whose label is not defined stands in the selection at
/// one place and no other, and the selection runs in canonical order.
pub proof fn lemma_selected_once(
    candidates: Seq<LinkView>,
    defined: Seq<Seq<char>>,
    link: LinkView,
)
    requires
        candidates.contains(link),
        !defined.contains(label(link)),
    ensures
        strictly_sorted(selection(candidates, defined)),
        exists|i: int|
            0 <= i < selection(candidates, defined).len() && #[trigger] selection(
                candidates,
                defined,
            )[i] == link,
        forall|i: int, j: int|
            #![trigger selection(candidates, defined)[i], selection(candidates, defined)[j]]
            0 <= i < j < selection(candidates, defined).len() ==> !(selection(
                candidates,
                defined,
            )[i] == link && selection(candidates, defined)[j] == link),
{
    let chosen = selection(candidates, defined);
    lemma_selection(candidates, defined);
    assert(chosen.contains(link));
    lemma_link_lt_irreflexive(link);
}

/// A reference whose label the author has defined is not selected.
pub proof fn lemma_defined_label_skipped(
    candidates: Seq<LinkView>,
    defined: Seq<Seq<char>>,
    link: LinkView,
)
    requires
        defined.contains(label(link)),
    ensures
        !selection(candidates, defined).contains(link),
{
    lemma_selection(candidates, defined);
}

/// Whether `name` is one of `defined`.
pub fn contains_label(defined: &Vec<String>, name: &str) -> (found: bool)
    ensures
        found == str_views(defined@).contains(name@),
{
    let mut i: usize = 0;
    while i < defined.len()
        invariant
            i <= defined.len(),
            forall|k: int| 0 <= k < i ==> str_views(defined@)[k] != name@,
        decreases defined.len() - i,
    {
        if str_same(defined[i].as_str(), name) {
            assert(str_views(defined@)[i as int] == name@);
            return true;
        }
        i += 1;
    }
    false
}

/// Puts `link` at its place in the sorted list `links`, unless it is there.
pub fn insert_link(links: &mut Vec<Link>, link: &Link)
    requires
        strictly_sorted(link_views(old(links)@)),
    ensures
        strictly_sorted(link_views(final(links)@)),
        forall|x: LinkView|
            link_views(final(links)@).contains(x) <==> link_views(old(links)@).contains(x) || x
                == link@,
{
    let ghost before = link_views(links@);
    let mut p: usize = 0;
    while p < links.len() && links[p].before(link)
        invariant
            p <= links.len(),
            link_views(links@) == before,
            forall|k: int| 0 <= k < p ==> link_lt(before[k], link@),
        decreases links.len() - p,
    {
        p += 1;
    }
    if p < links.len() && links[p].same(link) {
        assert(before[p as int] == link@);
        return ;
    }
    links.insert(p, link.clone());
    proof {
        let after = link_views(links@);
        assert(after =~= before.insert(p as int, link@));
        assert forall|i: int, j: int| 0 <= i < j < after.len() implies link_lt(
            after[i],
            after[j],
        ) by {
            if j == p {
            } else if i == p {
                lemma_link_lt_total(before[p as int], link@);
                if j - 1 > p {
                    assert(link_lt(before[p as int], before[j - 1]));
                    lemma_link_lt_transitive(link@, before[p as int], before[j - 1]);
                }
            } else if i < p && j > p {
                assert(link_lt(before[i], before[j - 1]));
            } else if i < p {
                assert(link_lt(before[i], before[j]));
            } else {
                assert(link_lt(before[i - 1], before[j - 1]));
            }
        }
        assert forall|x: LinkView| after.contains(x) <==> before.contains(x) || x == link@ by {
            if before.contains(x) {
                let k = choose|k: int| 0 <= k < before.len() && before[k] == x;
                if k < p {
                    assert(after[k] == x);
                } else {
                    assert(after[k + 1] == x);
                }
            }
            if x == link@ {
                assert(after[p as int] == x);
            }
            if after.contains(x) {
                let k = choose|k: int| 0 <= k < after.len() && after[k] == x;
                if k < p {
                    assert(before[k] == x);
                } else if k > p {
                    assert(before[k - 1] == x);
                }
            }
        }
    }
}

/// Sorts the candidates, drops repeated ones and those whose label the
/// author has defined.
pub fn select_links(candidates: &Vec<Link>, defined: &Vec<String>) -> (links: Vec<Link>)
    ensures
        link_views(links@) == selection(link_views(candidates@), str_views(defined@)),
        is_selection(link_views(links@), link_views(candidates@), str_views(defined@)),
{
    let ghost all = link_views(candidates@);
    let ghost labels = str_views(defined@);
    let mut links: Vec<Link> = Vec::new();
    let mut i: usize = 0;
    assert(all.take(0) =~= Seq::<LinkView>::empty());
    while i < candidates.len()
        invariant
            i <= candidates.len(),
            all == link_views(candidates@),
            labels == str_views(defined@),
            is_selection(link_views(links@), all.take(i as int), labels),
        decreases candidates.len() - i,
    {
        let ghost kept = link_views(links@);
        let candidate = &candidates[i];
        let name = candidate.label();
        if !contains_label(defined, name.as_str()) {
            insert_link(&mut links, candidate);
        }
        proof {
            let now = link_views(links@);
            let seen = all.take(i as int);
            let next = all.take(i + 1);
            assert(next =~= seen.push(candidate@));
            assert forall|l: LinkView|
                now.contains(l) <==> next.contains(l) && !labels.contains(label(l)) by {
                if seen.contains(l) {
                    let k = choose|k: int| 0 <= k < seen.len() && seen[k] == l;
                    assert(next[k] == l);
                }
                assert(next[i as int] == candidate@);
                if next.contains(l) {
                    let k = choose|k: int| 0 <= k < next.len() && next[k] == l;
                    if k < i {
                        assert(seen[k] == l);
                    }
                }
            }
        }
        i += 1;
    }
    proof {
        assert(all.take(i as int) =~= all);
        lemma_selection_unique(link_views(links@), all, labels);
    }
    links
}

} // verus!
