//! The summary of a `discovered.json`: how many packages use each runtime.

use vstd::prelude::*;

verus! {

broadcast use vstd::seq_lib::group_seq_properties;

/// How many times `h` stands in `hints`.
pub open spec fn occurrences(hints: Seq<Seq<char>>, h: Seq<char>) -> nat {
    hints.filter(|x: Seq<char>| x == h).len()
}

/// The sum of the counts.
pub open spec fn total(counts: Seq<(Seq<char>, nat)>) -> nat
    decreases counts.len(),
{
    if counts.len() == 0 {
        0
    } else {
        total(counts.drop_last()) + counts.last().1
    }
}

/// Runtimes with their counts, as character sequences.
pub open spec fn count_views(v: Seq<(String, usize)>) -> Seq<(Seq<char>, nat)> {
    v.map_values(|e: (String, usize)| (e.0@, e.1 as nat))
}

/// The names of the runtimes, as character sequences.
pub open spec fn hint_views(v: Seq<String>) -> Seq<Seq<char>> {
    v.map_values(|s: String| s@)
}

/// `counts` tells, once for each runtime in `hints` and for no other, how
/// many packages use it.
pub open spec fn counts_all(counts: Seq<(Seq<char>, nat)>, hints: Seq<Seq<char>>) -> bool {
    &&& forall|i: int, j: int| 0 <= i < j < counts.len() ==> counts[i].0 != counts[j].0
    &&& forall|i: int| 0 <= i < counts.len() ==> hints.contains(#[trigger] counts[i].0)
    &&& forall|i: int| 0 <= i < counts.len() ==> #[trigger] counts[i].1 == occurrences(hints, counts[i].0)
    &&& forall|h: Seq<char>| hints.contains(h) ==> exists|i: int| 0 <= i < counts.len() && #[trigger] counts[i].0 == h
}

proof fn lemma_total_insert(s: Seq<(Seq<char>, nat)>, p: int, x: (Seq<char>, nat))
    requires
        0 <= p <= s.len(),
    ensures
        total(s.insert(p, x)) == total(s) + x.1,
    decreases s.len(),
{
    if p < s.len() {
        lemma_total_insert(s.drop_last(), p, x);
        assert(s.insert(p, x).drop_last() =~= s.drop_last().insert(p, x));
    } else {
        assert(s.insert(p, x) =~= s.push(x));
        assert(s.push(x).drop_last() =~= s);
    }
}

proof fn lemma_total_update(s: Seq<(Seq<char>, nat)>, p: int, x: (Seq<char>, nat))
    requires
        0 <= p < s.len(),
    ensures
        total(s.update(p, x)) == total(s) - s[p].1 + x.1,
    decreases s.len(),
{
    if p < s.len() - 1 {
        lemma_total_update(s.drop_last(), p, x);
        assert(s.update(p, x).drop_last() =~= s.drop_last().update(p, x));
    } else {
        assert(s.update(p, x).drop_last() =~= s.drop_last());
    }
}

/// Counts the packages of each runtime; most used first.
pub fn runtime_counts(hints: &Vec<String>) -> (r: Vec<(String, usize)>)
    ensures
        counts_all(count_views(r@), hint_views(hints@)),
        forall|i: int, j: int| 0 <= i < j < r@.len() ==> #[trigger] r@[i].1 >= #[trigger] r@[j].1,
        total(count_views(r@)) == hints@.len(),
{
    let ghost hv = hint_views(hints@);
    let mut counts: Vec<(String, usize)> = Vec::new();
    for i in 0..hints.len()
        invariant
            hv == hint_views(hints@),
            counts_all(count_views(counts@), hv.take(i as int)),
            total(count_views(counts@)) == i,
            forall|k: int| 0 <= k < counts@.len() ==> #[trigger] counts@[k].1 <= i,
    {
        let h = &hints[i];
        let ghost pre = hv.take(i as int);
        let ghost post = hv.take(i + 1);
        assert(post =~= pre.push(h@));
        let ghost cv = count_views(counts@);
        let mut p: usize = 0;
        while p < counts.len() && !(counts[p].0 == *h)
            invariant
                p <= counts@.len(),
                forall|k: int| 0 <= k < p ==> counts@[k].0@ != h@,
            decreases counts@.len() - p,
        {
            p = p + 1;
        }
        proof {
            assert forall|g: Seq<char>| #[trigger] occurrences(post, g) == occurrences(pre, g) + (if g
                == h@ {
                1nat
            } else {
                0nat
            }) by {
                pre.lemma_filter_push(h@, |x: Seq<char>| x == g);
            }
        }
        if p < counts.len() {
            let c = counts[p].1;
            let name = counts[p].0.clone();
            counts.set(p, (name, c + 1));
            proof {
                lemma_total_update(cv, p as int, (h@, (c + 1) as nat));
                assert(count_views(counts@) =~= cv.update(p as int, (h@, (c + 1) as nat)));
                let nv = count_views(counts@);
                assert forall|k: int| 0 <= k < nv.len() implies post.contains(#[trigger] nv[k].0) by {
                    assert(pre.contains(cv[k].0));
                    let j = choose|j: int| 0 <= j < pre.len() && pre[j] == cv[k].0;
                    assert(post[j] == pre[j]);
                }
                assert forall|g: Seq<char>| post.contains(g) implies exists|k: int| 0 <= k < nv.len() && #[trigger] nv[k].0 == g by {
                    let j = choose|j: int| 0 <= j < post.len() && post[j] == g;
                    if j < pre.len() {
                        assert(pre[j] == g);
                        assert(pre.contains(g));
                        let k = choose|k: int| 0 <= k < cv.len() && #[trigger] cv[k].0 == g;
                        assert(nv[k].0 == g);
                    } else {
                        assert(nv[p as int].0 == g);
                    }
                }
            }
        } else {
            counts.push((h.clone(), 1));
            proof {
                assert(count_views(counts@) =~= cv.push((h@, 1nat)));
                assert(cv.push((h@, 1nat)).drop_last() =~= cv);
                let nv = count_views(counts@);
                assert(!pre.contains(h@)) by {
                    if pre.contains(h@) {
                        let k = choose|k: int| 0 <= k < cv.len() && #[trigger] cv[k].0 == h@;
                    }
                }
                assert(occurrences(pre, h@) == 0) by {
                    if occurrences(pre, h@) > 0 {
                        let f = pre.filter(|x: Seq<char>| x == h@);
                        pre.lemma_filter_contains_rev(|x: Seq<char>| x == h@, f[0]);
                        assert(f.contains(f[0]));
                        pre.lemma_filter_pred(|x: Seq<char>| x == h@, 0);
                    }
                }
                assert forall|k: int| 0 <= k < nv.len() implies post.contains(#[trigger] nv[k].0) by {
                    if k < cv.len() {
                        assert(pre.contains(cv[k].0));
                        let j = choose|j: int| 0 <= j < pre.len() && pre[j] == cv[k].0;
                        assert(post[j] == pre[j]);
                    } else {
                        assert(post[i as int] == h@);
                    }
                }
                assert forall|g: Seq<char>| post.contains(g) implies exists|k: int| 0 <= k < nv.len() && #[trigger] nv[k].0 == g by {
                    let j = choose|j: int| 0 <= j < post.len() && post[j] == g;
                    if j < pre.len() {
                        assert(pre[j] == g);
                        assert(pre.contains(g));
                        let k = choose|k: int| 0 <= k < cv.len() && #[trigger] cv[k].0 == g;
                        assert(nv[k].0 == g);
                    } else {
                        assert(nv[cv.len() as int].0 == g);
                    }
                }
            }
        }
    }
    assert(hv.take(hints@.len() as int) =~= hv);
    sort_by_count(counts, Ghost(hv))
}

/// Orders the counts from most to least, keeping the order of equal ones.
fn sort_by_count(counts: Vec<(String, usize)>, Ghost(hv): Ghost<Seq<Seq<char>>>) -> (r: Vec<(String, usize)>)
    requires
        counts_all(count_views(counts@), hv),
        total(count_views(counts@)) == hv.len(),
    ensures
        counts_all(count_views(r@), hv),
        forall|i: int, j: int| 0 <= i < j < r@.len() ==> #[trigger] r@[i].1 >= #[trigger] r@[j].1,
        total(count_views(r@)) == hv.len(),
{
    let mut out: Vec<(String, usize)> = Vec::new();
    for k in 0..counts.len()
        invariant
            counts_all(count_views(counts@), hv),
            total(count_views(counts@)) == hv.len(),
            forall|i: int, j: int| 0 <= i < j < out@.len() ==> #[trigger] out@[i].1 >= #[trigger] out@[j].1,
            count_views(out@).to_multiset() == count_views(counts@).take(k as int).to_multiset(),
            total(count_views(out@)) == total(count_views(counts@).take(k as int)),
    {
        let x = (counts[k].0.clone(), counts[k].1);
        let mut p: usize = 0;
        while p < out.len() && out[p].1 >= x.1
            invariant
                p <= out@.len(),
                forall|q: int| 0 <= q < p ==> out@[q].1 >= x.1,
            decreases out@.len() - p,
        {
            p = p + 1;
        }
        let ghost before = out@;
        out.insert(p, x);
        proof {
            let xv = (x.0@, x.1 as nat);
            let cv = count_views(counts@);
            assert(count_views(out@) =~= count_views(before).insert(p as int, xv));
            assert(cv.take(k + 1) =~= cv.take(k as int).push(xv));
            assert(cv.take(k + 1).drop_last() =~= cv.take(k as int));
            vstd::seq_lib::to_multiset_insert(count_views(before), p as int, xv);
            vstd::seq_lib::to_multiset_build(cv.take(k as int), xv);
            lemma_total_insert(count_views(before), p as int, xv);
            assert forall|i: int, j: int| 0 <= i < j < out@.len() implies #[trigger] out@[i].1 >= #[trigger] out@[j].1 by {
                if j < p {
                } else if j == p {
                    assert(before[i].1 >= x.1);
                } else if i > p {
                    assert(out@[i] == before[i - 1] && out@[j] == before[j - 1]);
                } else if i == p {
                    assert(out@[j] == before[j - 1]);
                    assert(before[p as int].1 < x.1);
                } else {
                    assert(out@[j] == before[j - 1]);
                }
            }
        }
    }
    proof {
        let cv = count_views(counts@);
        let ov = count_views(out@);
        assert(cv.take(cv.len() as int) =~= cv);
        assert forall|a: (Seq<char>, nat)| cv.contains(a) <==> ov.contains(a) by {
            vstd::seq_lib::to_multiset_contains(cv, a);
            vstd::seq_lib::to_multiset_contains(ov, a);
        }
        assert forall|i: int| 0 <= i < ov.len() implies hv.contains(#[trigger] ov[i].0) && ov[i].1
            == occurrences(hv, ov[i].0) by {
            assert(ov.contains(ov[i]));
            let j = choose|j: int| 0 <= j < cv.len() && cv[j] == ov[i];
        }
        assert forall|h: Seq<char>| hv.contains(h) implies exists|i: int| 0 <= i < ov.len() && #[trigger] ov[i].0 == h by {
            let j = choose|j: int| 0 <= j < cv.len() && #[trigger] cv[j].0 == h;
            assert(cv.contains(cv[j]));
            let i = choose|i: int| 0 <= i < ov.len() && ov[i] == cv[j];
            assert(ov[i].0 == h);
        }
        assert forall|i: int, j: int| 0 <= i < j < ov.len() implies ov[i].0 != ov[j].0 by {
            if ov[i].0 == ov[j].0 {
                assert(ov[i].1 == occurrences(hv, ov[i].0));
                assert(ov[i] == ov[j]);
                assert(ov.to_multiset().count(ov[i]) >= 2) by {
                    lemma_count_two(ov, i, j);
                }
                assert(cv.to_multiset().count(ov[i]) <= 1) by {
                    lemma_count_distinct(cv, ov[i]);
                }
            }
        }
    }
    out
}

/// An element at two places counts at least twice.
proof fn lemma_count_two(s: Seq<(Seq<char>, nat)>, i: int, j: int)
    requires
        0 <= i < j < s.len(),
        s[i] == s[j],
    ensures
        s.to_multiset().count(s[i]) >= 2,
    decreases s.len(),
{
    broadcast use vstd::seq_lib::group_to_multiset_ensures;
    let t = s.drop_last();
    vstd::seq_lib::to_multiset_build(t, s.last());
    assert(t.push(s.last()) =~= s);
    if j < s.len() - 1 {
        lemma_count_two(t, i, j);
    } else {
        assert(t[i] == s[i]);
        vstd::seq_lib::to_multiset_contains(t, s[i]);
        assert(t.contains(s[i]));
    }
}

/// Where the names are distinct, an entry counts at most once.
proof fn lemma_count_distinct(s: Seq<(Seq<char>, nat)>, a: (Seq<char>, nat))
    requires
        forall|i: int, j: int| 0 <= i < j < s.len() ==> s[i].0 != s[j].0,
    ensures
        s.to_multiset().count(a) <= 1,
    decreases s.len(),
{
    broadcast use vstd::seq_lib::group_to_multiset_ensures;
    if s.len() > 0 {
        let t = s.drop_last();
        vstd::seq_lib::to_multiset_build(t, s.last());
        assert(t.push(s.last()) =~= s);
        lemma_count_distinct(t, a);
        if s.last() == a && t.to_multiset().count(a) > 0 {
            vstd::seq_lib::to_multiset_contains(t, a);
            let k = choose|k: int| 0 <= k < t.len() && t[k] == a;
            assert(s[k].0 == s[s.len() - 1].0);
        }
    }
}

} // verus!
