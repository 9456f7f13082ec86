//! Decisions of the continuous builder: which packages a runner builds, in
//! what order, from where it resumes, and what it does as time runs out.

use vstd::prelude::*;

use crate::text::{chars_of, has_prefix, starts_with_chars, string_of};

verus! {

broadcast use vstd::seq_lib::group_seq_properties;

// ── Ordering ────────────────────────────────────────────────────────────────

/// `a` comes before `b` or equals it, comparing characters by code point
/// from the left; a proper prefix comes first. This is the order of `str`,
/// whose UTF-8 bytes order as the code points do.
pub open spec fn lex_le(a: Seq<char>, b: Seq<char>) -> bool
    decreases a.len(),
{
    if a.len() == 0 {
        true
    } else if b.len() == 0 {
        false
    } else if a[0] != b[0] {
        a[0] < b[0]
    } else {
        lex_le(a.drop_first(), b.drop_first())
    }
}

pub proof fn lemma_lex_reflexive(a: Seq<char>)
    ensures
        lex_le(a, a),
    decreases a.len(),
{
    if a.len() > 0 {
        lemma_lex_reflexive(a.drop_first());
    }
}

pub proof fn lemma_lex_total(a: Seq<char>, b: Seq<char>)
    ensures
        lex_le(a, b) || lex_le(b, a),
    decreases a.len(),
{
    if a.len() > 0 && b.len() > 0 && a[0] == b[0] {
        lemma_lex_total(a.drop_first(), b.drop_first());
    }
}

pub proof fn lemma_lex_antisymmetric(a: Seq<char>, b: Seq<char>)
    requires
        lex_le(a, b),
        lex_le(b, a),
    ensures
        a == b,
    decreases a.len(),
{
    if a.len() > 0 && b.len() > 0 {
        lemma_lex_antisymmetric(a.drop_first(), b.drop_first());
        assert(a =~= seq![a[0]] + a.drop_first());
        assert(b =~= seq![b[0]] + b.drop_first());
    }
}

pub proof fn lemma_lex_transitive(a: Seq<char>, b: Seq<char>, c: Seq<char>)
    requires
        lex_le(a, b),
        lex_le(b, c),
    ensures
        lex_le(a, c),
    decreases a.len(),
{
    if a.len() > 0 && b.len() > 0 && c.len() > 0 && a[0] == b[0] && b[0] == c[0] {
        lemma_lex_transitive(a.drop_first(), b.drop_first(), c.drop_first());
    }
}

/// Whether `a` comes before `b` or equals it.
pub fn lex_le_exec(a: &[char], b: &[char]) -> (r: bool)
    ensures
        r == lex_le(a@, b@),
{
    let mut i: usize = 0;
    assert(a@.skip(0) =~= a@);
    assert(b@.skip(0) =~= b@);
    loop
        invariant
            i <= a@.len(),
            i <= b@.len(),
            lex_le(a@, b@) == lex_le(a@.skip(i as int), b@.skip(i as int)),
        decreases a@.len() - i,
    {
        if i == a.len() {
            return true;
        }
        if i == b.len() {
            return false;
        }
        assert(a@.skip(i as int)[0] == a@[i as int]);
        assert(b@.skip(i as int)[0] == b@[i as int]);
        if a[i] != b[i] {
            return a[i] < b[i];
        }
        assert(a@.skip(i as int).drop_first() =~= a@.skip(i + 1));
        assert(b@.skip(i as int).drop_first() =~= b@.skip(i + 1));
        i = i + 1;
    }
}

/// The build order: curated packages first, then by name.
pub open spec fn build_le(x: (Seq<char>, bool), y: (Seq<char>, bool)) -> bool {
    (x.1 && !y.1) || (x.1 == y.1 && lex_le(x.0, y.0))
}

pub proof fn lemma_build_le_total(x: (Seq<char>, bool), y: (Seq<char>, bool))
    ensures
        build_le(x, y) || build_le(y, x),
{
    lemma_lex_total(x.0, y.0);
}

pub proof fn lemma_build_le_transitive(
    x: (Seq<char>, bool),
    y: (Seq<char>, bool),
    z: (Seq<char>, bool),
)
    requires
        build_le(x, y),
        build_le(y, z),
    ensures
        build_le(x, z),
{
    if x.1 == y.1 && y.1 == z.1 {
        lemma_lex_transitive(x.0, y.0, z.0);
    }
}

pub proof fn lemma_build_le_antisymmetric(x: (Seq<char>, bool), y: (Seq<char>, bool))
    requires
        build_le(x, y),
        build_le(y, x),
    ensures
        x == y,
{
    lemma_lex_antisymmetric(x.0, y.0);
}

/// Each package comes before or with every later one.
pub open spec fn in_build_order(s: Seq<(Seq<char>, bool)>) -> bool {
    forall|i: int, j: int| 0 <= i < j < s.len() ==> #[trigger] build_le(s[i], s[j])
}

/// Names and curation flags as character sequences.
pub open spec fn ranked_views(v: Seq<(String, bool)>) -> Seq<(Seq<char>, bool)> {
    v.map_values(|e: (String, bool)| (e.0@, e.1))
}

fn build_le_exec(x: &(String, bool), y: &(String, bool)) -> (r: bool)
    ensures
        r == build_le((x.0@, x.1), (y.0@, y.1)),
{
    if x.1 && !y.1 {
        return true;
    }
    if x.1 != y.1 {
        return false;
    }
    let a = chars_of(x.0.as_str());
    let b = chars_of(y.0.as_str());
    lex_le_exec(&a, &b)
}

/// Sorts the packages: curated ones first, then alphabetically by name.
pub fn order_packages(entries: Vec<(String, bool)>) -> (r: Vec<(String, bool)>)
    ensures
        in_build_order(ranked_views(r@)),
        ranked_views(r@).to_multiset() == ranked_views(entries@).to_multiset(),
        forall|i: int, j: int| 0 <= i < j < r@.len() && #[trigger] r@[j].1 ==> #[trigger] r@[i].1,
{
    let mut out: Vec<(String, bool)> = Vec::new();
    for k in 0..entries.len()
        invariant
            in_build_order(ranked_views(out@)),
            ranked_views(out@).to_multiset() == ranked_views(entries@).take(k as int).to_multiset(),
    {
        let x = (entries[k].0.clone(), entries[k].1);
        let ghost xv = (x.0@, x.1);
        let ghost s = ranked_views(out@);
        let mut p: usize = 0;
        while p < out.len() && build_le_exec(&out[p], &x)
            invariant
                p <= out@.len(),
                s == ranked_views(out@),
                xv == (x.0@, x.1),
                forall|j: int| 0 <= j < p ==> build_le(#[trigger] s[j], xv),
            decreases out@.len() - p,
        {
            p = p + 1;
        }
        out.insert(p, x);
        proof {
            let t = ranked_views(out@);
            assert(t =~= s.insert(p as int, xv));
            assert forall|i: int, j: int| 0 <= i < j < t.len() implies #[trigger] build_le(t[i], t[j]) by {
                if j < p {
                } else if j == p {
                } else if i > p {
                    assert(t[i] == s[i - 1] && t[j] == s[j - 1]);
                } else if i == p {
                    assert(!build_le(s[p as int], xv));
                    lemma_build_le_total(s[p as int], xv);
                    if j - 1 > p {
                        lemma_build_le_transitive(xv, s[p as int], s[j - 1]);
                    }
                } else {
                    assert(t[j] == s[j - 1]);
                }
            }
            assert(ranked_views(entries@).take(k + 1) =~= ranked_views(entries@).take(k as int).push(xv));
            vstd::seq_lib::to_multiset_insert(s, p as int, xv);
            vstd::seq_lib::to_multiset_build(ranked_views(entries@).take(k as int), xv);
        }
    }
    assert(ranked_views(entries@).take(entries@.len() as int) =~= ranked_views(entries@));
    proof {
        let t = ranked_views(out@);
        assert forall|i: int, j: int| 0 <= i < j < out@.len() && #[trigger] out@[j].1 implies #[trigger] out@[i].1 by {
            assert(build_le(t[i], t[j]));
        }
    }
    out
}

/// Two lists in build order that hold the same packages are the same list:
/// the order leaves nothing open.
pub proof fn lemma_build_order_unique(x: Seq<(Seq<char>, bool)>, y: Seq<(Seq<char>, bool)>)
    requires
        in_build_order(x),
        in_build_order(y),
        x.to_multiset() == y.to_multiset(),
    ensures
        x == y,
{
    let leq = |a: (Seq<char>, bool), b: (Seq<char>, bool)| build_le(a, b);
    assert(vstd::relations::total_ordering(leq)) by {
        assert forall|a: (Seq<char>, bool)| #[trigger] leq(a, a) by {
            lemma_lex_reflexive(a.0);
        }
        assert forall|a: (Seq<char>, bool), b: (Seq<char>, bool)|
            #[trigger] leq(a, b) && #[trigger] leq(b, a) implies a == b by {
            lemma_build_le_antisymmetric(a, b);
        }
        assert forall|a: (Seq<char>, bool), b: (Seq<char>, bool), c: (Seq<char>, bool)|
            #[trigger] leq(a, b) && #[trigger] leq(b, c) implies leq(a, c) by {
            lemma_build_le_transitive(a, b, c);
        }
        assert forall|a: (Seq<char>, bool), b: (Seq<char>, bool)|
            #[trigger] leq(a, b) || #[trigger] leq(b, a) by {
            lemma_build_le_total(a, b);
        }
    }
    assert(vstd::relations::sorted_by(x, leq)) by {
        assert forall|i: int, j: int| 0 <= i < j < x.len() implies #[trigger] leq(x[i], x[j]) by {
            assert(build_le(x[i], x[j]));
        }
    }
    assert(vstd::relations::sorted_by(y, leq)) by {
        assert forall|i: int, j: int| 0 <= i < j < y.len() implies #[trigger] leq(y[i], y[j]) by {
            assert(build_le(y[i], y[j]));
        }
    }
    vstd::seq_lib::lemma_sorted_unique(x, y, leq);
}

// ── Runner partition ────────────────────────────────────────────────────────

/// The names of a list of packages.
pub open spec fn names(v: Seq<String>) -> Seq<Seq<char>> {
    v.map_values(|s: String| s@)
}

/// A runner's share of the sorted list: runner 1 takes the first half,
/// rounded up, in order; runner 2 the rest, from the end backwards; any
/// other runner nothing.
pub open spec fn runner_share_of(s: Seq<Seq<char>>, runner_id: u8) -> Option<Seq<Seq<char>>> {
    let mid = (s.len() + 1) / 2;
    if runner_id == 1 {
        Some(s.take(mid as int))
    } else if runner_id == 2 {
        Some(s.skip(mid as int).reverse())
    } else {
        None
    }
}

/// The packages that runner `runner_id` works on; `None` for a runner other
/// than 1 or 2.
pub fn runner_share(packages: Vec<String>, runner_id: u8) -> (r: Option<Vec<String>>)
    ensures
        match r {
            Some(v) => runner_share_of(names(packages@), runner_id) == Some(names(v@)),
            None => runner_share_of(names(packages@), runner_id) is None,
        },
{
    let mut packages = packages;
    let ghost all = names(packages@);
    let n = packages.len();
    let mid = n / 2 + n % 2;
    assert(mid == (n + 1) / 2);
    if runner_id == 1 {
        packages.truncate(mid);
        assert(names(packages@) =~= all.take(mid as int));
        Some(packages)
    } else if runner_id == 2 {
        let mut out: Vec<String> = Vec::new();
        while packages.len() > mid
            invariant
                mid <= packages@.len() <= n,
                n == all.len(),
                names(packages@) == all.take(packages@.len() as int),
                names(out@) == all.skip(packages@.len() as int).reverse(),
            decreases packages@.len(),
        {
            let ghost len_before = packages@.len();
            let last = packages.pop().unwrap();
            let ghost before_out = out@;
            out.push(last);
            proof {
                assert(all[len_before - 1] == last@) by {
                    assert(all.take(len_before as int)[len_before - 1] == last@);
                }
                assert(names(packages@) =~= all.take(packages@.len() as int));
                assert(names(out@) =~= names(before_out).push(last@));
                assert(all.skip(packages@.len() as int).reverse() =~= all.skip(
                    len_before as int,
                ).reverse().push(last@));
            }
        }
        Some(out)
    } else {
        None
    }
}

/// The two runners' shares put together, the second reversed back, are the
/// whole list; the first runner's share is never smaller, and at most one
/// longer.
pub proof fn lemma_runner_shares_cover(s: Seq<Seq<char>>)
    ensures
        runner_share_of(s, 1).unwrap() + runner_share_of(s, 2).unwrap().reverse() == s,
        runner_share_of(s, 1).unwrap().len() == runner_share_of(s, 2).unwrap().len()
            || runner_share_of(s, 1).unwrap().len() == runner_share_of(s, 2).unwrap().len() + 1,
        runner_share_of(s, 0) is None,
{
    let mid = (s.len() + 1) / 2;
    assert(s.skip(mid as int).reverse().reverse() =~= s.skip(mid as int));
    assert(s.take(mid as int) + s.skip(mid as int) =~= s);
}

/// The list with only the target package, where it is one of them; `None`
/// where it is not.
pub open spec fn target_selection(s: Seq<Seq<char>>, target: Option<Seq<char>>) -> Option<Seq<Seq<char>>> {
    match target {
        None => Some(s),
        Some(t) => if s.contains(t) {
            Some(seq![t])
        } else {
            None
        },
    }
}

/// Narrows the list to the one package asked for, where one is; `None` where
/// the package is not in this runner's list.
pub fn select_target(packages: Vec<String>, target: &Option<String>) -> (r: Option<Vec<String>>)
    ensures
        match r {
            Some(v) => target_selection(names(packages@), opt_view(*target)) == Some(names(v@)),
            None => target_selection(names(packages@), opt_view(*target)) is None,
        },
{
    match target {
        None => Some(packages),
        Some(t) => {
            let mut found = false;
            for i in 0..packages.len()
                invariant
                    !found ==> forall|j: int| 0 <= j < i ==> packages@[j]@ != t@,
                    found ==> names(packages@).contains(t@),
            {
                if packages[i] == *t {
                    found = true;
                    assert(names(packages@)[i as int] == t@);
                }
            }
            if found {
                let v: Vec<String> = vec![t.clone()];
                assert(names(v@) =~= seq![t@]);
                Some(v)
            } else {
                assert(!names(packages@).contains(t@)) by {
                    if names(packages@).contains(t@) {
                        let j = choose|j: int| 0 <= j < names(packages@).len() && names(packages@)[j] == t@;
                        assert(packages@[j]@ == t@);
                    }
                }
                None
            }
        },
    }
}

/// The view of an optional string.
pub open spec fn opt_view(o: Option<String>) -> Option<Seq<char>> {
    match o {
        Some(s) => Some(s@),
        None => None,
    }
}

/// Where the loop starts: just after the package it finished last, where
/// that is in the list (its first place); at the start where it is not, where
/// no package was finished, or where only one package is built.
pub open spec fn resume_at(s: Seq<Seq<char>>, last: Option<Seq<char>>, single: bool) -> int {
    match last {
        Some(l) => if !single && s.contains(l) {
            let p = choose|p: int| 0 <= p < s.len() && s[p] == l && forall|q: int| 0 <= q < p ==> s[q] != l;
            (p + 1) % (s.len() as int)
        } else {
            0
        },
        None => 0,
    }
}

/// The first place of `l` in `s`.
pub proof fn lemma_first_place(s: Seq<Seq<char>>, l: Seq<char>)
    requires
        s.contains(l),
    ensures
        exists|p: int| 0 <= p < s.len() && s[p] == l && forall|q: int| 0 <= q < p ==> s[q] != l,
    decreases s.len(),
{
    if s[0] == l {
        assert(0 <= 0 < s.len() && s[0] == l && forall|q: int| 0 <= q < 0 ==> s[q] != l);
    } else {
        let t = s.drop_first();
        let k = choose|k: int| 0 <= k < s.len() && s[k] == l;
        assert(t[k - 1] == l);
        lemma_first_place(t, l);
        let p = choose|p: int| 0 <= p < t.len() && t[p] == l && forall|q: int| 0 <= q < p ==> t[q] != l;
        assert forall|q: int| 0 <= q < p + 1 implies s[q] != l by {
            if q > 0 {
                assert(s[q] == t[q - 1]);
            }
        }
        assert(s[p + 1] == l);
    }
}

/// The first place of `name` in the list, where it is there.
pub fn first_position(packages: &Vec<String>, name: &String) -> (r: Option<usize>)
    ensures
        match r {
            Some(p) => p < packages@.len() && packages@[p as int]@ == name@ && forall|q: int|
                0 <= q < p ==> packages@[q]@ != name@,
            None => !names(packages@).contains(name@),
        },
{
    for i in 0..packages.len()
        invariant
            forall|q: int| 0 <= q < i ==> packages@[q]@ != name@,
    {
        if packages[i] == *name {
            return Some(i);
        }
    }
    proof {
        let s = names(packages@);
        if s.contains(name@) {
            let j = choose|j: int| 0 <= j < s.len() && s[j] == name@;
            assert(packages@[j]@ == name@);
        }
    }
    None
}

/// The index the build loop starts from.
pub fn resume_index(packages: &Vec<String>, last: &Option<String>, single: bool) -> (r: usize)
    requires
        packages@.len() > 0,
    ensures
        r == resume_at(names(packages@), opt_view(*last), single),
        r < packages@.len(),
{
    let n = packages.len();
    if single {
        return 0;
    }
    match last {
        None => 0,
        Some(l) => {
            for i in 0..n
                invariant
                    n == packages@.len(),
                    !single,
                    opt_view(*last) == Some(l@),
                    forall|q: int| 0 <= q < i ==> packages@[q]@ != l@,
            {
                if packages[i] == *l {
                    proof {
                        let s = names(packages@);
                        assert(s[i as int] == l@);
                        lemma_first_place(s, l@);
                        let p = choose|p: int| 0 <= p < s.len() && s[p] == l@ && forall|q: int| 0 <= q < p ==> s[q] != l@;
                        if p < i {
                            assert(packages@[p]@ == l@);
                        } else if p > i {
                            assert(s[i as int] != l@);
                        }
                    }
                    return (i + 1) % n;
                }
            }
            proof {
                let s = names(packages@);
                if s.contains(l@) {
                    let j = choose|j: int| 0 <= j < s.len() && s[j] == l@;
                    assert(packages@[j]@ == l@);
                }
            }
            0
        },
    }
}

// ── Names and paths ─────────────────────────────────────────────────────────

/// The short architecture folder for a system: `x86` for systems that start
/// so, `aarch64` for all others.
pub open spec fn arch_folder_of(system: Seq<char>) -> Seq<char> {
    if has_prefix(system, "x86"@) {
        "x86"@
    } else {
        "aarch64"@
    }
}

/// Maps a system to the architecture folder used under `failed_apps/`.
pub fn arch_folder(system: &str) -> (r: &'static str)
    ensures
        r@ == arch_folder_of(system@),
{
    let s = chars_of(system);
    let x = chars_of("x86");
    if starts_with_chars(&s, &x) {
        "x86"
    } else {
        "aarch64"
    }
}

/// The character of a decimal digit.
pub open spec fn digit_char(d: nat) -> char {
    if d == 0 {
        '0'
    } else if d == 1 {
        '1'
    } else if d == 2 {
        '2'
    } else if d == 3 {
        '3'
    } else if d == 4 {
        '4'
    } else if d == 5 {
        '5'
    } else if d == 6 {
        '6'
    } else if d == 7 {
        '7'
    } else if d == 8 {
        '8'
    } else {
        '9'
    }
}

/// The decimal digits of `n`, most significant first, without leading zeros.
pub open spec fn decimal(n: nat) -> Seq<char>
    decreases n,
{
    if n < 10 {
        seq![digit_char(n)]
    } else {
        decimal(n / 10).push(digit_char(n % 10))
    }
}

fn digit_exec(d: u64) -> (c: char)
    requires
        d < 10,
    ensures
        c == digit_char(d as nat),
{
    if d == 0 {
        '0'
    } else if d == 1 {
        '1'
    } else if d == 2 {
        '2'
    } else if d == 3 {
        '3'
    } else if d == 4 {
        '4'
    } else if d == 5 {
        '5'
    } else if d == 6 {
        '6'
    } else if d == 7 {
        '7'
    } else if d == 8 {
        '8'
    } else {
        '9'
    }
}

/// The decimal digits of `n`.
pub fn decimal_chars(n: u64) -> (v: Vec<char>)
    ensures
        v@ == decimal(n as nat),
    decreases n,
{
    if n < 10 {
        vec![digit_exec(n)]
    } else {
        let mut v = decimal_chars(n / 10);
        v.push(digit_exec(n % 10));
        v
    }
}

/// The state file of a runner, the same on the local disk and on the remote.
pub open spec fn state_filename_of(system: Seq<char>, runner_id: u8) -> Seq<char> {
    "github_runners_state/state-"@ + system + "-runner"@ + decimal(runner_id as nat) + ".json"@
}

/// Each runner keeps its own state file under `github_runners_state/`.
pub fn state_filename(system: &str, runner_id: u8) -> (r: String)
    ensures
        r@ == state_filename_of(system@, runner_id),
{
    let mut r = String::from_str("github_runners_state/state-");
    r.append(system);
    r.append("-runner");
    r.append(string_of(&decimal_chars(runner_id as u64)).as_str());
    r.append(".json");
    r
}

proof fn lemma_decimal_nonempty(n: nat)
    ensures
        decimal(n).len() >= 1,
        n >= 10 ==> decimal(n).len() >= 2,
    decreases n,
{
    if n >= 10 {
        lemma_decimal_nonempty(n / 10);
    }
}

proof fn lemma_digit_injective(n: nat, m: nat)
    requires
        n < 10,
        m < 10,
        digit_char(n) == digit_char(m),
    ensures
        n == m,
{
    assert(('0' as u32) == 48 && ('1' as u32) == 49 && ('2' as u32) == 50 && ('3' as u32) == 51
        && ('4' as u32) == 52 && ('5' as u32) == 53 && ('6' as u32) == 54 && ('7' as u32) == 55
        && ('8' as u32) == 56 && ('9' as u32) == 57);
}

/// Different numbers have different decimal forms.
pub proof fn lemma_decimal_injective(n: nat, m: nat)
    requires
        decimal(n) == decimal(m),
    ensures
        n == m,
    decreases n,
{
    lemma_decimal_nonempty(n);
    lemma_decimal_nonempty(m);
    if n >= 10 && m >= 10 {
        let a = decimal(n);
        let b = decimal(m);
        assert(a.drop_last() == decimal(n / 10));
        assert(b.drop_last() == decimal(m / 10));
        assert(a.last() == b.last());
        assert(n % 10 == m % 10);
        lemma_decimal_injective(n / 10, m / 10);
        assert(n / 10 == m / 10);
        assert(n == 10 * (n / 10) + n % 10);
        assert(m == 10 * (m / 10) + m % 10);
    } else if n < 10 && m < 10 {
        assert(decimal(n) == seq![digit_char(n)]);
        assert(decimal(m) == seq![digit_char(m)]);
        assert(decimal(n)[0] == digit_char(n));
        assert(decimal(m)[0] == digit_char(m));
        lemma_digit_injective(n, m);
    } else {
        assert(decimal(n).len() != decimal(m).len());
    }
}

/// Two runners of one system never share a state file.
pub proof fn lemma_state_files_distinct(system: Seq<char>, r1: u8, r2: u8)
    requires
        r1 != r2,
    ensures
        state_filename_of(system, r1) != state_filename_of(system, r2),
{
    let head = "github_runners_state/state-"@ + system + "-runner"@;
    let d1 = decimal(r1 as nat);
    let d2 = decimal(r2 as nat);
    let tail = ".json"@;
    reveal_strlit(".json");
    if state_filename_of(system, r1) == state_filename_of(system, r2) {
        let f1 = head + d1 + tail;
        let f2 = head + d2 + tail;
        assert(f1.len() == f2.len());
        assert(d1.len() == d2.len());
        assert forall|i: int| 0 <= i < d1.len() implies d1[i] == d2[i] by {
            assert(f1[head.len() + i] == d1[i]);
            assert(f2[head.len() + i] == d2[i]);
        }
        assert(d1 =~= d2);
        lemma_decimal_injective(r1 as nat, r2 as nat);
    }
}

/// `remote`, a slash, and `path`: where `path` lives on the remote.
pub fn remote_path(remote: &str, path: &str) -> (r: String)
    ensures
        r@ == remote@ + "/"@ + path@,
{
    let mut r = String::from_str(remote);
    r.append("/");
    r.append(path);
    r
}

/// The flake output that builds `pkg`, and the one with fixed icons.
pub fn build_target(pkg: &str, fixed: bool) -> (r: String)
    ensures
        r@ == if fixed {
            ".#"@ + pkg@ + "-fixed"@
        } else {
            ".#"@ + pkg@
        },
{
    let mut r = String::from_str(".#");
    r.append(pkg);
    if fixed {
        r.append("-fixed");
    }
    r
}

/// A runner's list of failed apps for an architecture.
pub fn failed_shard_path(arch: &str, runner_id: u8) -> (r: String)
    ensures
        r@ == "failed_apps/"@ + arch@ + "/runner"@ + decimal(runner_id as nat) + ".txt"@,
{
    let mut r = String::from_str("failed_apps/");
    r.append(arch);
    r.append("/runner");
    r.append(string_of(&decimal_chars(runner_id as u64)).as_str());
    r.append(".txt");
    r
}

/// The line recorded for a failed package: its name and, in brackets, its
/// application ID.
pub fn failed_line(pkg: &str, app_id: &str) -> (r: String)
    ensures
        r@ == pkg@ + " ("@ + app_id@ + ")"@,
{
    let mut r = String::from_str(pkg);
    r.append(" (");
    r.append(app_id);
    r.append(")");
    r
}

/// The name of the log of a failed package, `{app_id}_{system}.log`, in
/// `dir`.
pub fn failed_log_path(dir: &str, app_id: &str, system: &str) -> (r: String)
    ensures
        r@ == dir@ + "/"@ + app_id@ + "_"@ + system@ + ".log"@,
{
    let mut r = String::from_str(dir);
    r.append("/");
    r.append(app_id);
    r.append("_");
    r.append(system);
    r.append(".log");
    r
}

// ── Time budget ─────────────────────────────────────────────────────────────

/// Nanoseconds in a second.
pub const NANOS_PER_SEC: u64 = 1_000_000_000;

/// The whole run may take six hours.
pub const RUN_LIMIT_SECS: u64 = 21600;

/// A package's build may take three hours.
pub const BUILD_LIMIT_SECS: u64 = 10800;

/// No new package starts with less than 3h15m left.
pub const START_GUARD_SECS: u64 = 11700;

/// The last twenty minutes are kept free.
pub const SAFETY_MARGIN_SECS: u64 = 1200;

/// No upload starts with less than an hour left.
pub const UPLOAD_GUARD_SECS: u64 = 3600;

/// Whole seconds left of a budget of `budget_secs` after `elapsed_ns`
/// nanoseconds, as `Duration::saturating_sub` then `as_secs` count them.
pub open spec fn secs_left(elapsed_ns: nat, budget_secs: nat) -> nat {
    if elapsed_ns >= budget_secs * 1_000_000_000 {
        0
    } else {
        ((budget_secs * 1_000_000_000 - elapsed_ns) / 1_000_000_000) as nat
    }
}

fn secs_left_exec(elapsed_ns: u64, budget_secs: u64) -> (r: u64)
    requires
        budget_secs <= RUN_LIMIT_SECS,
    ensures
        r == secs_left(elapsed_ns as nat, budget_secs as nat),
{
    let budget_ns = budget_secs * NANOS_PER_SEC;
    if elapsed_ns >= budget_ns {
        0
    } else {
        (budget_ns - elapsed_ns) / NANOS_PER_SEC
    }
}

/// Whole seconds left of the six hours after `elapsed_ns`.
pub fn remaining_secs(elapsed_ns: u64) -> (r: u64)
    ensures
        r == secs_left(elapsed_ns as nat, RUN_LIMIT_SECS as nat),
{
    secs_left_exec(elapsed_ns, RUN_LIMIT_SECS)
}

/// A new package may start: the runner's budget of `budget_ns` nanoseconds
/// (its `max_minutes`) is not used up, and at least 3h15m of the six hours
/// are left for the build and its upload.
pub open spec fn may_start(elapsed_ns: nat, budget_ns: nat) -> bool {
    elapsed_ns < budget_ns && secs_left(elapsed_ns, RUN_LIMIT_SECS as nat) >= START_GUARD_SECS
}

/// Whether a package may start after `elapsed_ns`, within a budget of
/// `budget_ns`.
pub fn may_start_package(elapsed_ns: u64, budget_ns: u64) -> (b: bool)
    ensures
        b == may_start(elapsed_ns as nat, budget_ns as nat),
{
    elapsed_ns < budget_ns && remaining_secs(elapsed_ns) >= START_GUARD_SECS
}

/// Whether the run has reached the last twenty minutes, and must stop
/// without saving its place.
pub fn past_safety_margin(elapsed_ns: u64) -> (b: bool)
    ensures
        b == (secs_left(elapsed_ns as nat, RUN_LIMIT_SECS as nat) <= SAFETY_MARGIN_SECS),
{
    remaining_secs(elapsed_ns) <= SAFETY_MARGIN_SECS
}

/// Whether less than an hour is left, so that the upload is skipped and the
/// package retried next run.
pub fn too_late_to_upload(elapsed_ns: u64) -> (b: bool)
    ensures
        b == (secs_left(elapsed_ns as nat, RUN_LIMIT_SECS as nat) < UPLOAD_GUARD_SECS),
{
    remaining_secs(elapsed_ns) < UPLOAD_GUARD_SECS
}

/// The timeout of an upload: the time left before the last twenty minutes.
pub fn upload_timeout_secs(elapsed_ns: u64) -> (r: u64)
    ensures
        r == secs_left(elapsed_ns as nat, (RUN_LIMIT_SECS - SAFETY_MARGIN_SECS) as nat),
{
    secs_left_exec(elapsed_ns, RUN_LIMIT_SECS - SAFETY_MARGIN_SECS)
}

/// The timeout of a build: the lesser of what is left of the package's three
/// hours and of the time before the last twenty minutes.
pub fn build_timeout_secs(package_ns: u64, elapsed_ns: u64) -> (r: u64)
    ensures
        ({
            let pkg_secs = package_ns as nat / 1_000_000_000;
            let left_3h = if pkg_secs >= BUILD_LIMIT_SECS {
                0
            } else {
                (BUILD_LIMIT_SECS - pkg_secs) as nat
            };
            let left_6h = secs_left(elapsed_ns as nat, (RUN_LIMIT_SECS - SAFETY_MARGIN_SECS) as nat);
            r == if left_3h <= left_6h {
                left_3h
            } else {
                left_6h
            }
        }),
        r <= BUILD_LIMIT_SECS,
{
    let pkg_secs = package_ns / NANOS_PER_SEC;
    let left_3h = if pkg_secs >= BUILD_LIMIT_SECS {
        0
    } else {
        BUILD_LIMIT_SECS - pkg_secs
    };
    let left_6h = upload_timeout_secs(elapsed_ns);
    if left_3h <= left_6h {
        left_3h
    } else {
        left_6h
    }
}

/// Whether to try the `-fixed` variant: the build failed before the
/// three-hour cap could have stopped it.
pub fn retry_with_fixed(build_ok: bool, package_ns: u64) -> (b: bool)
    ensures
        b == (!build_ok && package_ns / NANOS_PER_SEC < BUILD_LIMIT_SECS - 10),
{
    !build_ok && package_ns / NANOS_PER_SEC < BUILD_LIMIT_SECS - 10
}

/// Whether a failed build ran into the three-hour cap.
pub fn build_timed_out(package_ns: u64) -> (b: bool)
    ensures
        b == (package_ns / NANOS_PER_SEC >= BUILD_LIMIT_SECS - 30),
{
    package_ns / NANOS_PER_SEC >= BUILD_LIMIT_SECS - 30
}

/// Whether a launch test is run: the build succeeded and the package has an
/// application ID.
pub fn needs_launch_test(build_ok: bool, app_id: &str) -> (b: bool)
    ensures
        b == (build_ok && app_id@.len() > 0),
{
    build_ok && !app_id.is_empty()
}

/// An exit status that counts as surviving the launch test: a clean exit,
/// a timeout (124), or termination (137, 143); a missing code counts as 0.
pub open spec fn survived(code: Option<i32>) -> bool {
    let c = match code {
        Some(c) => c,
        None => 0,
    };
    c == 0 || c == 124 || c == 137 || c == 143
}

/// How the launch test went.
pub enum LaunchReport {
    /// The test ran and exited with this code, if it had one.
    Exited(Option<i32>),
    /// The test could not be run.
    NotRun,
}

/// What a package's attempt comes to.
pub enum Judgement {
    /// Built, and launched or needed no launch.
    Passed,
    /// Built, but the launch test failed or could not run.
    Crashed,
    /// The build ran into the three-hour cap.
    TimedOut,
    /// The build failed quickly; the package is passed over quietly.
    Skipped,
}

/// Judges an attempt from whether the build succeeded, how its launch test
/// went (`None` where none was run), and how long the package took.
pub fn judge_attempt(build_ok: bool, launch: &Option<LaunchReport>, package_ns: u64) -> (j: Judgement)
    ensures
        build_ok ==> match launch {
            None => j is Passed,
            Some(LaunchReport::Exited(code)) => if survived(*code) {
                j is Passed
            } else {
                j is Crashed
            },
            Some(LaunchReport::NotRun) => j is Crashed,
        },
        !build_ok ==> if package_ns / NANOS_PER_SEC >= BUILD_LIMIT_SECS - 30 {
            j is TimedOut
        } else {
            j is Skipped
        },
{
    if build_ok {
        match launch {
            None => Judgement::Passed,
            Some(LaunchReport::Exited(code)) => {
                let c: i32 = match code {
                    Some(c) => *c,
                    None => 0,
                };
                if c == 0 || c == 124 || c == 137 || c == 143 {
                    Judgement::Passed
                } else {
                    Judgement::Crashed
                }
            },
            Some(LaunchReport::NotRun) => Judgement::Crashed,
        }
    } else if build_timed_out(package_ns) {
        Judgement::TimedOut
    } else {
        Judgement::Skipped
    }
}

/// The log of a crashed launch: its output, a separator line, its errors.
pub fn crash_log(stdout: &str, stderr: &str) -> (r: String)
    ensures
        r@ == stdout@ + "\n--- STDERR ---\n"@ + stderr@,
{
    let mut r = String::from_str(stdout);
    r.append("\n--- STDERR ---\n");
    r.append(stderr);
    r
}

/// The log of a build stopped by the three-hour cap.
pub fn timeout_log() -> (r: String)
    ensures
        r@ == "Build exceeded 3 hour limit and was stopped."@,
{
    String::from_str("Build exceeded 3 hour limit and was stopped.")
}

// ── The build loop ──────────────────────────────────────────────────────────

/// Where the endless build loop stands: the packages of this runner, the one
/// to build next, how many starts since the last garbage collection, and
/// whether only one package is built.
pub struct BuildLoop {
    packages: Vec<String>,
    idx: usize,
    since_gc: u8,
    single: bool,
}

/// The loop's state, with names as character sequences.
pub struct LoopState {
    pub packages: Seq<Seq<char>>,
    pub idx: int,
    pub since_gc: int,
    pub single: bool,
}

impl View for BuildLoop {
    type V = LoopState;

    closed spec fn view(&self) -> LoopState {
        LoopState {
            packages: names(self.packages@),
            idx: self.idx as int,
            since_gc: self.since_gc as int,
            single: self.single,
        }
    }
}

/// The counter of starts since the last garbage collection after one more
/// start, and whether that start collects.
pub open spec fn gc_step(since_gc: int, single: bool) -> (int, bool) {
    if single {
        (since_gc, false)
    } else if since_gc >= 5 {
        (0, true)
    } else {
        (since_gc + 1, false)
    }
}

/// What the loop does next with a package.
pub struct PackageStart {
    /// The package's name.
    pub name: String,
    /// Its place in the list, counting from 1.
    pub ordinal: usize,
    /// The length of the list.
    pub total: usize,
    /// Whether to collect garbage before the build.
    pub collect_garbage: bool,
}

impl BuildLoop {
    #[verifier::type_invariant]
    closed spec fn well_formed(self) -> bool {
        &&& self.packages@.len() > 0
        &&& self.idx < self.packages@.len()
        &&& self.since_gc <= 5
    }

    /// The loop is in a state it can be in: a non-empty list, an index in
    /// it, and at most five starts since the last garbage collection.
    pub open spec fn valid(s: LoopState) -> bool {
        &&& s.packages.len() > 0
        &&& 0 <= s.idx < s.packages.len()
        &&& 0 <= s.since_gc <= 5
    }

    /// Every loop satisfies [`BuildLoop::valid`].
    pub fn ensure_valid(&self)
        ensures
            Self::valid(self@),
    {
        proof {
            use_type_invariant(self);
        }
    }

    /// Starts the loop over `packages` just after `last`, the package the
    /// previous run finished, as [`resume_at`] says; `None` where there are
    /// no packages.
    pub fn start(packages: Vec<String>, last: &Option<String>, single: bool) -> (r: Option<
        BuildLoop,
    >)
        ensures
            packages@.len() == 0 <==> r is None,
            r matches Some(l) ==> l@ == (LoopState {
                packages: names(packages@),
                idx: resume_at(names(packages@), opt_view(*last), single),
                since_gc: 0,
                single,
            }),
    {
        if packages.len() == 0 {
            return None;
        }
        let idx = resume_index(&packages, last, single);
        Some(BuildLoop { packages, idx, since_gc: 0, single })
    }

    /// The place of the package to build next.
    pub fn position(&self) -> (r: usize)
        ensures
            r == self@.idx,
    {
        self.idx
    }

    /// Begins the next package where the runner's budget of `budget_ns` is
    /// not used up and at least 3h15m are left of the six hours; `None` where
    /// the loop must stop. Outside the single-package mode, every sixth
    /// start collects garbage.
    pub fn begin(&mut self, elapsed_ns: u64, budget_ns: u64) -> (r: Option<PackageStart>)
        ensures
            Self::valid(final(self)@),
            !may_start(elapsed_ns as nat, budget_ns as nat) ==> r is None && final(self)@ == old(
                self,
            )@,
            elapsed_ns >= budget_ns ==> r is None,
            may_start(elapsed_ns as nat, budget_ns as nat) ==> (r matches Some(
                p,
            ) && p.name@ == old(self)@.packages[old(self)@.idx] && p.ordinal == old(self)@.idx + 1
                && p.total == old(self)@.packages.len() && p.collect_garbage == gc_step(
                old(self)@.since_gc,
                old(self)@.single,
            ).1 && final(self)@ == (LoopState {
                since_gc: gc_step(old(self)@.since_gc, old(self)@.single).0,
                ..old(self)@
            })),
    {
        proof {
            use_type_invariant(&*self);
        }
        if !may_start_package(elapsed_ns, budget_ns) {
            return None;
        }
        let n = self.packages.len();
        let name = self.packages[self.idx].clone();
        let collect = !self.single && self.since_gc >= 5;
        if !self.single {
            if self.since_gc >= 5 {
                self.since_gc = 0;
            } else {
                self.since_gc = self.since_gc + 1;
            }
        }
        Some(
            PackageStart {
                name,
                ordinal: self.idx + 1,
                total: n,
                collect_garbage: collect,
            },
        )
    }

    /// Finishes the current package: in the single-package mode the loop
    /// stops (`None`) and keeps its place; otherwise the package is the one
    /// to remember, and the loop moves on to the next, after the last the
    /// first.
    pub fn finish(&mut self) -> (r: Option<String>)
        ensures
            Self::valid(final(self)@),
            old(self)@.single ==> r is None && final(self)@ == old(self)@,
            !old(self)@.single ==> (r matches Some(name) && name@ == old(self)@.packages[old(
                self,
            )@.idx] && final(self)@ == (LoopState {
                idx: (old(self)@.idx + 1) % (old(self)@.packages.len() as int),
                ..old(self)@
            })),
    {
        proof {
            use_type_invariant(&*self);
        }
        if self.single {
            return None;
        }
        let n = self.packages.len();
        let name = self.packages[self.idx].clone();
        self.idx = (self.idx + 1) % n;
        Some(name)
    }
}

// ── One package's attempt ───────────────────────────────────────────────────

/// Where an attempt at a package stands.
pub enum Stage {
    /// Waiting for the first build.
    AwaitingBuild,
    /// Waiting for the build with fixed icons.
    Retrying,
    /// The build is over, with this outcome; waiting for the clock.
    Settled(bool),
    /// Waiting for the import and the launch test.
    Importing,
    /// Waiting for the upload of the objects.
    UploadingObjects,
    /// Waiting for the upload of the refs, or for the clock after skipping it.
    UploadingRefs,
    /// Waiting for the failure to be recorded.
    RecordingFailure,
    /// The attempt is over.
    Over,
}

/// What happened, with the nanoseconds the package and the run have taken.
pub enum Event {
    /// A build finished.
    BuildFinished { ok: bool, package_ns: u64, elapsed_ns: u64 },
    /// The clock, read on request.
    Clock { package_ns: u64, elapsed_ns: u64 },
    /// The bundle was imported; the launch test went so (`None`: not run).
    LaunchFinished { report: Option<LaunchReport>, elapsed_ns: u64 },
    /// The upload of the objects finished.
    ObjectsFinished { ok: bool, elapsed_ns: u64 },
    /// The upload of the refs finished, or was skipped.
    RefsFinished { elapsed_ns: u64 },
    /// The failure was recorded.
    FailureRecorded { elapsed_ns: u64 },
}

/// What an attempt calls for next.
pub enum Step {
    /// Build the variant with fixed icons.
    RunFixedBuild,
    /// Report the clock.
    ReadClock,
    /// Import the bundle, and run the launch test where asked.
    Import { launch_test: bool },
    /// Upload the objects.
    UploadObjects,
    /// Upload the refs.
    UploadRefs,
    /// Skip the refs, whose objects did not arrive, and report the clock.
    SkipRefs,
    /// Record the failure, a timeout or a crash.
    RecordFailure { timed_out: bool },
    /// The attempt is done: remember the package and move on.
    Conclude,
    /// Stop the run without remembering the package.
    Stop,
}

/// What the loop does next.
pub enum Action {
    RunFixedBuild,
    ReadClock,
    Import { launch_test: bool },
    UploadObjects,
    UploadRefs,
    SkipRefs,
    RecordFailure { timed_out: bool },
    /// Remember this package as the last one done, and go on with the next.
    Bookmark(String),
    /// The single package is done; stop, remembering nothing.
    EndSingle,
    /// Stop without remembering the package.
    Stop,
}

/// The step an action carries out.
pub open spec fn step_of(a: Action) -> Step {
    match a {
        Action::RunFixedBuild => Step::RunFixedBuild,
        Action::ReadClock => Step::ReadClock,
        Action::Import { launch_test } => Step::Import { launch_test },
        Action::UploadObjects => Step::UploadObjects,
        Action::UploadRefs => Step::UploadRefs,
        Action::SkipRefs => Step::SkipRefs,
        Action::RecordFailure { timed_out } => Step::RecordFailure { timed_out },
        Action::Bookmark(_) => Step::Conclude,
        Action::EndSingle => Step::Conclude,
        Action::Stop => Step::Stop,
    }
}

/// An attempt at one package: its stage, and whether the package has an
/// application ID to launch.
pub struct Attempt {
    pub stage: Stage,
    pub has_app_id: bool,
}

impl Attempt {
    /// A fresh attempt at a package with application ID `app_id`.
    pub fn new(app_id: &str) -> (a: Attempt)
        ensures
            a.stage is AwaitingBuild,
            a.has_app_id == (app_id@.len() > 0),
    {
        Attempt { stage: Stage::AwaitingBuild, has_app_id: !app_id.is_empty() }
    }
}

/// The run has reached its last twenty minutes.
pub open spec fn margin_hit(elapsed_ns: u64) -> bool {
    secs_left(elapsed_ns as nat, RUN_LIMIT_SECS as nat) <= SAFETY_MARGIN_SECS
}

/// The launch test was passed, or none was run.
pub open spec fn launch_passes(report: Option<LaunchReport>) -> bool {
    match report {
        None => true,
        Some(LaunchReport::Exited(code)) => survived(code),
        Some(LaunchReport::NotRun) => false,
    }
}

/// The next stage and step of an attempt after an event.
pub open spec fn attempt_next(stage: Stage, has_app_id: bool, event: Event) -> (Stage, Step) {
    match (stage, event) {
        (Stage::AwaitingBuild, Event::BuildFinished { ok, package_ns, elapsed_ns }) => {
            if margin_hit(elapsed_ns) {
                (Stage::Over, Step::Stop)
            } else if !ok && package_ns / NANOS_PER_SEC < BUILD_LIMIT_SECS - 10 {
                (Stage::Retrying, Step::RunFixedBuild)
            } else {
                (Stage::Settled(ok), Step::ReadClock)
            }
        },
        (Stage::Retrying, Event::BuildFinished { ok, .. }) => (Stage::Settled(ok), Step::ReadClock),
        (Stage::Settled(ok), Event::Clock { package_ns, elapsed_ns }) => {
            if margin_hit(elapsed_ns) {
                (Stage::Over, Step::Stop)
            } else if ok {
                (Stage::Importing, Step::Import { launch_test: has_app_id })
            } else if package_ns / NANOS_PER_SEC >= BUILD_LIMIT_SECS - 30 {
                (Stage::RecordingFailure, Step::RecordFailure { timed_out: true })
            } else {
                (Stage::Over, Step::Conclude)
            }
        },
        (Stage::Importing, Event::LaunchFinished { report, elapsed_ns }) => {
            if !launch_passes(report) {
                (Stage::RecordingFailure, Step::RecordFailure { timed_out: false })
            } else if secs_left(elapsed_ns as nat, RUN_LIMIT_SECS as nat) < UPLOAD_GUARD_SECS {
                (Stage::Over, Step::Stop)
            } else {
                (Stage::UploadingObjects, Step::UploadObjects)
            }
        },
        (Stage::UploadingObjects, Event::ObjectsFinished { ok, elapsed_ns }) => {
            if margin_hit(elapsed_ns) {
                (Stage::Over, Step::Stop)
            } else if ok {
                (Stage::UploadingRefs, Step::UploadRefs)
            } else {
                (Stage::UploadingRefs, Step::SkipRefs)
            }
        },
        (Stage::UploadingRefs, Event::RefsFinished { elapsed_ns }) => {
            if margin_hit(elapsed_ns) {
                (Stage::Over, Step::Stop)
            } else {
                (Stage::Over, Step::Conclude)
            }
        },
        (Stage::RecordingFailure, Event::FailureRecorded { elapsed_ns }) => {
            if margin_hit(elapsed_ns) {
                (Stage::Over, Step::Stop)
            } else {
                (Stage::Over, Step::Conclude)
            }
        },
        _ => (Stage::Over, Step::Stop),
    }
}

/// A time guard fires at this stage on this event: the last twenty minutes
/// are reached after a build, the clock reading, an upload or the failure
/// record, or less than an hour is left when an upload would start.
pub open spec fn guard_fires(stage: Stage, event: Event) -> bool {
    match (stage, event) {
        (Stage::AwaitingBuild, Event::BuildFinished { elapsed_ns, .. }) => margin_hit(elapsed_ns),
        (Stage::Settled(_), Event::Clock { elapsed_ns, .. }) => margin_hit(elapsed_ns),
        (Stage::Importing, Event::LaunchFinished { report, elapsed_ns }) => launch_passes(report)
            && secs_left(elapsed_ns as nat, RUN_LIMIT_SECS as nat) < UPLOAD_GUARD_SECS,
        (Stage::UploadingObjects, Event::ObjectsFinished { elapsed_ns, .. }) => margin_hit(
            elapsed_ns,
        ),
        (Stage::UploadingRefs, Event::RefsFinished { elapsed_ns }) => margin_hit(elapsed_ns),
        (Stage::RecordingFailure, Event::FailureRecorded { elapsed_ns }) => margin_hit(elapsed_ns),
        _ => false,
    }
}

/// A guard that fires stops the run, and so does any event on an attempt
/// that is over; only the end of an attempt remembers a package.
pub proof fn lemma_guard_stops(stage: Stage, has_app_id: bool, event: Event)
    ensures
        guard_fires(stage, event) ==> attempt_next(stage, has_app_id, event).1 is Stop,
        stage is Over ==> attempt_next(stage, has_app_id, event).1 is Stop,
        attempt_next(stage, has_app_id, event).1 is Stop || attempt_next(stage, has_app_id, event).1 is Conclude
            ==> attempt_next(stage, has_app_id, event).0 is Over,
{
}

impl BuildLoop {
    /// Moves the attempt on by one event and says what to do next. Only the
    /// end of an attempt touches the loop: it remembers the package and
    /// moves on, or in the single-package mode ends the run; every other
    /// step, a stop by a time guard among them, leaves the loop as it was.
    pub fn step(&mut self, attempt: &mut Attempt, event: Event) -> (a: Action)
        ensures
            Self::valid(final(self)@),
            final(attempt).stage == attempt_next(old(attempt).stage, old(attempt).has_app_id, event).0,
            final(attempt).has_app_id == old(attempt).has_app_id,
            step_of(a) == attempt_next(old(attempt).stage, old(attempt).has_app_id, event).1,
            !(step_of(a) is Conclude) ==> final(self)@ == old(self)@,
            step_of(a) is Conclude && old(self)@.single ==> a is EndSingle && final(self)@ == old(
                self,
            )@,
            step_of(a) is Conclude && !old(self)@.single ==> (a matches Action::Bookmark(name)
                && name@ == old(self)@.packages[old(self)@.idx] && final(self)@ == (LoopState {
                idx: (old(self)@.idx + 1) % (old(self)@.packages.len() as int),
                ..old(self)@
            })),
    {
        proof {
            use_type_invariant(&*self);
        }
        let (stage, step) = match (&attempt.stage, event) {
            (Stage::AwaitingBuild, Event::BuildFinished { ok, package_ns, elapsed_ns }) => {
                if past_safety_margin(elapsed_ns) {
                    (Stage::Over, Step::Stop)
                } else if retry_with_fixed(ok, package_ns) {
                    (Stage::Retrying, Step::RunFixedBuild)
                } else {
                    (Stage::Settled(ok), Step::ReadClock)
                }
            },
            (Stage::Retrying, Event::BuildFinished { ok, .. }) => (Stage::Settled(ok), Step::ReadClock),
            (Stage::Settled(ok), Event::Clock { package_ns, elapsed_ns }) => {
                if past_safety_margin(elapsed_ns) {
                    (Stage::Over, Step::Stop)
                } else if *ok {
                    (Stage::Importing, Step::Import { launch_test: attempt.has_app_id })
                } else if build_timed_out(package_ns) {
                    (Stage::RecordingFailure, Step::RecordFailure { timed_out: true })
                } else {
                    (Stage::Over, Step::Conclude)
                }
            },
            (Stage::Importing, Event::LaunchFinished { report, elapsed_ns }) => {
                let passes = match judge_attempt(true, &report, 0) {
                    Judgement::Passed => true,
                    _ => false,
                };
                if !passes {
                    (Stage::RecordingFailure, Step::RecordFailure { timed_out: false })
                } else if too_late_to_upload(elapsed_ns) {
                    (Stage::Over, Step::Stop)
                } else {
                    (Stage::UploadingObjects, Step::UploadObjects)
                }
            },
            (Stage::UploadingObjects, Event::ObjectsFinished { ok, elapsed_ns }) => {
                if past_safety_margin(elapsed_ns) {
                    (Stage::Over, Step::Stop)
                } else if ok {
                    (Stage::UploadingRefs, Step::UploadRefs)
                } else {
                    (Stage::UploadingRefs, Step::SkipRefs)
                }
            },
            (Stage::UploadingRefs, Event::RefsFinished { elapsed_ns }) => {
                if past_safety_margin(elapsed_ns) {
                    (Stage::Over, Step::Stop)
                } else {
                    (Stage::Over, Step::Conclude)
                }
            },
            (Stage::RecordingFailure, Event::FailureRecorded { elapsed_ns }) => {
                if past_safety_margin(elapsed_ns) {
                    (Stage::Over, Step::Stop)
                } else {
                    (Stage::Over, Step::Conclude)
                }
            },
            _ => (Stage::Over, Step::Stop),
        };
        attempt.stage = stage;
        match step {
            Step::RunFixedBuild => Action::RunFixedBuild,
            Step::ReadClock => Action::ReadClock,
            Step::Import { launch_test } => Action::Import { launch_test },
            Step::UploadObjects => Action::UploadObjects,
            Step::UploadRefs => Action::UploadRefs,
            Step::SkipRefs => Action::SkipRefs,
            Step::RecordFailure { timed_out } => Action::RecordFailure { timed_out },
            Step::Stop => Action::Stop,
            Step::Conclude => match self.finish() {
                Some(name) => Action::Bookmark(name),
                None => Action::EndSingle,
            },
        }
    }
}

/// Six starts outside the single-package mode bring the counter back to
/// where it was, and exactly one of them collects garbage.
pub proof fn lemma_gc_every_sixth(c: int)
    requires
        0 <= c <= 5,
    ensures
        ({
            let s1 = gc_step(c, false);
            let s2 = gc_step(s1.0, false);
            let s3 = gc_step(s2.0, false);
            let s4 = gc_step(s3.0, false);
            let s5 = gc_step(s4.0, false);
            let s6 = gc_step(s5.0, false);
            &&& s6.0 == c
            &&& (if s1.1 { 1int } else { 0 }) + (if s2.1 { 1int } else { 0 }) + (if s3.1 { 1int } else { 0 })
                + (if s4.1 { 1int } else { 0 }) + (if s5.1 { 1int } else { 0 }) + (if s6.1 { 1int } else { 0 }) == 1
        }),
{
}

/// The place the loop stands at after `k` finishes from place `i` in a list
/// of `n`.
pub open spec fn place_after(i: int, k: int, n: int) -> int {
    (i + k) % n
}

/// `n` finishes from place `i` come back to `i`, passing every place once.
pub proof fn lemma_finish_cycle(i: int, n: int)
    requires
        0 <= i < n,
    ensures
        forall|k: int, l: int| 0 <= k < l < n ==> #[trigger] place_after(i, k, n) != #[trigger] place_after(i, l, n),
        place_after(i, n, n) == i,
{
    assert forall|k: int, l: int| 0 <= k < l < n implies #[trigger] place_after(i, k, n) != #[trigger] place_after(i, l, n) by {
        vstd::arithmetic::div_mod::lemma_fundamental_div_mod(i + k, n);
        vstd::arithmetic::div_mod::lemma_fundamental_div_mod(i + l, n);
        if (i + k) % n == (i + l) % n {
            vstd::arithmetic::mul::lemma_mul_is_distributive_sub(n, (i + l) / n, (i + k) / n);
            let d = (i + l) / n - (i + k) / n;
            assert(n * d == l - k);
            assert(false) by (nonlinear_arith)
                requires
                    n * d == l - k,
                    0 < l - k < n,
            ;
        }
    }
    vstd::arithmetic::div_mod::lemma_mod_add_multiples_vanish(i, n);
    vstd::arithmetic::div_mod::lemma_small_mod(i as nat, n as nat);
}

/// A launch test is survived exactly when its exit code is 0, 124 (timed
/// out), 137 or 143 (terminated), a missing code counting as 0; every other
/// code, a segfault's 139 among them, is a crash. A built package whose test
/// was not survived is judged crashed, and one whose test could not run too.
pub proof fn lemma_survival_codes(code: i32)
    ensures
        survived(Some(code)) <==> (code == 0 || code == 124 || code == 137 || code == 143),
        survived(None),
        !survived(Some(139)),
        !survived(Some(1)),
        launch_passes(Some(LaunchReport::Exited(Some(code)))) <==> (code == 0 || code == 124 || code
            == 137 || code == 143),
        !launch_passes(Some(LaunchReport::NotRun)),
        launch_passes(None),
{
}

/// A successful build, the first or the one with fixed icons, settles the
/// attempt as a success: the next clock reading outside the last twenty
/// minutes imports the bundle, launch-tested where the package has an
/// application ID.
pub proof fn lemma_successful_build_imports(
    retried: bool,
    has_app_id: bool,
    package_ns: u64,
    elapsed_ns: u64,
    later_package_ns: u64,
    later_elapsed_ns: u64,
)
    requires
        secs_left(elapsed_ns as nat, 21600) > 1200,
        secs_left(later_elapsed_ns as nat, 21600) > 1200,
    ensures
        ({
            let stage = if retried {
                Stage::Retrying
            } else {
                Stage::AwaitingBuild
            };
            let built = attempt_next(
                stage,
                has_app_id,
                Event::BuildFinished { ok: true, package_ns, elapsed_ns },
            );
            &&& built.1 == Step::ReadClock
            &&& attempt_next(
                built.0,
                has_app_id,
                Event::Clock { package_ns: later_package_ns, elapsed_ns: later_elapsed_ns },
            ).1 == Step::Import { launch_test: has_app_id }
        }),
{
}

/// A failed first build that failed quickly is tried again with fixed icons,
/// and that build's outcome alone decides: success imports, failure after a
/// quick run passes the package over and moves on.
pub proof fn lemma_fixed_build_decides(
    has_app_id: bool,
    package_ns: u64,
    elapsed_ns: u64,
    ok: bool,
    fixed_package_ns: u64,
    fixed_elapsed_ns: u64,
    later_package_ns: u64,
    later_elapsed_ns: u64,
)
    requires
        secs_left(elapsed_ns as nat, 21600) > 1200,
        package_ns / 1_000_000_000 < 10790,
        secs_left(later_elapsed_ns as nat, 21600) > 1200,
        later_package_ns / 1_000_000_000 < 10770,
    ensures
        ({
            let first = attempt_next(
                Stage::AwaitingBuild,
                has_app_id,
                Event::BuildFinished { ok: false, package_ns, elapsed_ns },
            );
            let fixed = attempt_next(
                first.0,
                has_app_id,
                Event::BuildFinished { ok, package_ns: fixed_package_ns, elapsed_ns: fixed_elapsed_ns },
            );
            let next = attempt_next(
                fixed.0,
                has_app_id,
                Event::Clock { package_ns: later_package_ns, elapsed_ns: later_elapsed_ns },
            );
            &&& first.1 == Step::RunFixedBuild
            &&& fixed.1 == Step::ReadClock
            &&& (ok ==> next.1 == Step::Import { launch_test: has_app_id })
            &&& (!ok ==> next.1 == Step::Conclude)
        }),
{
}

/// The time limits of an attempt: a failed build that ran 10770 s or more
/// is recorded as timed out and one that ran less is passed over; a passed
/// launch test uploads with an hour or more left and stops with less; an
/// upload or a failure record that ends within the last twenty minutes stops
/// the run, and one that ends before them goes on.
pub proof fn lemma_attempt_time_limits(has_app_id: bool, package_ns: u64, elapsed_ns: u64, ok: bool)
    ensures
        secs_left(elapsed_ns as nat, 21600) > 1200 ==> attempt_next(
            Stage::Settled(false),
            has_app_id,
            Event::Clock { package_ns, elapsed_ns },
        ).1 == (if package_ns / 1_000_000_000 >= 10770 {
            Step::RecordFailure { timed_out: true }
        } else {
            Step::Conclude
        }),
        attempt_next(
            Stage::Importing,
            has_app_id,
            Event::LaunchFinished { report: None, elapsed_ns },
        ).1 == (if secs_left(elapsed_ns as nat, 21600) < 3600 {
            Step::Stop
        } else {
            Step::UploadObjects
        }),
        secs_left(elapsed_ns as nat, 21600) <= 1200 ==> attempt_next(
            Stage::UploadingObjects,
            has_app_id,
            Event::ObjectsFinished { ok, elapsed_ns },
        ).1 == Step::Stop,
        secs_left(elapsed_ns as nat, 21600) > 1200 ==> attempt_next(
            Stage::UploadingObjects,
            has_app_id,
            Event::ObjectsFinished { ok, elapsed_ns },
        ).1 == (if ok {
            Step::UploadRefs
        } else {
            Step::SkipRefs
        }),
        attempt_next(Stage::UploadingRefs, has_app_id, Event::RefsFinished { elapsed_ns }).1 == (if secs_left(
            elapsed_ns as nat,
            21600,
        ) <= 1200 {
            Step::Stop
        } else {
            Step::Conclude
        }),
        attempt_next(Stage::RecordingFailure, has_app_id, Event::FailureRecorded { elapsed_ns }).1
            == (if secs_left(elapsed_ns as nat, 21600) <= 1200 {
            Step::Stop
        } else {
            Step::Conclude
        }),
{
}

/// A package may start exactly while the runner's budget is not used up and
/// more than 3h15m of the six hours are left.
pub proof fn lemma_start_limits(elapsed_ns: nat, budget_ns: nat)
    ensures
        may_start(elapsed_ns, budget_ns) <==> (elapsed_ns < budget_ns && elapsed_ns + 11700 * 1_000_000_000
            <= 21600 * 1_000_000_000),
{
    if elapsed_ns < 21600 * 1_000_000_000 {
        let left = (21600 * 1_000_000_000 - elapsed_ns) as nat;
        vstd::arithmetic::div_mod::lemma_fundamental_div_mod(left as int, 1_000_000_000);
    }
}

} // verus!
