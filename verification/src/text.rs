//! Character-level helpers over strings, viewed as sequences of `char`.

use vstd::prelude::*;
use vstd::string::StrSliceExecFns;

verus! {

/// The characters of `s`, in order.
pub fn chars_of(s: &str) -> (v: Vec<char>)
    ensures
        v@ == s@,
{
    let mut v: Vec<char> = Vec::new();
    for c in it: s.chars()
        invariant
            v@ == it.seq().take(it.index() as int),
            it.seq() == s@,
    {
        v.push(c);
    }
    v
}

/// Calls `String::push`, which appends `c` to `s`; the contract claims just
/// that: the new string is the old one followed by `c`.
#[verifier::external_body]
fn push_char(s: &mut String, c: char)
    ensures
        final(s)@ == old(s)@.push(c),
{
    s.push(c);
}

/// The string made of the characters of `v`, in order.
pub fn string_of(v: &[char]) -> (s: String)
    ensures
        s@ == v@,
{
    let mut s = String::new();
    for i in 0..v.len()
        invariant
            s@ == v@.take(i as int),
    {
        push_char(&mut s, v[i]);
        assert(v@.take(i + 1) == v@.take(i as int).push(v@[i as int]));
    }
    assert(v@.take(v@.len() as int) == v@);
    s
}


/// The pieces of `s` between occurrences of `sep`, in order; as `str::split`
/// gives them, so there is always at least one piece.
pub open spec fn split_on(s: Seq<char>, sep: char) -> Seq<Seq<char>>
    decreases s.len(),
{
    if s.len() == 0 {
        seq![Seq::<char>::empty()]
    } else {
        let r = split_on(s.drop_last(), sep);
        if s.last() == sep {
            r.push(Seq::<char>::empty())
        } else {
            r.update(r.len() - 1, r.last().push(s.last()))
        }
    }
}

/// The pieces `segs` written one after another with `sep` between each two.
pub open spec fn join_on(segs: Seq<Seq<char>>, sep: char) -> Seq<char>
    decreases segs.len(),
{
    if segs.len() == 0 {
        Seq::<char>::empty()
    } else if segs.len() == 1 {
        segs[0]
    } else {
        join_on(segs.drop_last(), sep).push(sep) + segs.last()
    }
}

/// The views of a vector of character vectors.
pub open spec fn views(v: Seq<Vec<char>>) -> Seq<Seq<char>> {
    v.map_values(|x: Vec<char>| x@)
}

pub proof fn lemma_split_nonempty(s: Seq<char>, sep: char)
    ensures
        split_on(s, sep).len() >= 1,
    decreases s.len(),
{
    if s.len() > 0 {
        lemma_split_nonempty(s.drop_last(), sep);
    }
}

/// No piece of a split holds the separator.
pub proof fn lemma_split_pieces_lack_sep(s: Seq<char>, sep: char)
    ensures
        forall|k: int| 0 <= k < split_on(s, sep).len() ==> !(#[trigger] split_on(s, sep)[k]).contains(sep),
    decreases s.len(),
{
    if s.len() > 0 {
        let t = s.drop_last();
        lemma_split_nonempty(t, sep);
        lemma_split_pieces_lack_sep(t, sep);
        let r = split_on(t, sep);
        if s.last() != sep {
            let l = r.last().push(s.last());
            assert(!r[r.len() - 1].contains(sep));
            assert forall|j: int| 0 <= j < l.len() implies l[j] != sep by {
                if j < l.len() - 1 {
                    assert(l[j] == r.last()[j]);
                }
            }
        }
    }
}

/// A string with the separator splits into at least two pieces.
pub proof fn lemma_split_at_sep(s: Seq<char>, sep: char)
    requires
        s.contains(sep),
    ensures
        split_on(s, sep).len() >= 2,
    decreases s.len(),
{
    let t = s.drop_last();
    lemma_split_nonempty(t, sep);
    if s.last() != sep {
        let k = choose|k: int| 0 <= k < s.len() && s[k] == sep;
        assert(t[k] == sep);
        lemma_split_at_sep(t, sep);
    }
}

/// Splitting `u + l`, where `l` holds no separator, extends the last piece of `u`.
pub proof fn lemma_split_append_plain(u: Seq<char>, l: Seq<char>, sep: char)
    requires
        !l.contains(sep),
    ensures
        split_on(u + l, sep) == split_on(u, sep).update(
            split_on(u, sep).len() - 1,
            split_on(u, sep).last() + l,
        ),
    decreases l.len(),
{
    lemma_split_nonempty(u, sep);
    if l.len() == 0 {
        assert(u + l == u);
        assert(split_on(u, sep).last() + l == split_on(u, sep).last());
        assert(split_on(u, sep).update(split_on(u, sep).len() - 1, split_on(u, sep).last())
            == split_on(u, sep));
    } else {
        let l0 = l.drop_last();
        assert(!l0.contains(sep)) by {
            if l0.contains(sep) {
                let k = choose|k: int| 0 <= k < l0.len() && l0[k] == sep;
                assert(l[k] == sep);
            }
        }
        lemma_split_append_plain(u, l0, sep);
        assert((u + l).drop_last() == u + l0);
        assert((u + l).last() == l.last());
        assert(l.last() != sep) by {
            assert(l[l.len() - 1] == l.last());
        }
        lemma_split_nonempty(u + l0, sep);
        let su = split_on(u, sep);
        let r = split_on(u + l0, sep);
        assert(r.len() == su.len());
        assert(r.last() == su.last() + l0);
        assert((su.last() + l0).push(l.last()) == su.last() + l);
        assert(split_on(u + l, sep) == r.update(r.len() - 1, r.last().push(l.last())));
        assert(r.update(r.len() - 1, su.last() + l) =~= su.update(su.len() - 1, su.last() + l));
    }
}

/// A split of a joined list of pieces without the separator gives the pieces back.
pub proof fn lemma_split_join(segs: Seq<Seq<char>>, sep: char)
    requires
        segs.len() >= 1,
        forall|k: int| 0 <= k < segs.len() ==> !(#[trigger] segs[k]).contains(sep),
    ensures
        split_on(join_on(segs, sep), sep) == segs,
    decreases segs.len(),
{
    if segs.len() == 1 {
        lemma_split_append_plain(Seq::<char>::empty(), segs[0], sep);
        assert(Seq::<char>::empty() + segs[0] == segs[0]);
        assert(seq![Seq::<char>::empty()].update(0, Seq::<char>::empty() + segs[0]) == segs);
    } else {
        let init = segs.drop_last();
        assert forall|k: int| 0 <= k < init.len() implies !(#[trigger] init[k]).contains(sep) by {
            assert(init[k] == segs[k]);
        }
        lemma_split_join(init, sep);
        let j = join_on(init, sep).push(sep);
        assert(!segs[segs.len() - 1].contains(sep));
        lemma_split_append_plain(j, segs.last(), sep);
        assert(j.drop_last() == join_on(init, sep));
        assert(split_on(j, sep) == init.push(Seq::<char>::empty()));
        assert(Seq::<char>::empty() + segs.last() == segs.last());
        assert(init.push(Seq::<char>::empty()).update(init.len() as int, segs.last()) == segs);
    }
}

/// Two or more pieces joined hold the separator.
pub proof fn lemma_join_has_sep(segs: Seq<Seq<char>>, sep: char)
    requires
        segs.len() >= 2,
    ensures
        join_on(segs, sep).contains(sep),
{
    let j = join_on(segs.drop_last(), sep);
    let r = j.push(sep) + segs.last();
    assert(r[j.len() as int] == sep);
}

/// Splits `v` at every `sep`.
pub fn split_chars(v: &[char], sep: char) -> (segs: Vec<Vec<char>>)
    ensures
        views(segs@) == split_on(v@, sep),
{
    let mut done: Vec<Vec<char>> = Vec::new();
    let mut cur: Vec<char> = Vec::new();
    for i in 0..v.len()
        invariant
            views(done@).push(cur@) == split_on(v@.take(i as int), sep),
    {
        let ghost before = v@.take(i as int);
        assert(v@.take(i + 1).drop_last() == before);
        proof {
            lemma_split_nonempty(before, sep);
        }
        if v[i] == sep {
            done.push(cur);
            cur = Vec::new();
            assert(views(done@).push(cur@) == views(done@.drop_last()).push(
                done@.last()@,
            ).push(Seq::<char>::empty()));
            assert(views(done@.drop_last()) == views(done@).drop_last());
        } else {
            let ghost old_views = views(done@);
            cur.push(v[i]);
            assert(views(done@).push(cur@) == old_views.push(cur@));
        }
    }
    done.push(cur);
    assert(v@.take(v@.len() as int) == v@);
    assert(views(done@) == views(done@.drop_last()).push(done@.last()@));
    done
}

/// Writes the pieces one after another with `sep` between each two.
pub fn join_chars(segs: &Vec<Vec<char>>, sep: char) -> (r: Vec<char>)
    ensures
        r@ == join_on(views(segs@), sep),
{
    let mut r: Vec<char> = Vec::new();
    for k in 0..segs.len()
        invariant
            r@ == join_on(views(segs@).take(k as int), sep),
    {
        let ghost prev = views(segs@).take(k as int);
        assert(views(segs@).take(k + 1).drop_last() == prev);
        assert(views(segs@).take(k + 1).last() == segs@[k as int]@);
        if k > 0 {
            r.push(sep);
        }
        let seg = &segs[k];
        for j in 0..seg.len()
            invariant
                r@ == (if k > 0 { join_on(prev, sep).push(sep) } else { join_on(prev, sep) })
                    + seg@.take(j as int),
        {
            r.push(seg[j]);
            assert(seg@.take(j + 1) == seg@.take(j as int).push(seg@[j as int]));
        }
        assert(seg@.take(seg@.len() as int) == seg@);
        if k == 0 {
            assert(prev.len() == 0);
            assert(Seq::<char>::empty() + seg@ == seg@);
        }
    }
    assert(views(segs@).take(segs@.len() as int) == views(segs@));
    r
}


/// `s` ends with `suf`.
pub open spec fn has_suffix(s: Seq<char>, suf: Seq<char>) -> bool {
    suf.len() <= s.len() && s.subrange(s.len() - suf.len(), s.len() as int) == suf
}

/// `s` starts with `pre`.
pub open spec fn has_prefix(s: Seq<char>, pre: Seq<char>) -> bool {
    pre.len() <= s.len() && s.subrange(0, pre.len() as int) == pre
}

/// `sub` stands in `s` from position `i` on.
pub open spec fn occurs_at(s: Seq<char>, sub: Seq<char>, i: int) -> bool {
    0 <= i && i + sub.len() <= s.len() && s.subrange(i, i + sub.len()) == sub
}

/// `sub` stands somewhere in `s`.
pub open spec fn has_infix(s: Seq<char>, sub: Seq<char>) -> bool {
    exists|i: int| occurs_at(s, sub, i)
}

/// Whether `sub` stands in `s` from position `i` on.
pub fn occurs_at_exec(s: &[char], sub: &[char], i: usize) -> (b: bool)
    ensures
        b == occurs_at(s@, sub@, i as int),
{
    if i > s.len() || sub.len() > s.len() - i {
        return false;
    }
    let mut j: usize = 0;
    while j < sub.len()
        invariant
            i + sub@.len() <= s@.len(),
            s@.len() <= usize::MAX,
            j <= sub@.len(),
            forall|k: int| 0 <= k < j ==> s@[i + k] == sub@[k],
        decreases sub@.len() - j,
    {
        if s[i + j] != sub[j] {
            assert(s@.subrange(i as int, i + sub@.len())[j as int] != sub@[j as int]);
            return false;
        }
        j = j + 1;
    }
    assert(s@.subrange(i as int, i + sub@.len()) =~= sub@);
    true
}

/// Whether `s` ends with `suf`.
pub fn ends_with_chars(s: &[char], suf: &[char]) -> (b: bool)
    ensures
        b == has_suffix(s@, suf@),
{
    if suf.len() > s.len() {
        false
    } else {
        occurs_at_exec(s, suf, s.len() - suf.len())
    }
}

/// Whether `s` starts with `pre`.
pub fn starts_with_chars(s: &[char], pre: &[char]) -> (b: bool)
    ensures
        b == has_prefix(s@, pre@),
{
    occurs_at_exec(s, pre, 0)
}

/// Whether `sub` stands somewhere in `s`.
pub fn contains_chars(s: &[char], sub: &[char]) -> (b: bool)
    ensures
        b == has_infix(s@, sub@),
{
    if sub.len() > s.len() {
        return false;
    }
    let last = s.len() - sub.len();
    let mut i: usize = 0;
    loop
        invariant
            last == s@.len() - sub@.len(),
            i <= last,
            forall|k: int| 0 <= k < i ==> !occurs_at(s@, sub@, k),
        ensures
            forall|k: int| 0 <= k <= last ==> !occurs_at(s@, sub@, k),
        decreases last - i,
    {
        if occurs_at_exec(s, sub, i) {
            return true;
        }
        if i == last {
            break;
        }
        i = i + 1;
    }
    assert forall|k: int| !occurs_at(s@, sub@, k) by {
        if 0 <= k <= last {
        }
    }
    false
}

/// Whether the character `c` stands in `s`.
pub fn contains_char(s: &[char], c: char) -> (b: bool)
    ensures
        b == s@.contains(c),
{
    for i in 0..s.len()
        invariant
            forall|k: int| 0 <= k < i ==> s@[k] != c,
    {
        if s[i] == c {
            return true;
        }
    }
    false
}

/// The characters of `v` from `lo` up to `hi`.
pub fn slice_chars(v: &[char], lo: usize, hi: usize) -> (r: Vec<char>)
    requires
        lo <= hi <= v@.len(),
    ensures
        r@ == v@.subrange(lo as int, hi as int),
{
    let mut r: Vec<char> = Vec::new();
    for i in lo..hi
        invariant
            lo <= i <= hi <= v@.len(),
            r@ == v@.subrange(lo as int, i as int),
    {
        r.push(v[i]);
        assert(v@.subrange(lo as int, i + 1) == v@.subrange(lo as int, i as int).push(v@[i as int]));
    }
    r
}

/// `a` followed by `b`.
pub fn concat_chars(a: &[char], b: &[char]) -> (r: Vec<char>)
    ensures
        r@ == a@ + b@,
{
    let mut r: Vec<char> = Vec::new();
    for i in 0..a.len()
        invariant
            r@ == a@.take(i as int),
    {
        r.push(a[i]);
        assert(a@.take(i + 1) == a@.take(i as int).push(a@[i as int]));
    }
    for j in 0..b.len()
        invariant
            r@ == a@ + b@.take(j as int),
    {
        r.push(b[j]);
        assert(b@.take(j + 1) == b@.take(j as int).push(b@[j as int]));
    }
    assert(a@.take(a@.len() as int) == a@);
    assert(b@.take(b@.len() as int) == b@);
    r
}


/// `c` has Unicode's White_Space property, as `char::is_whitespace` answers.
pub open spec fn is_white_space(c: char) -> bool {
    ||| '\u{9}' <= c && c <= '\u{d}'
    ||| c == ' '
    ||| c == '\u{85}'
    ||| c == '\u{a0}'
    ||| c == '\u{1680}'
    ||| '\u{2000}' <= c && c <= '\u{200a}'
    ||| c == '\u{2028}'
    ||| c == '\u{2029}'
    ||| c == '\u{202f}'
    ||| c == '\u{205f}'
    ||| c == '\u{3000}'
}

/// Whether `c` is white space.
pub fn is_white_space_exec(c: char) -> (b: bool)
    ensures
        b == is_white_space(c),
{
    ('\u{9}' <= c && c <= '\u{d}') || c == ' ' || c == '\u{85}' || c == '\u{a0}' || c == '\u{1680}'
        || ('\u{2000}' <= c && c <= '\u{200a}') || c == '\u{2028}' || c == '\u{2029}' || c
        == '\u{202f}' || c == '\u{205f}' || c == '\u{3000}'
}

/// The maximal runs of non-white-space characters of `s`, in order, as
/// `str::split_whitespace` gives them.
pub open spec fn words(s: Seq<char>) -> Seq<Seq<char>>
    decreases s.len(),
{
    if s.len() == 0 {
        Seq::<Seq<char>>::empty()
    } else {
        let w = words(s.drop_last());
        let c = s.last();
        if is_white_space(c) {
            w
        } else if s.len() >= 2 && !is_white_space(s[s.len() - 2]) {
            w.update(w.len() - 1, w.last().push(c))
        } else {
            w.push(seq![c])
        }
    }
}

/// A string whose last character is not white space has at least one word.
pub proof fn lemma_words_nonempty(s: Seq<char>)
    requires
        s.len() > 0,
        !is_white_space(s.last()),
    ensures
        words(s).len() >= 1,
    decreases s.len(),
{
    if s.len() >= 2 && !is_white_space(s[s.len() - 2]) {
        let t = s.drop_last();
        assert(t.last() == s[s.len() - 2]);
        lemma_words_nonempty(t);
    }
}

/// The words of `v`.
pub fn words_of(v: &[char]) -> (w: Vec<Vec<char>>)
    ensures
        views(w@) == words(v@),
{
    let mut done: Vec<Vec<char>> = Vec::new();
    let mut cur: Vec<char> = Vec::new();
    for i in 0..v.len()
        invariant
            words(v@.take(i as int)) == (if cur@.len() > 0 {
                views(done@).push(cur@)
            } else {
                views(done@)
            }),
            cur@.len() > 0 <==> (i > 0 && !is_white_space(v@[i - 1])),
    {
        let c = v[i];
        let ghost t = v@.take(i + 1);
        assert(t.drop_last() == v@.take(i as int));
        assert(t.last() == c);
        if i > 0 {
            assert(t[t.len() - 2] == v@[i - 1]);
        }
        if is_white_space_exec(c) {
            if cur.len() > 0 {
                let ghost before = done@;
                done.push(cur);
                cur = Vec::new();
                assert(views(done@) =~= views(before).push(done@.last()@));
            }
        } else {
            let ghost old_cur = cur@;
            let ghost w = words(v@.take(i as int));
            cur.push(c);
            proof {
                if old_cur.len() > 0 {
                    assert(w == views(done@).push(old_cur));
                    assert(w.update(w.len() - 1, w.last().push(c)) =~= views(done@).push(cur@));
                } else {
                    assert(w == views(done@));
                    assert(cur@ =~= seq![c]);
                }
            }
        }
    }
    if cur.len() > 0 {
        let ghost before = done@;
        done.push(cur);
        assert(views(done@) =~= views(before).push(done@.last()@));
    }
    assert(v@.take(v@.len() as int) == v@);
    done
}

/// The lines of `s`, as `str::lines` gives them: the pieces between line
/// feeds, a carriage return before a line feed dropped, and no empty last
/// line after a final line feed.
pub open spec fn lines(s: Seq<char>) -> Seq<Seq<char>> {
    let pieces = split_on(s, '\n');
    let n = pieces.len() - 1;
    let body = pieces.take(n).map_values(|p: Seq<char>| drop_cr(p));
    if pieces[n].len() == 0 {
        body
    } else {
        body.push(pieces[n])
    }
}

/// `p` without a final carriage return.
pub open spec fn drop_cr(p: Seq<char>) -> Seq<char> {
    if p.len() > 0 && p.last() == '\r' {
        p.drop_last()
    } else {
        p
    }
}

/// The lines of `s`.
pub fn lines_of(s: &str) -> (ls: Vec<String>)
    ensures
        ls@.map_values(|l: String| l@) == lines(s@),
{
    let v = chars_of(s);
    let pieces = split_chars(&v, '\n');
    proof {
        lemma_split_nonempty(v@, '\n');
    }
    let n = pieces.len() - 1;
    let mut ls: Vec<String> = Vec::new();
    for k in 0..n
        invariant
            n == pieces@.len() - 1,
            views(pieces@) == split_on(v@, '\n'),
            ls@.map_values(|l: String| l@) == views(pieces@).take(k as int).map_values(
                |p: Seq<char>| drop_cr(p),
            ),
    {
        let p = &pieces[k];
        let line = if p.len() > 0 && p[p.len() - 1] == '\r' {
            slice_chars(p, 0, p.len() - 1)
        } else {
            slice_chars(p, 0, p.len())
        };
        assert(p@.subrange(0, p@.len() as int) == p@);
        let ghost before = ls@;
        ls.push(string_of(&line));
        proof {
            let dc = |p: Seq<char>| drop_cr(p);
            let t = views(pieces@).take(k as int);
            assert(views(pieces@).take(k + 1) =~= t.push(pieces@[k as int]@));
            assert(t.push(pieces@[k as int]@).map_values(dc) =~= t.map_values(dc).push(
                drop_cr(pieces@[k as int]@),
            ));
            assert(ls@.map_values(|l: String| l@) =~= before.map_values(|l: String| l@).push(
                line@,
            ));
        }
    }
    if pieces[n].len() > 0 {
        let ghost before = ls@;
        ls.push(string_of(&pieces[n]));
        assert(ls@.map_values(|l: String| l@) =~= before.map_values(|l: String| l@).push(
            pieces@[n as int]@,
        ));
    }
    ls
}


/// Whether `a` and `b` hold the same characters.
pub fn same_chars(a: &[char], b: &[char]) -> (r: bool)
    ensures
        r == (a@ == b@),
{
    if a.len() != b.len() {
        return false;
    }
    for i in 0..a.len()
        invariant
            a@.len() == b@.len(),
            forall|k: int| 0 <= k < i ==> a@[k] == b@[k],
    {
        if a[i] != b[i] {
            return false;
        }
    }
    assert(a@ =~= b@);
    true
}

/// The piece of `v` after its last `sep`, or all of `v` where it has none.
pub fn last_piece(v: &[char], sep: char) -> (r: Vec<char>)
    ensures
        r@ == split_on(v@, sep).last(),
{
    let mut cur: Vec<char> = Vec::new();
    for i in 0..v.len()
        invariant
            cur@ == split_on(v@.take(i as int), sep).last(),
    {
        let ghost t = v@.take(i + 1);
        assert(t.drop_last() == v@.take(i as int));
        proof {
            lemma_split_nonempty(v@.take(i as int), sep);
        }
        if v[i] == sep {
            cur = Vec::new();
        } else {
            cur.push(v[i]);
        }
    }
    assert(v@.take(v@.len() as int) == v@);
    cur
}

/// Every word is non-empty and free of white space.
pub proof fn lemma_words_shape(s: Seq<char>)
    ensures
        forall|k: int|
            0 <= k < words(s).len() ==> (#[trigger] words(s)[k]).len() > 0 && forall|j: int|
                0 <= j < words(s)[k].len() ==> !is_white_space(words(s)[k][j]),
    decreases s.len(),
{
    if s.len() > 0 {
        let t = s.drop_last();
        lemma_words_shape(t);
        let c = s.last();
        if !is_white_space(c) && s.len() >= 2 && !is_white_space(s[s.len() - 2]) {
            assert(t.last() == s[s.len() - 2]);
            lemma_words_nonempty(t);
            let w = words(t);
            let l = w.last().push(c);
            assert forall|j: int| 0 <= j < l.len() implies !is_white_space(l[j]) by {
                if j < l.len() - 1 {
                    assert(l[j] == w[w.len() - 1][j]);
                }
            }
        }
    }
}


/// A string without the separator is a single piece.
pub proof fn lemma_split_plain(s: Seq<char>, sep: char)
    requires
        !s.contains(sep),
    ensures
        split_on(s, sep) == seq![s],
{
    lemma_split_append_plain(Seq::<char>::empty(), s, sep);
    assert(Seq::<char>::empty() + s == s);
    assert(seq![Seq::<char>::empty()].update(0, Seq::<char>::empty() + s) =~= seq![s]);
}

/// Splitting at the last separator, at `l`: the pieces before it, then
/// what follows it.
pub proof fn lemma_split_last_sep(s: Seq<char>, sep: char, l: int)
    requires
        0 <= l < s.len(),
        s[l] == sep,
        forall|j: int| l < j < s.len() ==> s[j] != sep,
    ensures
        split_on(s, sep) == split_on(s.take(l), sep).push(s.subrange(l + 1, s.len() as int)),
{
    let u = s.take(l + 1);
    let rest = s.subrange(l + 1, s.len() as int);
    assert(s =~= u + rest);
    assert(!rest.contains(sep)) by {
        if rest.contains(sep) {
            let k = choose|k: int| 0 <= k < rest.len() && rest[k] == sep;
            assert(s[l + 1 + k] == sep);
        }
    }
    lemma_split_append_plain(u, rest, sep);
    assert(u.drop_last() =~= s.take(l));
    assert(u.last() == sep);
    lemma_split_nonempty(s.take(l), sep);
    assert(Seq::<char>::empty() + rest =~= rest);
    assert(split_on(u, sep) == split_on(s.take(l), sep).push(Seq::<char>::empty()));
    assert(split_on(u, sep).update(split_on(u, sep).len() - 1, split_on(u, sep).last() + rest)
        =~= split_on(s.take(l), sep).push(rest));
}


/// `s` without white space at either end, as `str::trim` gives it.
pub open spec fn trimmed(s: Seq<char>) -> Seq<char>
    decreases s.len(),
{
    if s.len() == 0 {
        s
    } else if is_white_space(s[0]) {
        trimmed(s.drop_first())
    } else if is_white_space(s.last()) {
        trimmed(s.drop_last())
    } else {
        s
    }
}

/// Drops white space from both ends of `s`.
pub fn trim_str(s: &str) -> (r: &str)
    ensures
        r@ == trimmed(s@),
{
    let v = chars_of(s);
    let mut lo: usize = 0;
    let mut hi: usize = v.len();
    assert(v@.subrange(0, v@.len() as int) =~= v@);
    while lo < hi && (is_white_space_exec(v[lo]) || is_white_space_exec(v[hi - 1]))
        invariant
            lo <= hi <= v@.len(),
            trimmed(v@) == trimmed(v@.subrange(lo as int, hi as int)),
        decreases hi - lo,
    {
        let ghost t = v@.subrange(lo as int, hi as int);
        if is_white_space_exec(v[lo]) {
            assert(t[0] == v@[lo as int]);
            assert(t.drop_first() =~= v@.subrange(lo + 1, hi as int));
            lo = lo + 1;
        } else {
            assert(t[0] == v@[lo as int]);
            assert(t.last() == v@[hi - 1]);
            assert(t.drop_last() =~= v@.subrange(lo as int, hi - 1));
            hi = hi - 1;
        }
    }
    s.substring_char(lo, hi)
}

/// Splitting at the first separator, at `j`: what precedes it, then the
/// pieces of what follows it.
pub proof fn lemma_split_first_sep(s: Seq<char>, sep: char, j: int)
    requires
        0 <= j < s.len(),
        s[j] == sep,
        forall|k: int| 0 <= k < j ==> s[k] != sep,
    ensures
        split_on(s, sep) == seq![s.take(j)] + split_on(s.skip(j + 1), sep),
    decreases s.len(),
{
    let t = s.drop_last();
    if j == s.len() - 1 {
        assert(t =~= s.take(j));
        assert(!t.contains(sep)) by {
            if t.contains(sep) {
                let k = choose|k: int| 0 <= k < t.len() && t[k] == sep;
                assert(s[k] == sep);
            }
        }
        lemma_split_plain(t, sep);
        assert(s.skip(j + 1) =~= Seq::<char>::empty());
        assert(split_on(s, sep) =~= seq![s.take(j)] + split_on(s.skip(j + 1), sep));
    } else {
        assert(t[j] == sep);
        lemma_split_first_sep(t, sep, j);
        let u = s.skip(j + 1);
        assert(u.drop_last() =~= t.skip(j + 1));
        assert(u.last() == s.last());
        assert(t.take(j) =~= s.take(j));
        let x = split_on(t.skip(j + 1), sep);
        lemma_split_nonempty(t.skip(j + 1), sep);
        let a = seq![s.take(j)];
        if s.last() == sep {
            assert((a + x).push(Seq::<char>::empty()) =~= a + x.push(Seq::<char>::empty()));
        } else {
            assert((a + x).update((a + x).len() - 1, (a + x).last().push(s.last())) =~= a + x.update(
                x.len() - 1,
                x.last().push(s.last()),
            ));
        }
    }
}

/// The first place at or after `from` where `c` stands in `v`.
pub fn find_char_from(v: &[char], c: char, from: usize) -> (r: Option<usize>)
    ensures
        match r {
            Some(j) => from <= j < v@.len() && v@[j as int] == c && forall|q: int|
                from <= q < j ==> v@[q] != c,
            None => forall|q: int| from <= q < v@.len() ==> v@[q] != c,
        },
{
    let mut j = from;
    while j < v.len()
        invariant
            from <= j,
            forall|q: int| from <= q < j ==> v@[q] != c,
        decreases v@.len() - j,
    {
        if v[j] == c {
            return Some(j);
        }
        j = j + 1;
    }
    None
}

/// The last place where `sub` stands in `s`.
pub open spec fn last_occurrence(s: Seq<char>, sub: Seq<char>) -> int {
    choose|i: int| occurs_at(s, sub, i) && forall|k: int| k > i ==> !occurs_at(s, sub, k)
}

/// Where `sub` stands at `i` and nowhere after, `i` is its last place.
pub proof fn lemma_last_occurrence(s: Seq<char>, sub: Seq<char>, i: int)
    requires
        occurs_at(s, sub, i),
        forall|k: int| k > i ==> !occurs_at(s, sub, k),
    ensures
        last_occurrence(s, sub) == i,
{
    let f = last_occurrence(s, sub);
    assert(occurs_at(s, sub, f) && forall|k: int| k > f ==> !occurs_at(s, sub, k));
    if f < i {
        assert(!occurs_at(s, sub, i));
    } else if f > i {
        assert(!occurs_at(s, sub, f));
    }
}

/// The last place where `sub` stands in `s`, where it stands somewhere.
pub fn find_last_chars(s: &[char], sub: &[char]) -> (r: Option<usize>)
    ensures
        match r {
            Some(i) => occurs_at(s@, sub@, i as int) && last_occurrence(s@, sub@) == i,
            None => !has_infix(s@, sub@),
        },
{
    if sub.len() > s.len() {
        return None;
    }
    let last = s.len() - sub.len();
    let mut found: Option<usize> = None;
    let mut i: usize = 0;
    loop
        invariant
            last == s@.len() - sub@.len(),
            i <= last,
            found matches Some(f) ==> f <= i && occurs_at(s@, sub@, f as int) && forall|k: int|
                f < k < i ==> !occurs_at(s@, sub@, k),
            found is None ==> forall|k: int| 0 <= k < i ==> !occurs_at(s@, sub@, k),
        ensures
            found matches Some(f) ==> f <= last && occurs_at(s@, sub@, f as int) && forall|k: int|
                f < k <= last ==> !occurs_at(s@, sub@, k),
            found is None ==> forall|k: int| 0 <= k <= last ==> !occurs_at(s@, sub@, k),
        decreases last - i,
    {
        if occurs_at_exec(s, sub, i) {
            found = Some(i);
        }
        if i == last {
            break;
        }
        i = i + 1;
    }
    match found {
        Some(f) => {
            proof {
                assert forall|k: int| k > f implies !occurs_at(s@, sub@, k) by {
                    if k <= last {
                    }
                }
                lemma_last_occurrence(s@, sub@, f as int);
            }
            Some(f)
        },
        None => {
            assert forall|k: int| !occurs_at(s@, sub@, k) by {
                if 0 <= k <= last {
                }
            }
            None
        },
    }
}

} // verus!
