//! Discovery of packages that the binary cache does not hold: from the
//! `desktopItems` of an evaluation, and from the `pkgs/by-name` tree.

use vstd::prelude::*;
use vstd::string::StrSliceExecFns;

use crate::desktop_parser::extract_app_id;
use crate::discover::candidate_record;
use crate::runtime_detector::detect;
use crate::text::{
    chars_of, find_char_from, find_last_chars, has_infix, last_occurrence, lemma_split_first_sep,
    lemma_split_last_sep, lemma_split_plain, lines, lines_of, occurs_at, split_on,
};
use crate::types::{PackageIndex, PackageInfo, PackageSpec};

verus! {

/// The file to merge the results into.
pub struct DiscoverUnfreeOptions {
    /// Path to the `discovered.json` file to merge results into.
    pub output_path: String,
}

/// One entry of the evaluation: a package name and the stem of its
/// `.desktop` file.
pub struct NixEntry {
    pub pname: String,
    pub stem: String,
}

/// The record for a top-level package found without its store path: its
/// attribute path is its name.
pub open spec fn unfree_record(pname: Seq<char>, desktop_file: Seq<char>) -> PackageSpec {
    candidate_record(pname, pname, desktop_file)
}

/// Builds the record for a top-level package `pname` whose desktop file is
/// `desktop_file`.
pub fn unfree_package(pname: &String, desktop_file: String) -> (info: PackageInfo)
    ensures
        info@ == unfree_record(pname@, desktop_file@),
{
    let app_id = extract_app_id(desktop_file.as_str(), pname.as_str());
    let runtime = detect(pname.as_str(), desktop_file.as_str());
    PackageInfo {
        attr_path: pname.clone(),
        pname: pname.clone(),
        app_id,
        desktop_file,
        runtime_hint: String::from_str(runtime),
    }
}

/// The packages of an evaluation's entries; a later entry of the same name
/// replaces an earlier one.
pub open spec fn eval_index(entries: Seq<(Seq<char>, Seq<char>)>) -> Map<Seq<char>, PackageSpec>
    decreases entries.len(),
{
    if entries.len() == 0 {
        Map::empty()
    } else {
        let (pname, stem) = entries.last();
        eval_index(entries.drop_last()).insert(pname, unfree_record(pname, stem + ".desktop"@))
    }
}

/// The name and stem of each entry.
pub open spec fn entry_views(entries: Seq<NixEntry>) -> Seq<(Seq<char>, Seq<char>)> {
    entries.map_values(|e: NixEntry| (e.pname@, e.stem@))
}

/// Turns the entries of the evaluation into package records, keyed by name.
pub fn nix_eval_packages(entries: Vec<NixEntry>) -> (r: PackageIndex)
    ensures
        r@ == eval_index(entry_views(entries@)),
{
    let mut out = PackageIndex::new();
    let ghost ev = entry_views(entries@);
    for i in 0..entries.len()
        invariant
            ev == entry_views(entries@),
            out@ == eval_index(ev.take(i as int)),
    {
        let e = &entries[i];
        let mut desktop_file = e.stem.clone();
        desktop_file.append(".desktop");
        let info = unfree_package(&e.pname, desktop_file);
        out.insert(e.pname.clone(), info);
        assert(ev.take(i + 1).drop_last() =~= ev.take(i as int));
        assert(ev.take(i + 1).last() == (e.pname@, e.stem@));
    }
    assert(ev.take(entries@.len() as int) =~= ev);
    out
}

/// The marker of the `pkgs/by-name` tree in a path.
pub open spec fn by_name_marker() -> Seq<char> {
    "/by-name/"@
}

/// The package name of a path in `pkgs/by-name`, laid out as
/// `.../by-name/{prefix}/{pname}/...`: at the last `/by-name/` of the path,
/// the piece after `{prefix}/` where something follows it, however deep the
/// file lies; for a shorter path, the piece before the file name. A path
/// without `/by-name/` has none.
#[verifier::opaque]
pub open spec fn by_name_pname_of(path: Seq<char>) -> Option<Seq<char>> {
    if has_infix(path, by_name_marker()) {
        match second_piece_of(path.skip(last_occurrence(path, by_name_marker()) + 9)) {
            Some(p) => Some(p),
            None => piece_before_file(path),
        }
    } else {
        None
    }
}

/// The piece of a path before its file name, where there is one with a
/// piece before it too.
pub open spec fn piece_before_file(path: Seq<char>) -> Option<Seq<char>> {
    let pieces = split_on(path, '/');
    if pieces.len() >= 3 {
        Some(pieces[pieces.len() - 2])
    } else {
        None
    }
}

/// Where the piece of `v` before its file name lies.
fn piece_before_last_slash(v: &Vec<char>) -> (r: Option<(usize, usize)>)
    ensures
        match r {
            Some((a, b)) => a <= b <= v@.len() && piece_before_file(v@) == Some(
                v@.subrange(a as int, b as int),
            ),
            None => piece_before_file(v@) is None,
        },
{
    let mut last: Option<usize> = None;
    let mut before_last: Option<usize> = None;
    for i in 0..v.len()
        invariant
            last matches Some(b) ==> b < i && v@[b as int] == '/' && forall|j: int|
                b < j < i ==> v@[j] != '/',
            last is None ==> forall|j: int| 0 <= j < i ==> v@[j] != '/',
            before_last matches Some(a) ==> (last matches Some(b) && a < b && v@[a as int] == '/'
                && forall|j: int| a < j < b ==> v@[j] != '/'),
            before_last is None ==> (last matches Some(b) ==> forall|j: int|
                0 <= j < b ==> v@[j] != '/'),
    {
        if v[i] == '/' {
            before_last = last;
            last = Some(i);
        }
    }
    let ghost s = v@;
    match (before_last, last) {
        (Some(a), Some(b)) => {
            proof {
                lemma_split_last_sep(s, '/', b as int);
                let t = s.take(b as int);
                assert(t[a as int] == '/');
                lemma_split_last_sep(t, '/', a as int);
                assert(t.subrange(a + 1, b as int) =~= s.subrange(a + 1, b as int));
                crate::text::lemma_split_nonempty(t.take(a as int), '/');
                let pieces = split_on(s, '/');
                assert(pieces.len() >= 3);
                assert(pieces[pieces.len() - 2] == s.subrange(a + 1, b as int));
            }
            Some((a + 1, b))
        },
        (None, Some(b)) => {
            proof {
                lemma_split_last_sep(s, '/', b as int);
                let t = s.take(b as int);
                assert(!t.contains('/'));
                lemma_split_plain(t, '/');
            }
            None
        },
        _ => {
            proof {
                assert(!s.contains('/'));
                lemma_split_plain(s, '/');
            }
            None
        },
    }
}

/// The second slash-separated piece of `rest`, where a third follows it.
#[verifier::opaque]
pub open spec fn second_piece_of(rest: Seq<char>) -> Option<Seq<char>> {
    let pieces = split_on(rest, '/');
    if pieces.len() >= 3 {
        Some(pieces[1])
    } else {
        None
    }
}

/// Where the second slash-separated piece of `v` from `start` on lies, where
/// at least three pieces follow `start`.
fn second_piece(v: &Vec<char>, start: usize) -> (r: Option<(usize, usize)>)
    requires
        start <= v@.len(),
    ensures
        match r {
            Some((a, b)) => a <= b <= v@.len() && second_piece_of(v@.skip(start as int)) == Some(
                v@.subrange(a as int, b as int),
            ),
            None => second_piece_of(v@.skip(start as int)) is None,
        },
{
    reveal(second_piece_of);
    let n = v.len();
    let ghost s = v@;
    let ghost rest = s.skip(start as int);
    match find_char_from(v, '/', start) {
        None => {
            proof {
                assert(!rest.contains('/')) by {
                    if rest.contains('/') {
                        let k = choose|k: int| 0 <= k < rest.len() && rest[k] == '/';
                        assert(s[start + k] == '/');
                    }
                }
                lemma_split_plain(rest, '/');
            }
            None
        },
        Some(j) => {
            let ghost r2 = s.skip(j + 1);
            proof {
                assert forall|k: int| 0 <= k < j - start implies rest[k] != '/' by {
                    assert(rest[k] == s[start + k]);
                }
                assert(rest[j - start] == '/');
                lemma_split_first_sep(rest, '/', j - start);
                assert(rest.skip(j - start + 1) =~= r2);
            }
            match find_char_from(v, '/', j + 1) {
                None => {
                    proof {
                        assert(!r2.contains('/')) by {
                            if r2.contains('/') {
                                let k = choose|k: int| 0 <= k < r2.len() && r2[k] == '/';
                                assert(s[j + 1 + k] == '/');
                            }
                        }
                        lemma_split_plain(r2, '/');
                    }
                    None
                },
                Some(k) => {
                    proof {
                        assert forall|q: int| 0 <= q < k - j - 1 implies r2[q] != '/' by {
                            assert(r2[q] == s[j + 1 + q]);
                        }
                        assert(r2[k - j - 1] == '/');
                        lemma_split_first_sep(r2, '/', k - j - 1);
                        crate::text::lemma_split_nonempty(r2.skip(k - j), '/');
                        assert(r2.take(k - j - 1) =~= s.subrange(j + 1, k as int));
                    }
                    Some((j + 1, k))
                },
            }
        },
    }
}

/// Extracts the package name from a `pkgs/by-name/{prefix}/{pname}/...` path.
pub fn by_name_pname(path: &str) -> (r: Option<&str>)
    ensures
        match r {
            Some(p) => by_name_pname_of(path@) == Some(p@),
            None => by_name_pname_of(path@) is None,
        },
{
    let v = chars_of(path);
    let n = v.len();
    let marker = chars_of("/by-name/");
    assert(marker@.len() == 9) by {
        reveal_strlit("/by-name/");
    }
    let i = match find_last_chars(&v, &marker) {
        Some(i) => i,
        None => {
            proof {
                reveal(by_name_pname_of);
            }
            return None;
        },
    };
    let start = i + 9;
    let r = second_piece(&v, start);
    proof {
        lemma_pname_at(path@, i as int);
    }
    match r {
        Some((a, b)) => Some(path.substring_char(a, b)),
        None => match piece_before_last_slash(&v) {
            Some((a, b)) => Some(path.substring_char(a, b)),
            None => None,
        },
    }
}

/// The name found in a path whose last `/by-name/` stands at `i`.
proof fn lemma_pname_at(path: Seq<char>, i: int)
    requires
        occurs_at(path, by_name_marker(), i),
        last_occurrence(path, by_name_marker()) == i,
    ensures
        by_name_pname_of(path) == match second_piece_of(path.skip(i + 9)) {
            Some(p) => Some(p),
            None => piece_before_file(path),
        },
{
    reveal(by_name_pname_of);
    assert(has_infix(path, by_name_marker()));
}

/// The packages that the lines of a `grep -rl` listing point to: one for
/// each `pkgs/by-name` path whose name is not in `known`, a later line of the
/// same name replacing an earlier one.
pub open spec fn grep_index(ls: Seq<Seq<char>>, known: Set<Seq<char>>) -> Map<Seq<char>, PackageSpec>
    decreases ls.len(),
{
    if ls.len() == 0 {
        Map::empty()
    } else {
        let prev = grep_index(ls.drop_last(), known);
        match by_name_pname_of(ls.last()) {
            Some(p) => if known.contains(p) {
                prev
            } else {
                prev.insert(p, unfree_record(p, p + ".desktop"@))
            },
            None => prev,
        }
    }
}

/// Turns the output of `grep -rl` over `pkgs/by-name` into package records
/// for the names not in `known`.
pub fn grep_packages(grep_output: &str, known: &PackageIndex) -> (r: PackageIndex)
    ensures
        r@ == grep_index(lines(grep_output@), known@.dom()),
{
    let ls = lines_of(grep_output);
    let ghost lv = ls@.map_values(|l: String| l@);
    let mut out = PackageIndex::new();
    for i in 0..ls.len()
        invariant
            lv == ls@.map_values(|l: String| l@),
            lv == lines(grep_output@),
            out@ == grep_index(lv.take(i as int), known@.dom()),
    {
        assert(lv.take(i + 1).drop_last() =~= lv.take(i as int));
        assert(lv.take(i + 1).last() == ls@[i as int]@);
        match by_name_pname(ls[i].as_str()) {
            Some(p) => {
                let pname = String::from_str(p);
                if !known.contains_key(&pname) {
                    let mut desktop_file = pname.clone();
                    desktop_file.append(".desktop");
                    let info = unfree_package(&pname, desktop_file);
                    out.insert(pname, info);
                }
            },
            None => {},
        }
    }
    assert(lv.take(lv.len() as int) =~= lv);
    out
}

/// No name found by the `pkgs/by-name` listing is one that was known.
pub proof fn lemma_grep_skips_known(ls: Seq<Seq<char>>, known: Set<Seq<char>>)
    ensures
        forall|k: Seq<char>| #[trigger] grep_index(ls, known).dom().contains(k) ==> !known.contains(k),
    decreases ls.len(),
{
    if ls.len() > 0 {
        lemma_grep_skips_known(ls.drop_last(), known);
        let prev = grep_index(ls.drop_last(), known);
        assert forall|k: Seq<char>| #[trigger] grep_index(ls, known).dom().contains(k) implies !known.contains(k) by {
            if prev.dom().contains(k) {
            }
        }
    }
}

/// Adds each package of `found` whose name `packages` does not hold yet, and
/// returns how many were added; no package already held is changed.
pub fn merge_new(packages: &mut PackageIndex, found: PackageIndex) -> (added: usize)
    ensures
        final(packages)@ == found@.union_prefer_right(old(packages)@),
        final(packages)@.len() == old(packages)@.len() + added,
{
    let n0 = packages.len();
    let ghost old_map = packages@;
    let ghost found_map = found@;
    let entries = found.into_entries();
    let mut added: usize = 0;
    for i in 0..entries.len()
        invariant
            old_map == old(packages)@,
            old_map.dom().finite(),
            packages@.dom().finite(),
            n0 == old_map.len(),
            entries@.len() == found_map.len(),
            forall|j: int| 0 <= j < entries@.len() ==> found_map.dom().contains(#[trigger] entries@[j].0@)
                && found_map[entries@[j].0@] == entries@[j].1@,
            forall|j: int, k: int| 0 <= j < k < entries@.len() ==> entries@[j].0@ != entries@[k].0@,
            forall|k: Seq<char>|
                #[trigger] found_map.dom().contains(k) ==> exists|j: int|
                    0 <= j < entries@.len() && entries@[j].0@ == k,
            packages@.len() == n0 + added,
            added <= i,
            forall|k: Seq<char>| #[trigger]
                packages@.dom().contains(k) <==> (old_map.dom().contains(k) || exists|j: int|
                    0 <= j < i && entries@[j].0@ == k),
            forall|k: Seq<char>| #[trigger]
                old_map.dom().contains(k) ==> packages@[k] == old_map[k],
            forall|j: int|
                0 <= j < i && !old_map.dom().contains(#[trigger] entries@[j].0@) ==> packages@[entries@[j].0@]
                    == entries@[j].1@,
    {
        let (key, info) = &entries[i];
        if !packages.contains_key(key) {
            let ghost before = packages@;
            packages.insert(key.clone(), PackageInfo {
                attr_path: info.attr_path.clone(),
                pname: info.pname.clone(),
                app_id: info.app_id.clone(),
                desktop_file: info.desktop_file.clone(),
                runtime_hint: info.runtime_hint.clone(),
            });
            proof {
                assert(!old_map.dom().contains(key@));
                assert(packages@.dom() =~= before.dom().insert(key@));
            }
            added = added + 1;
            proof {
                assert forall|j: int|
                    0 <= j < i + 1 && !old_map.dom().contains(#[trigger] entries@[j].0@) implies packages@[entries@[j].0@]
                        == entries@[j].1@ by {
                    if j < i {
                        assert(entries@[j].0@ != key@);
                    }
                }
            }
        } else {
            proof {
                assert forall|j: int|
                    0 <= j < i + 1 && !old_map.dom().contains(#[trigger] entries@[j].0@) implies packages@[entries@[j].0@]
                        == entries@[j].1@ by {
                    if j == i {
                        let jj = choose|jj: int| 0 <= jj < i && entries@[jj].0@ == key@;
                        assert(entries@[jj].0@ != entries@[j].0@);
                    }
                }
            }
        }
    }
    proof {
        let m = found_map.union_prefer_right(old_map);
        assert forall|k: Seq<char>| #[trigger] packages@.dom().contains(k) == m.dom().contains(k) by {
            if found_map.dom().contains(k) {
                let j = choose|j: int| 0 <= j < entries@.len() && entries@[j].0@ == k;
            }
        }
        assert forall|k: Seq<char>| #[trigger] packages@.dom().contains(k) implies packages@[k] == m[k] by {
            if !old_map.dom().contains(k) {
                let j = choose|j: int| 0 <= j < entries@.len() && entries@[j].0@ == k;
            }
        }
        assert(packages@ =~= m);
    }
    added
}

/// Merging keeps every package already held, and takes each new name's
/// package from what was found.
pub proof fn lemma_merge_keeps_existing(
    held: Map<Seq<char>, PackageSpec>,
    found: Map<Seq<char>, PackageSpec>,
)
    ensures
        forall|k: Seq<char>| #[trigger] held.dom().contains(k) ==> found.union_prefer_right(held)[k]
            == held[k],
        forall|k: Seq<char>|
            #[trigger] found.dom().contains(k) && !held.dom().contains(k) ==> found.union_prefer_right(
                held,
            )[k] == found[k],
        found.union_prefer_right(held).dom() == held.dom().union(found.dom()),
{
    assert(found.union_prefer_right(held).dom() =~= held.dom().union(found.dom()));
}

/// The expression that evaluates to the nixpkgs source of the flake in
/// directory `cwd`.
pub fn flake_nixpkgs_expr(cwd: &str) -> (r: String)
    ensures
        r@ == "(builtins.getFlake \"path:"@ + cwd@ + "\").inputs.nixpkgs.outPath"@,
{
    let mut r = String::from_str("(builtins.getFlake \"path:");
    r.append(cwd);
    r.append("\").inputs.nixpkgs.outPath");
    r
}

/// The `pkgs/by-name` tree of a nixpkgs source.
pub fn by_name_dir(nixpkgs_src: &str) -> (r: String)
    ensures
        r@ == nixpkgs_src@ + "/pkgs/by-name"@,
{
    let mut r = String::from_str(nixpkgs_src);
    r.append("/pkgs/by-name");
    r
}

/// The package name found in a path holds no slash.
pub proof fn lemma_by_name_pname_plain(path: Seq<char>)
    ensures
        by_name_pname_of(path) matches Some(p) ==> !p.contains('/'),
{
    reveal(by_name_pname_of);
    reveal(second_piece_of);
    if has_infix(path, by_name_marker()) {
        let i = last_occurrence(path, by_name_marker());
        crate::text::lemma_split_pieces_lack_sep(path.skip(i + 9), '/');
        crate::text::lemma_split_pieces_lack_sep(path, '/');
        let pieces = split_on(path.skip(i + 9), '/');
        if pieces.len() >= 3 {
            assert(!pieces[1].contains('/'));
        } else {
            let all = split_on(path, '/');
            if all.len() >= 3 {
                assert(!all[all.len() - 2].contains('/'));
            }
        }
    }
}

/// For `{head}/by-name/{prefix}/{pname}/{tail}`, where this `/by-name/` is
/// the last one of the path and neither `prefix` nor `pname` holds a slash,
/// the package name is `pname`, however deep `tail` goes and whatever
/// `head` holds.
pub proof fn lemma_by_name_nested(
    head: Seq<char>,
    prefix: Seq<char>,
    pname: Seq<char>,
    tail: Seq<char>,
)
    requires
        !prefix.contains('/'),
        !pname.contains('/'),
        forall|k: int|
            k > head.len() ==> !occurs_at(
                head + by_name_marker() + prefix + "/"@ + pname + "/"@ + tail,
                by_name_marker(),
                k,
            ),
    ensures
        by_name_pname_of(head + by_name_marker() + prefix + "/"@ + pname + "/"@ + tail) == Some(
            pname,
        ),
{
    reveal_strlit("/by-name/");
    reveal_strlit("/");
    reveal(by_name_pname_of);
    reveal(second_piece_of);
    let m = by_name_marker();
    let path = head + m + prefix + "/"@ + pname + "/"@ + tail;
    let h = head.len() as int;
    assert(path.subrange(h, h + 9) =~= m);
    assert(occurs_at(path, m, h));
    crate::text::lemma_last_occurrence(path, m, h);
    let rest = path.skip(h + 9);
    assert(rest =~= prefix + "/"@ + pname + "/"@ + tail);
    let p = prefix.len() as int;
    assert(rest[p] == '/');
    assert forall|k: int| 0 <= k < p implies rest[k] != '/' by {
        assert(rest[k] == prefix[k]);
    }
    crate::text::lemma_split_first_sep(rest, '/', p);
    let r2 = rest.skip(p + 1);
    assert(r2 =~= pname + "/"@ + tail);
    let q = pname.len() as int;
    assert(r2[q] == '/');
    assert forall|k: int| 0 <= k < q implies r2[k] != '/' by {
        assert(r2[k] == pname[k]);
    }
    crate::text::lemma_split_first_sep(r2, '/', q);
    crate::text::lemma_split_nonempty(r2.skip(q + 1), '/');
    assert(r2.take(q) =~= pname);
}

/// Every path that mentions `/by-name/` gives a name, and no other does.
pub proof fn lemma_by_name_named(path: Seq<char>)
    ensures
        by_name_pname_of(path) is Some <==> has_infix(path, by_name_marker()),
{
    if has_infix(path, by_name_marker()) {
        lemma_marker_pieces(path);
    }
    reveal(by_name_pname_of);
}

/// A path that mentions `/by-name/` has a piece before its file name.
proof fn lemma_marker_pieces(path: Seq<char>)
    requires
        has_infix(path, by_name_marker()),
    ensures
        piece_before_file(path) is Some,
{
    reveal_strlit("/by-name/");
    let i = choose|i: int| occurs_at(path, by_name_marker(), i);
    assert(path.subrange(i, i + 9)[0] == '/');
    assert(path.subrange(i, i + 9)[8] == '/');
    assert(path[i] == '/');
    assert(path[i + 8] == '/');
    lemma_split_grows(path, i, '/');
    lemma_split_grows(path.take(i + 9), i + 8, '/');
    assert(path.take(i + 9).take(i + 9) =~= path.take(i + 9));
    assert(path.take(i + 8).take(i + 1) =~= path.take(i + 1));
    assert(path.take(i + 9).take(i + 8) =~= path.take(i + 8));
    lemma_split_prefix_monotone(path.take(i + 8), i + 1);
    lemma_split_prefix_monotone(path, i + 9);
    crate::text::lemma_split_nonempty(path.take(i), '/');
}

/// A separator at `k` adds a piece.
proof fn lemma_split_grows(s: Seq<char>, k: int, sep: char)
    requires
        0 <= k < s.len(),
        s[k] == sep,
    ensures
        split_on(s.take(k + 1), sep).len() == split_on(s.take(k), sep).len() + 1,
{
    assert(s.take(k + 1).drop_last() =~= s.take(k));
}

/// A longer prefix has at least as many pieces.
proof fn lemma_split_prefix_monotone(s: Seq<char>, k: int)
    requires
        0 <= k <= s.len(),
    ensures
        split_on(s, '/').len() >= split_on(s.take(k), '/').len(),
    decreases s.len() - k,
{
    if k < s.len() {
        lemma_split_prefix_monotone(s, k + 1);
        crate::text::lemma_split_nonempty(s.take(k), '/');
        assert(s.take(k + 1).drop_last() =~= s.take(k));
    } else {
        assert(s.take(k) =~= s);
    }
}

} // verus!
