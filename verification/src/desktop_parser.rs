//! Flatpak application IDs derived from `.desktop` file names.

use vstd::prelude::*;

use crate::text::{
    lemma_join_has_sep, lemma_split_at_sep, lemma_split_join, lemma_split_nonempty,
    lemma_split_pieces_lack_sep, chars_of, concat_chars, contains_char, ends_with_chars, has_suffix, join_chars, join_on,
    slice_chars, split_chars, split_on, string_of, views,
};

verus! {

broadcast use vstd::seq_lib::group_seq_properties;

/// What `char::is_alphanumeric` answers for `c` (Unicode's Alphabetic or
/// Numeric property).
pub uninterp spec fn char_is_alphanumeric(c: char) -> bool;

/// Calls `char::is_alphanumeric`. The contract names its answer and says
/// nothing more of it: the Unicode tables it consults are not stated here.
#[verifier::external_body]
fn is_alphanumeric(c: char) -> (b: bool)
    ensures
        b == char_is_alphanumeric(c),
{
    c.is_alphanumeric()
}

/// `c` is one of the ASCII digits `0` to `9`.
pub open spec fn is_ascii_digit(c: char) -> bool {
    '0' <= c && c <= '9'
}

/// The file name without a trailing `.desktop`, where it has one.
pub open spec fn desktop_stem(f: Seq<char>) -> Seq<char> {
    if has_suffix(f, ".desktop"@) {
        f.subrange(0, f.len() - ".desktop"@.len())
    } else {
        f
    }
}

/// A segment that starts with a digit gets an `a` in front of it.
pub open spec fn fix_segment(seg: Seq<char>) -> Seq<char> {
    if seg.len() > 0 && is_ascii_digit(seg[0]) {
        seq!['a'] + seg
    } else {
        seg
    }
}

/// The dot-separated segments of `raw`, each made to start with a non-digit.
pub open spec fn sanitized_id(raw: Seq<char>) -> Seq<char> {
    join_on(split_on(raw, '.').map_values(|g: Seq<char>| fix_segment(g)), '.')
}

/// The ID before sanitising: the stem where it already holds a dot, else
/// one made from the cleaned package name.
pub open spec fn raw_app_id(stem: Seq<char>, clean_pname: Seq<char>) -> Seq<char> {
    if stem.contains('.') {
        stem
    } else {
        "org.nixpkgs."@ + clean_pname
    }
}

/// The application ID for a desktop file name and a package name whose
/// non-alphanumeric characters were already dropped.
pub open spec fn app_id_of(desktop_filename: Seq<char>, clean_pname: Seq<char>) -> Seq<char> {
    sanitized_id(raw_app_id(desktop_stem(desktop_filename), clean_pname))
}

/// The alphanumeric characters of `p`, in order.
pub open spec fn alphanumeric_only(p: Seq<char>) -> Seq<char> {
    p.filter(|c: char| char_is_alphanumeric(c))
}

fn fix_segment_exec(seg: &Vec<char>) -> (r: Vec<char>)
    ensures
        r@ == fix_segment(seg@),
{
    if seg.len() > 0 && seg[0] >= '0' && seg[0] <= '9' {
        let a: Vec<char> = vec!['a'];
        concat_chars(&a, seg)
    } else {
        seg.clone()
    }
}

/// Prefixes with `a` every dot-separated segment of `raw` that starts with
/// an ASCII digit, as D-Bus and Flatpak names require.
pub fn sanitize_app_id(raw: &str) -> (id: String)
    ensures
        id@ == sanitized_id(raw@),
{
    let v = chars_of(raw);
    let segs = split_chars(&v, '.');
    let mut fixed: Vec<Vec<char>> = Vec::new();
    for k in 0..segs.len()
        invariant
            views(fixed@) == views(segs@).take(k as int).map_values(|g: Seq<char>| fix_segment(g)),
    {
        let f = fix_segment_exec(&segs[k]);
        let ghost before = fixed@;
        fixed.push(f);
        proof {
            let fs = |g: Seq<char>| fix_segment(g);
            let t = views(segs@).take(k as int);
            assert(views(segs@).take(k + 1) =~= t.push(segs@[k as int]@));
            assert(t.push(segs@[k as int]@).map_values(fs) =~= t.map_values(fs).push(
                fix_segment(segs@[k as int]@),
            ));
            assert(fixed@ =~= before.push(f));
            assert(views(before.push(f)) =~= views(before).push(f@));
        }
    }
    assert(views(segs@).take(segs@.len() as int) == views(segs@));
    let joined = join_chars(&fixed, '.');
    string_of(&joined)
}

/// The application ID for `desktop_filename`, where `clean_pname` is the
/// package name with only its alphanumeric characters kept.
pub fn app_id_from_clean_pname(desktop_filename: &str, clean_pname: &str) -> (id: String)
    ensures
        id@ == app_id_of(desktop_filename@, clean_pname@),
{
    let f = chars_of(desktop_filename);
    let suffix = chars_of(".desktop");
    let stem = if ends_with_chars(&f, &suffix) {
        slice_chars(&f, 0, f.len() - suffix.len())
    } else {
        f
    };
    let raw = if contains_char(&stem, '.') {
        stem
    } else {
        let prefix = chars_of("org.nixpkgs.");
        let clean = chars_of(clean_pname);
        concat_chars(&prefix, &clean)
    };
    let raw_s = string_of(&raw);
    sanitize_app_id(raw_s.as_str())
}

/// Derives a Flatpak-style application ID from the `.desktop` file name:
/// its stem where that holds a dot, else `org.nixpkgs.` and the
/// alphanumeric characters of `pname`; segments that start with a digit
/// get an `a` in front.
pub fn extract_app_id(desktop_filename: &str, pname: &str) -> (id: String)
    ensures
        id@ == app_id_of(desktop_filename@, alphanumeric_only(pname@)),
{
    let p = chars_of(pname);
    let mut clean: Vec<char> = Vec::new();
    for i in 0..p.len()
        invariant
            clean@ == alphanumeric_only(p@.take(i as int)),
    {
        let c = p[i];
        if is_alphanumeric(c) {
            clean.push(c);
        }
        proof {
            p@.take(i as int).lemma_filter_push(c, |c: char| char_is_alphanumeric(c));
            assert(p@.take(i + 1) == p@.take(i as int).push(c));
        }
    }
    assert(p@.take(p@.len() as int) == p@);
    let clean_s = string_of(&clean);
    app_id_from_clean_pname(desktop_filename, clean_s.as_str())
}

/// Splitting a sanitised ID at its dots gives the sanitised segments of the
/// raw ID, one for one.
pub proof fn lemma_split_sanitized(raw: Seq<char>)
    ensures
        split_on(sanitized_id(raw), '.') == split_on(raw, '.').map_values(
            |g: Seq<char>| fix_segment(g),
        ),
{
    let segs = split_on(raw, '.');
    let fixed = segs.map_values(|g: Seq<char>| fix_segment(g));
    lemma_split_nonempty(raw, '.');
    lemma_split_pieces_lack_sep(raw, '.');
    assert forall|k: int| 0 <= k < fixed.len() implies !(#[trigger] fixed[k]).contains('.') by {
        let g = segs[k];
        assert(!g.contains('.'));
        if fixed[k].contains('.') {
            let j = choose|j: int| 0 <= j < fixed[k].len() && fixed[k][j] == '.';
            if g.len() > 0 && is_ascii_digit(g[0]) {
                assert(fixed[k] == seq!['a'] + g);
                assert(g[j - 1] == '.');
            } else {
                assert(g[j] == '.');
            }
        }
    }
    lemma_split_join(fixed, '.');
}

/// Every dot-separated segment of a sanitised ID starts with something
/// other than an ASCII digit, and sanitising keeps the number of segments.
pub proof fn lemma_sanitized_segments(raw: Seq<char>)
    ensures
        split_on(sanitized_id(raw), '.').len() == split_on(raw, '.').len(),
        forall|k: int|
            0 <= k < split_on(sanitized_id(raw), '.').len() ==> {
                let seg = #[trigger] split_on(sanitized_id(raw), '.')[k];
                seg.len() == 0 || !is_ascii_digit(seg[0])
            },
{
    lemma_split_sanitized(raw);
    let segs = split_on(raw, '.');
    assert forall|k: int| 0 <= k < split_on(sanitized_id(raw), '.').len() implies {
        let seg = #[trigger] split_on(sanitized_id(raw), '.')[k];
        seg.len() == 0 || !is_ascii_digit(seg[0])
    } by {
        let g = segs[k];
        if g.len() > 0 && is_ascii_digit(g[0]) {
            assert((seq!['a'] + g)[0] == 'a');
        }
    }
}

/// Sanitising an ID that is already sanitised changes nothing.
pub proof fn lemma_sanitize_idempotent(raw: Seq<char>)
    ensures
        sanitized_id(sanitized_id(raw)) == sanitized_id(raw),
{
    lemma_split_sanitized(raw);
    let fs = |g: Seq<char>| fix_segment(g);
    let once = split_on(raw, '.').map_values(fs);
    assert(once.map_values(fs) =~= once) by {
        assert forall|k: int| 0 <= k < once.len() implies #[trigger] once.map_values(fs)[k]
            == once[k] by {
            let g = split_on(raw, '.')[k];
            if g.len() > 0 && is_ascii_digit(g[0]) {
                assert((seq!['a'] + g)[0] == 'a');
            }
        }
    }
}

/// Every application ID holds at least one dot, and no dot-separated
/// segment of it starts with an ASCII digit.
pub proof fn lemma_app_id_well_formed(desktop_filename: Seq<char>, clean_pname: Seq<char>)
    ensures
        app_id_of(desktop_filename, clean_pname).contains('.'),
        forall|k: int|
            0 <= k < split_on(app_id_of(desktop_filename, clean_pname), '.').len() ==> {
                let seg = #[trigger] split_on(app_id_of(desktop_filename, clean_pname), '.')[k];
                seg.len() == 0 || !is_ascii_digit(seg[0])
            },
{
    let stem = desktop_stem(desktop_filename);
    let raw = raw_app_id(stem, clean_pname);
    if !stem.contains('.') {
        reveal_strlit("org.nixpkgs.");
        assert(raw[3] == '.');
    }
    assert(raw.contains('.'));
    lemma_split_at_sep(raw, '.');
    lemma_join_has_sep(split_on(raw, '.').map_values(|g: Seq<char>| fix_segment(g)), '.');
    lemma_sanitized_segments(raw);
}

} // verus!
