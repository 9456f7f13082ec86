//! Discovery of packages that ship a `.desktop` file, from a `nix-locate`
//! listing.

use vstd::prelude::*;
use vstd::string::StrSliceExecFns;

use crate::desktop_parser::{alphanumeric_only, app_id_of, extract_app_id};
use crate::runtime_detector::{detect, lowercase_of, runtime_for};
use crate::text::{
    chars_of, ends_with_chars, has_prefix, has_suffix, is_white_space, is_white_space_exec,
    last_piece, lemma_words_shape, lines, lines_of, same_chars, split_on, starts_with_chars,
    string_of, words, words_of,
};
use crate::types::{PackageIndex, PackageInfo, PackageSpec};

verus! {

/// Where to write the result, and which nix-index database to ask.
pub struct DiscoverOptions {
    pub output_path: String,
    /// Path to a custom nix-index database directory; without one,
    /// `nix-locate` uses its own default.
    pub database: Option<String>,
}

/// The attribute path and store path of a `nix-locate` line: its first and
/// fourth whitespace-separated fields, where there are four and the fourth
/// is an absolute path.
pub open spec fn parsed_line(line: Seq<char>) -> Option<(Seq<char>, Seq<char>)> {
    let w = words(line);
    if w.len() >= 4 && w[3].len() > 0 && w[3][0] == '/' {
        Some((w[0], w[3]))
    } else {
        None
    }
}

/// Splits a `nix-locate` line into its attribute path and store path.
pub fn parse_line(line: &str) -> (r: Option<(String, String)>)
    ensures
        match r {
            Some((attr, path)) => parsed_line(line@) == Some((attr@, path@)),
            None => parsed_line(line@) is None,
        },
{
    let v = chars_of(line);
    let w = words_of(&v);
    if w.len() >= 4 && w[3].len() > 0 && w[3][0] == '/' {
        Some((string_of(&w[0]), string_of(&w[3])))
    } else {
        None
    }
}

/// A parsed line has a non-empty attribute path free of white space and a
/// store path that starts with `/`.
pub proof fn lemma_parsed_line_shape(line: Seq<char>)
    ensures
        parsed_line(line) matches Some((attr, path)) ==> {
            &&& attr.len() > 0
            &&& forall|j: int| 0 <= j < attr.len() ==> !is_white_space(#[trigger] attr[j])
            &&& path.len() > 0 && path[0] == '/'
        },
{
    lemma_words_shape(line);
    if parsed_line(line) is Some {
        assert(words(line)[0].len() > 0);
    }
}

/// The attribute ends in the name of a secondary output.
pub open spec fn secondary_output(attr: Seq<char>) -> bool {
    ||| has_suffix(attr, ".dev"@)
    ||| has_suffix(attr, ".lib"@)
    ||| has_suffix(attr, ".doc"@)
    ||| has_suffix(attr, ".man"@)
    ||| has_suffix(attr, ".debug"@)
    ||| has_suffix(attr, ".info"@)
    ||| has_suffix(attr, ".static"@)
}

fn ends_with_str(a: &[char], suffix: &str) -> (b: bool)
    ensures
        b == has_suffix(a@, suffix@),
{
    let s = chars_of(suffix);
    ends_with_chars(a, &s)
}

/// Whether the attribute names a secondary output (`.dev`, `.lib`, `.doc`,
/// `.man`, `.debug`, `.info`, `.static`).
pub fn ends_with_secondary_output(attr: &str) -> (b: bool)
    ensures
        b == secondary_output(attr@),
{
    let a = chars_of(attr);
    ends_with_str(&a, ".dev") || ends_with_str(&a, ".lib") || ends_with_str(&a, ".doc")
        || ends_with_str(&a, ".man") || ends_with_str(&a, ".debug") || ends_with_str(&a, ".info")
        || ends_with_str(&a, ".static")
}

/// `a` without its last `n` characters.
pub open spec fn drop_end(a: Seq<char>, n: nat) -> Seq<char> {
    a.subrange(0, a.len() - n)
}

/// The attribute without the first output suffix of `.out`, `.dev`, `.lib`,
/// `.doc`, `.man`, `.debug`, `.info`, `.static` that it ends with.
pub open spec fn output_stripped(a: Seq<char>) -> Seq<char> {
    if has_suffix(a, ".out"@) {
        drop_end(a, 4)
    } else if has_suffix(a, ".dev"@) {
        drop_end(a, 4)
    } else if has_suffix(a, ".lib"@) {
        drop_end(a, 4)
    } else if has_suffix(a, ".doc"@) {
        drop_end(a, 4)
    } else if has_suffix(a, ".man"@) {
        drop_end(a, 4)
    } else if has_suffix(a, ".debug"@) {
        drop_end(a, 6)
    } else if has_suffix(a, ".info"@) {
        drop_end(a, 5)
    } else if has_suffix(a, ".static"@) {
        drop_end(a, 7)
    } else {
        a
    }
}

/// Drops the output suffix from an attribute path, where it has one.
pub fn strip_output_suffix(attr: &str) -> (r: &str)
    ensures
        r@ == output_stripped(attr@),
{
    proof {
        reveal_strlit(".out");
        reveal_strlit(".dev");
        reveal_strlit(".lib");
        reveal_strlit(".doc");
        reveal_strlit(".man");
        reveal_strlit(".debug");
        reveal_strlit(".info");
        reveal_strlit(".static");
    }
    let a = chars_of(attr);
    let n = a.len();
    if ends_with_str(&a, ".out") || ends_with_str(&a, ".dev") || ends_with_str(&a, ".lib")
        || ends_with_str(&a, ".doc") || ends_with_str(&a, ".man") {
        attr.substring_char(0, n - 4)
    } else if ends_with_str(&a, ".debug") {
        attr.substring_char(0, n - 6)
    } else if ends_with_str(&a, ".info") {
        attr.substring_char(0, n - 5)
    } else if ends_with_str(&a, ".static") {
        attr.substring_char(0, n - 7)
    } else {
        attr
    }
}

/// Stripping keeps a prefix of the attribute, and a secondary output always
/// loses its suffix.
pub proof fn lemma_output_stripped(a: Seq<char>)
    ensures
        has_prefix(a, output_stripped(a)),
        secondary_output(a) ==> output_stripped(a).len() < a.len(),
        has_suffix(a, ".out"@) ==> output_stripped(a) == drop_end(a, 4),
{
    reveal_strlit(".out");
    reveal_strlit(".dev");
    reveal_strlit(".lib");
    reveal_strlit(".doc");
    reveal_strlit(".man");
    reveal_strlit(".debug");
    reveal_strlit(".info");
    reveal_strlit(".static");
    let r = output_stripped(a);
    assert(a.subrange(0, r.len() as int) =~= r);
}

/// The arguments of the `nix-locate` query for `.desktop` files under
/// `share/applications`, with the database where one is given.
pub open spec fn nix_locate_args_of(database: Option<Seq<char>>) -> Seq<Seq<char>> {
    let query = seq!["--regex"@, "--at-root"@, "/share/applications/[^/]+\\.desktop$"@];
    match database {
        Some(db) => seq!["--database"@, db] + query,
        None => query,
    }
}

/// The arguments of the `nix-locate` query.
pub fn nix_locate_args(database: &Option<String>) -> (args: Vec<String>)
    ensures
        args@.map_values(|a: String| a@) == nix_locate_args_of(
            match database {
                Some(db) => Some(db@),
                None => None,
            },
        ),
{
    let mut args: Vec<String> = Vec::new();
    match database {
        Some(db) => {
            args.push(String::from_str("--database"));
            args.push(db.clone());
        },
        None => {},
    }
    args.push(String::from_str("--regex"));
    args.push(String::from_str("--at-root"));
    args.push(String::from_str("/share/applications/[^/]+\\.desktop$"));
    assert(args@.map_values(|a: String| a@) =~= nix_locate_args_of(
        match database {
            Some(db) => Some(db@),
            None => None,
        },
    ));
    args
}

/// A package to look at more closely: its attribute path without the output
/// suffix, its name, its `.desktop` file name and the store path of that file.
pub struct Candidate {
    pub attr_path: String,
    pub pname: String,
    pub desktop_filename: String,
    pub store_path: String,
}

/// What a line of the listing leads to.
pub enum LineOutcome {
    /// Only white space.
    Blank,
    /// Not an attribute path followed by three fields, the last a store path.
    Unparseable,
    /// A secondary output (`.dev`, `.lib`, ...).
    SecondaryOutput,
    /// A package of that name was already taken.
    KnownPackage,
    /// The path does not end in a `.desktop` file.
    NotDesktopFile,
    /// A candidate whose `.desktop` file is to be fetched.
    Fetch(Candidate),
}

/// What a line leads to, with character sequences for strings.
pub enum LineVerdict {
    Blank,
    Unparseable,
    SecondaryOutput,
    KnownPackage,
    NotDesktopFile,
    Fetch { attr_path: Seq<char>, pname: Seq<char>, desktop_filename: Seq<char>, store_path: Seq<char> },
}

impl View for LineOutcome {
    type V = LineVerdict;

    open spec fn view(&self) -> LineVerdict {
        match self {
            LineOutcome::Blank => LineVerdict::Blank,
            LineOutcome::Unparseable => LineVerdict::Unparseable,
            LineOutcome::SecondaryOutput => LineVerdict::SecondaryOutput,
            LineOutcome::KnownPackage => LineVerdict::KnownPackage,
            LineOutcome::NotDesktopFile => LineVerdict::NotDesktopFile,
            LineOutcome::Fetch(c) => LineVerdict::Fetch {
                attr_path: c.attr_path@,
                pname: c.pname@,
                desktop_filename: c.desktop_filename@,
                store_path: c.store_path@,
            },
        }
    }
}

/// The line holds only white space.
pub open spec fn blank(line: Seq<char>) -> bool {
    forall|i: int| 0 <= i < line.len() ==> is_white_space(#[trigger] line[i])
}

/// The package name of an attribute path: its last dot-separated piece.
pub open spec fn pname_of(attr_path: Seq<char>) -> Seq<char> {
    split_on(attr_path, '.').last()
}

/// The file name of a path: its last slash-separated piece.
pub open spec fn file_name_of(path: Seq<char>) -> Seq<char> {
    split_on(path, '/').last()
}

/// What a line of the listing leads to, given the names already taken.
pub open spec fn line_verdict(taken: Set<Seq<char>>, line: Seq<char>) -> LineVerdict {
    if blank(line) {
        LineVerdict::Blank
    } else {
        match parsed_line(line) {
            None => LineVerdict::Unparseable,
            Some((attr, path)) => {
                let attr_path = output_stripped(attr);
                let pname = pname_of(attr_path);
                let fname = file_name_of(path);
                if secondary_output(attr) {
                    LineVerdict::SecondaryOutput
                } else if taken.contains(pname) {
                    LineVerdict::KnownPackage
                } else if !has_suffix(fname, ".desktop"@) {
                    LineVerdict::NotDesktopFile
                } else {
                    LineVerdict::Fetch {
                        attr_path,
                        pname,
                        desktop_filename: fname,
                        store_path: path,
                    }
                }
            },
        }
    }
}

fn is_blank(v: &[char]) -> (b: bool)
    ensures
        b == blank(v@),
{
    for i in 0..v.len()
        invariant
            forall|k: int| 0 <= k < i ==> is_white_space(v@[k]),
    {
        if !is_white_space_exec(v[i]) {
            return false;
        }
    }
    true
}

/// Decides what to do with one line of the `nix-locate` listing, given the
/// packages found so far.
pub fn classify_line(found: &PackageIndex, line: &str) -> (r: LineOutcome)
    ensures
        r@ == line_verdict(found@.dom(), line@),
{
    let v = chars_of(line);
    if is_blank(&v) {
        return LineOutcome::Blank;
    }
    let (attr, path) = match parse_line(line) {
        Some(pair) => pair,
        None => return LineOutcome::Unparseable,
    };
    if ends_with_secondary_output(attr.as_str()) {
        return LineOutcome::SecondaryOutput;
    }
    let attr_path = strip_output_suffix(attr.as_str());
    let ap = chars_of(attr_path);
    let pname = string_of(&last_piece(&ap, '.'));
    if found.contains_key(&pname) {
        return LineOutcome::KnownPackage;
    }
    let p = chars_of(path.as_str());
    let fname = last_piece(&p, '/');
    let suffix = chars_of(".desktop");
    if !ends_with_chars(&fname, &suffix) {
        return LineOutcome::NotDesktopFile;
    }
    LineOutcome::Fetch(
        Candidate {
            attr_path: string_of(&ap),
            pname,
            desktop_filename: string_of(&fname),
            store_path: path,
        },
    )
}

/// The value of the first line of `ls` that starts with `key=`.
pub open spec fn field_in(ls: Seq<Seq<char>>, key: Seq<char>) -> Option<Seq<char>>
    decreases ls.len(),
{
    if ls.len() == 0 {
        None
    } else if has_prefix(ls[0], key.push('=')) {
        Some(ls[0].subrange(key.len() + 1int, ls[0].len() as int))
    } else {
        field_in(ls.drop_first(), key)
    }
}

/// The value of `key` in a desktop file: what follows `key=` on the first
/// line that starts so.
pub open spec fn desktop_field(content: Seq<char>, key: Seq<char>) -> Option<Seq<char>> {
    field_in(lines(content), key)
}

/// Looks up `key` in the text of a desktop file.
pub fn desktop_field_of(content: &str, key: &str) -> (r: Option<String>)
    ensures
        match r {
            Some(v) => desktop_field(content@, key@) == Some(v@),
            None => desktop_field(content@, key@) is None,
        },
{
    let ls = lines_of(content);
    let ghost lv = ls@.map_values(|l: String| l@);
    let mut k = chars_of(key);
    k.push('=');
    let klen = k.len();
    assert(lv.skip(0) =~= lv);
    for i in 0..ls.len()
        invariant
            lv == ls@.map_values(|l: String| l@),
            lv == lines(content@),
            k@ == key@.push('='),
            klen == k@.len(),
            field_in(lv, key@) == field_in(lv.skip(i as int), key@),
    {
        let l = chars_of(ls[i].as_str());
        assert(lv.skip(i as int).drop_first() =~= lv.skip(i + 1));
        assert(lv.skip(i as int)[0] == l@);
        if starts_with_chars(&l, &k) {
            let n = l.len();
            let mut value: Vec<char> = Vec::new();
            for j in klen..n
                invariant
                    klen <= j <= n == l@.len(),
                    value@ == l@.subrange(klen as int, j as int),
            {
                value.push(l[j]);
                assert(l@.subrange(klen as int, j + 1) == l@.subrange(klen as int, j as int).push(
                    l@[j as int],
                ));
            }
            return Some(string_of(&value));
        }
    }
    assert(lv.skip(lv.len() as int) =~= Seq::<Seq<char>>::empty());
    None
}

/// The desktop entry is shown as an application: its `Type` is
/// `Application` or missing, and neither `NoDisplay` nor `Hidden` is `true`.
pub open spec fn shown_application(content: Seq<char>) -> bool {
    &&& match desktop_field(content, "Type"@) {
        Some(t) => t == "Application"@,
        None => true,
    }
    &&& desktop_field(content, "NoDisplay"@) != Some("true"@)
    &&& desktop_field(content, "Hidden"@) != Some("true"@)
}

/// What became of a candidate once its desktop file was read.
pub enum EntryOutcome {
    /// The file was empty.
    EmptyFile,
    /// A package of that name was already taken.
    AlreadyKnown,
    /// The entry is not an application, or is hidden.
    NotShown,
    /// The package was recorded.
    Added,
}

/// The record for a candidate, as its attribute path, name and file name
/// give it.
pub open spec fn candidate_record(
    attr_path: Seq<char>,
    pname: Seq<char>,
    desktop_filename: Seq<char>,
) -> PackageSpec {
    PackageSpec {
        attr_path,
        pname,
        app_id: app_id_of(desktop_filename, alphanumeric_only(pname)),
        desktop_file: desktop_filename,
        runtime_hint: runtime_for(lowercase_of(attr_path), lowercase_of(desktop_filename)),
    }
}

fn is_str(v: &Option<String>, s: &str) -> (b: bool)
    ensures
        b == (match v {
            Some(x) => x@ == s@,
            None => false,
        }),
{
    match v {
        Some(x) => {
            let a = chars_of(x.as_str());
            let b = chars_of(s);
            same_chars(&a, &b)
        },
        None => false,
    }
}

/// Records a candidate whose desktop file reads `content`, where the file
/// is not empty, shows an application, and the name is not yet taken; a
/// name once taken is never overwritten.
pub fn admit_candidate(found: &mut PackageIndex, candidate: Candidate, content: &str) -> (r:
    EntryOutcome)
    ensures
        content@.len() == 0 ==> r is EmptyFile && final(found)@ == old(found)@,
        content@.len() > 0 && old(found)@.dom().contains(candidate.pname@) ==> r is AlreadyKnown
            && final(found)@ == old(found)@,
        content@.len() > 0 && !old(found)@.dom().contains(candidate.pname@) && !shown_application(
            content@,
        ) ==> r is NotShown && final(found)@ == old(found)@,
        content@.len() > 0 && !old(found)@.dom().contains(candidate.pname@) && shown_application(
            content@,
        ) ==> r is Added && final(found)@ == old(found)@.insert(
            candidate.pname@,
            candidate_record(candidate.attr_path@, candidate.pname@, candidate.desktop_filename@),
        ),
{
    if content.is_empty() {
        return EntryOutcome::EmptyFile;
    }
    if found.contains_key(&candidate.pname) {
        return EntryOutcome::AlreadyKnown;
    }
    let entry_type = desktop_field_of(content, "Type");
    let is_app = match &entry_type {
        Some(_) => is_str(&entry_type, "Application"),
        None => true,
    };
    if !is_app {
        return EntryOutcome::NotShown;
    }
    if is_str(&desktop_field_of(content, "NoDisplay"), "true") || is_str(
        &desktop_field_of(content, "Hidden"),
        "true",
    ) {
        return EntryOutcome::NotShown;
    }
    let app_id = extract_app_id(candidate.desktop_filename.as_str(), candidate.pname.as_str());
    let runtime = detect(candidate.attr_path.as_str(), candidate.desktop_filename.as_str());
    let key = candidate.pname.clone();
    found.insert(
        key,
        PackageInfo {
            attr_path: candidate.attr_path,
            pname: candidate.pname,
            app_id,
            desktop_file: candidate.desktop_filename,
            runtime_hint: String::from_str(runtime),
        },
    );
    EntryOutcome::Added
}

/// A candidate's name holds no dot, its file name no slash and ends in
/// `.desktop`, and its store path is absolute; its name was not taken.
pub proof fn lemma_candidate_shape(taken: Set<Seq<char>>, line: Seq<char>)
    ensures
        line_verdict(taken, line) matches LineVerdict::Fetch {
            attr_path,
            pname,
            desktop_filename,
            store_path,
        } ==> {
            &&& !pname.contains('.')
            &&& !taken.contains(pname)
            &&& !desktop_filename.contains('/')
            &&& has_suffix(desktop_filename, ".desktop"@)
            &&& store_path.len() > 0 && store_path[0] == '/'
        },
{
    lemma_parsed_line_shape(line);
    if let Some((attr, path)) = parsed_line(line) {
        let ap = output_stripped(attr);
        crate::text::lemma_split_nonempty(ap, '.');
        crate::text::lemma_split_pieces_lack_sep(ap, '.');
        crate::text::lemma_split_nonempty(path, '/');
        crate::text::lemma_split_pieces_lack_sep(path, '/');
        let pp = split_on(ap, '.');
        let fp = split_on(path, '/');
        assert(!pp[pp.len() - 1].contains('.'));
        assert(!fp[fp.len() - 1].contains('/'));
    }
}

/// `NoDisplay` and `Hidden` hide an entry exactly when their value is
/// `true`: any other value, `false` among them, or none leaves an
/// application entry shown; and `Type` decides only when it is given and is
/// not `Application`.
pub proof fn lemma_shown_exactly(content: Seq<char>)
    ensures
        desktop_field(content, "NoDisplay"@) == Some("true"@) ==> !shown_application(content),
        desktop_field(content, "Hidden"@) == Some("true"@) ==> !shown_application(content),
        (desktop_field(content, "Type"@) matches Some(t) && t != "Application"@) ==> !shown_application(
            content,
        ),
        (desktop_field(content, "Type"@) is None || desktop_field(content, "Type"@) == Some(
            "Application"@,
        )) && desktop_field(content, "NoDisplay"@) != Some("true"@) && desktop_field(
            content,
            "Hidden"@,
        ) != Some("true"@) ==> shown_application(content),
        desktop_field(content, "NoDisplay"@) == Some("false"@) && desktop_field(content, "Type"@)
            == Some("Application"@) && desktop_field(content, "Hidden"@) is None ==> shown_application(
            content,
        ),
{
    reveal_strlit("false");
    reveal_strlit("true");
    assert("false"@ != "true"@) by {
        assert("false"@.len() != "true"@.len());
    }
}

} // verus!
