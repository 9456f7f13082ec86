//! Choice of the Flatpak runtime for a package.

use vstd::prelude::*;

use crate::text::{chars_of, contains_chars, has_infix, has_prefix, starts_with_chars};

verus! {

/// What `str::to_lowercase` returns for `s` (Unicode's lowercase mapping).
pub uninterp spec fn lowercase_of(s: Seq<char>) -> Seq<char>;

/// Calls `str::to_lowercase`. The contract names the result as a function of
/// the argument and states no more: Unicode's case tables are not stated here.
#[verifier::external_body]
fn to_lowercase(s: &str) -> (r: String)
    ensures
        r@ == lowercase_of(s@),
{
    s.to_lowercase()
}

/// The KDE runtime.
pub open spec fn kde_runtime() -> Seq<char> {
    "org.kde.Platform/6.10"@
}

/// The GNOME runtime.
pub open spec fn gnome_runtime() -> Seq<char> {
    "org.gnome.Platform/49"@
}

/// The freedesktop runtime, for everything else.
pub open spec fn freedesktop_runtime() -> Seq<char> {
    "org.freedesktop.Platform/24.08"@
}

/// `sig` stands in the attribute path or in the file name.
pub open spec fn mentions(attr: Seq<char>, fname: Seq<char>, sig: Seq<char>) -> bool {
    has_infix(attr, sig) || has_infix(fname, sig)
}

/// A KDE or Qt signal: one of the words, or an attribute path that starts
/// with `kdepackages`.
pub open spec fn kde_signal(attr: Seq<char>, fname: Seq<char>) -> bool {
    ||| mentions(attr, fname, "kde"@)
    ||| mentions(attr, fname, "plasma"@)
    ||| mentions(attr, fname, "qt"@)
    ||| mentions(attr, fname, "kf5"@)
    ||| mentions(attr, fname, "kf6"@)
    ||| has_prefix(attr, "kdepackages"@)
}

/// A GNOME, GTK or libadwaita signal.
pub open spec fn gnome_signal(attr: Seq<char>, fname: Seq<char>) -> bool {
    ||| mentions(attr, fname, "gnome"@)
    ||| mentions(attr, fname, "gtk"@)
    ||| mentions(attr, fname, "libadwaita"@)
    ||| mentions(attr, fname, "adwaita"@)
}

/// An Electron signal.
pub open spec fn electron_signal(attr: Seq<char>, fname: Seq<char>) -> bool {
    mentions(attr, fname, "electron"@)
}

/// The runtime for a lowercased attribute path and file name: KDE signals
/// win over GNOME ones; GNOME and Electron apps get the GNOME runtime;
/// everything else the freedesktop one.
pub open spec fn runtime_for(attr: Seq<char>, fname: Seq<char>) -> Seq<char> {
    if kde_signal(attr, fname) {
        kde_runtime()
    } else if gnome_signal(attr, fname) || electron_signal(attr, fname) {
        gnome_runtime()
    } else {
        freedesktop_runtime()
    }
}

fn mentions_exec(attr: &[char], fname: &[char], sig: &str) -> (b: bool)
    ensures
        b == mentions(attr@, fname@, sig@),
{
    let s = chars_of(sig);
    contains_chars(attr, &s) || contains_chars(fname, &s)
}

/// Picks the runtime from an attribute path and a file name that are
/// already lowercase.
pub fn detect_lowered(attr: &str, fname: &str) -> (r: &'static str)
    ensures
        r@ == runtime_for(attr@, fname@),
{
    let a = chars_of(attr);
    let f = chars_of(fname);
    let kdep = chars_of("kdepackages");
    if mentions_exec(&a, &f, "kde") || mentions_exec(&a, &f, "plasma") || mentions_exec(
        &a,
        &f,
        "qt",
    ) || mentions_exec(&a, &f, "kf5") || mentions_exec(&a, &f, "kf6") || starts_with_chars(
        &a,
        &kdep,
    ) {
        return "org.kde.Platform/6.10";
    }
    if mentions_exec(&a, &f, "gnome") || mentions_exec(&a, &f, "gtk") || mentions_exec(
        &a,
        &f,
        "libadwaita",
    ) || mentions_exec(&a, &f, "adwaita") {
        return "org.gnome.Platform/49";
    }
    if mentions_exec(&a, &f, "electron") {
        return "org.gnome.Platform/49";
    }
    "org.freedesktop.Platform/24.08"
}

/// Picks the best Flatpak runtime from the package's attribute path and
/// `.desktop` file name, both compared in lowercase.
pub fn detect(attr_path: &str, desktop_filename: &str) -> (r: &'static str)
    ensures
        r@ == runtime_for(lowercase_of(attr_path@), lowercase_of(desktop_filename@)),
{
    let attr = to_lowercase(attr_path);
    let fname = to_lowercase(desktop_filename);
    detect_lowered(attr.as_str(), fname.as_str())
}

/// The runtime is always one of the three, and a KDE signal decides for KDE
/// whatever GNOME signals stand beside it.
pub proof fn lemma_runtime_choice(attr: Seq<char>, fname: Seq<char>)
    ensures
        runtime_for(attr, fname) == kde_runtime() || runtime_for(attr, fname) == gnome_runtime()
            || runtime_for(attr, fname) == freedesktop_runtime(),
        kde_signal(attr, fname) ==> runtime_for(attr, fname) == kde_runtime(),
        !kde_signal(attr, fname) && gnome_signal(attr, fname) ==> runtime_for(attr, fname)
            == gnome_runtime(),
{
}

/// Which of the two strings holds a signal word does not matter: with
/// neither string starting with `kdepackages`, swapping the attribute path
/// and the file name gives the same runtime.
pub proof fn lemma_runtime_symmetric(attr: Seq<char>, fname: Seq<char>)
    requires
        !has_prefix(attr, "kdepackages"@),
        !has_prefix(fname, "kdepackages"@),
    ensures
        runtime_for(attr, fname) == runtime_for(fname, attr),
{
}

/// A KDE word (`kde`, `plasma`, `qt`, `kf5`, `kf6`) in either string picks
/// the KDE runtime, whatever else the strings hold.
pub proof fn lemma_kde_word_anywhere(attr: Seq<char>, fname: Seq<char>, word: Seq<char>)
    requires
        word == "kde"@ || word == "plasma"@ || word == "qt"@ || word == "kf5"@ || word == "kf6"@,
        has_infix(attr, word) || has_infix(fname, word),
    ensures
        runtime_for(attr, fname) == "org.kde.Platform/6.10"@,
{
}

/// With no KDE word in either string and no `kdepackages` prefix, a GNOME
/// word (`gnome`, `gtk`, `libadwaita`, `adwaita`) or `electron` in either
/// string picks the GNOME runtime.
pub proof fn lemma_gnome_word_anywhere(attr: Seq<char>, fname: Seq<char>, word: Seq<char>)
    requires
        word == "gnome"@ || word == "gtk"@ || word == "libadwaita"@ || word == "adwaita"@ || word
            == "electron"@,
        has_infix(attr, word) || has_infix(fname, word),
        forall|k: Seq<char>|
            (k == "kde"@ || k == "plasma"@ || k == "qt"@ || k == "kf5"@ || k == "kf6"@) ==> !has_infix(
                attr,
                k,
            ) && !has_infix(fname, k),
        !has_prefix(attr, "kdepackages"@),
    ensures
        runtime_for(attr, fname) == "org.gnome.Platform/49"@,
{
    assert(!has_infix(attr, "kde"@) && !has_infix(fname, "kde"@));
    assert(!has_infix(attr, "plasma"@) && !has_infix(fname, "plasma"@));
    assert(!has_infix(attr, "qt"@) && !has_infix(fname, "qt"@));
    assert(!has_infix(attr, "kf5"@) && !has_infix(fname, "kf5"@));
    assert(!has_infix(attr, "kf6"@) && !has_infix(fname, "kf6"@));
}

/// With no signal word at all, the runtime is the freedesktop one.
pub proof fn lemma_no_word_freedesktop(attr: Seq<char>, fname: Seq<char>)
    requires
        forall|k: Seq<char>|
            (k == "kde"@ || k == "plasma"@ || k == "qt"@ || k == "kf5"@ || k == "kf6"@ || k
                == "gnome"@ || k == "gtk"@ || k == "libadwaita"@ || k == "adwaita"@ || k
                == "electron"@) ==> !has_infix(attr, k) && !has_infix(fname, k),
        !has_prefix(attr, "kdepackages"@),
    ensures
        runtime_for(attr, fname) == "org.freedesktop.Platform/24.08"@,
{
    assert(!has_infix(attr, "kde"@) && !has_infix(fname, "kde"@));
    assert(!has_infix(attr, "plasma"@) && !has_infix(fname, "plasma"@));
    assert(!has_infix(attr, "qt"@) && !has_infix(fname, "qt"@));
    assert(!has_infix(attr, "kf5"@) && !has_infix(fname, "kf5"@));
    assert(!has_infix(attr, "kf6"@) && !has_infix(fname, "kf6"@));
    assert(!has_infix(attr, "gnome"@) && !has_infix(fname, "gnome"@));
    assert(!has_infix(attr, "gtk"@) && !has_infix(fname, "gtk"@));
    assert(!has_infix(attr, "libadwaita"@) && !has_infix(fname, "libadwaita"@));
    assert(!has_infix(attr, "adwaita"@) && !has_infix(fname, "adwaita"@));
    assert(!has_infix(attr, "electron"@) && !has_infix(fname, "electron"@));
}

} // verus!
