use nixpkgs2flatpak::desktop_parser::{app_id_from_clean_pname, extract_app_id, sanitize_app_id};
use nixpkgs2flatpak::runtime_detector::{detect, detect_lowered};

#[test]
fn dotted_stem_is_the_app_id() {
    assert_eq!(extract_app_id("org.mozilla.firefox.desktop", "firefox"), "org.mozilla.firefox");
}

#[test]
fn plain_stem_falls_back_to_pname() {
    assert_eq!(extract_app_id("firefox.desktop", "firefox"), "org.nixpkgs.firefox");
}

#[test]
fn fallback_keeps_only_alphanumerics() {
    assert_eq!(extract_app_id("my-app.desktop", "my-app_2"), "org.nixpkgs.myapp2");
}

#[test]
fn digit_segments_get_a_prefix() {
    assert_eq!(extract_app_id("0ad.desktop", "0ad"), "org.nixpkgs.a0ad");
    assert_eq!(extract_app_id("com.1password.Gui.desktop", "1password-gui"), "com.a1password.Gui");
}

#[test]
fn name_without_desktop_suffix_is_used_whole() {
    assert_eq!(extract_app_id("org.example.Tool", "tool"), "org.example.Tool");
}

#[test]
fn desktop_suffix_only_stripped_at_the_end() {
    assert_eq!(extract_app_id("a.desktop.b", "x"), "a.desktop.b");
}

#[test]
fn non_ascii_alphanumerics_are_kept() {
    assert_eq!(extract_app_id("x.desktop", "héllo!"), "org.nixpkgs.héllo");
}

#[test]
fn empty_segments_stay_empty() {
    assert_eq!(sanitize_app_id("a..9b."), "a..a9b.");
}

#[test]
fn sanitizing_twice_changes_nothing() {
    let once = sanitize_app_id("1.2.x3");
    assert_eq!(once, "a1.a2.x3");
    assert_eq!(sanitize_app_id(&once), once);
}

#[test]
fn app_id_from_a_cleaned_name() {
    assert_eq!(app_id_from_clean_pname("foo.desktop", "7zip"), "org.nixpkgs.a7zip");
}

#[test]
fn kde_signals_pick_kde() {
    assert_eq!(detect("kdePackages.dolphin", "org.kde.dolphin.desktop"), "org.kde.Platform/6.10");
    assert_eq!(detect("qtcreator", "QtProject-qtcreator.desktop"), "org.kde.Platform/6.10");
    assert_eq!(detect("KDEPACKAGESX", "Foo.desktop"), "org.kde.Platform/6.10");
}

#[test]
fn kde_wins_over_gnome() {
    assert_eq!(detect("gtk-qt-bridge", "bridge.desktop"), "org.kde.Platform/6.10");
}

#[test]
fn gnome_signals_pick_gnome() {
    assert_eq!(detect("gnome-text-editor", "org.gnome.TextEditor.desktop"), "org.gnome.Platform/49");
    assert_eq!(detect("GIMP", "Gimp-GTK.desktop"), "org.gnome.Platform/49");
    assert_eq!(detect("foo", "libadwaita-demo.desktop"), "org.gnome.Platform/49");
}

#[test]
fn electron_picks_gnome() {
    assert_eq!(detect("electron-fiddle", "fiddle.desktop"), "org.gnome.Platform/49");
}

#[test]
fn everything_else_is_freedesktop() {
    assert_eq!(detect("vscode", "code.desktop"), "org.freedesktop.Platform/24.08");
    assert_eq!(detect("", ""), "org.freedesktop.Platform/24.08");
}

#[test]
fn lowered_detection_is_case_sensitive() {
    assert_eq!(detect_lowered("KDE", "X"), "org.freedesktop.Platform/24.08");
    assert_eq!(detect_lowered("kde", "x"), "org.kde.Platform/6.10");
}
