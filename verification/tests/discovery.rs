use nixpkgs2flatpak::discover::{
    admit_candidate, classify_line, desktop_field_of, ends_with_secondary_output,
    nix_locate_args, parse_line, strip_output_suffix, Candidate, EntryOutcome, LineOutcome,
};
use nixpkgs2flatpak::discover_unfree::{
    by_name_dir, by_name_pname, flake_nixpkgs_expr, grep_packages, merge_new, nix_eval_packages,
    unfree_package, NixEntry,
};
use nixpkgs2flatpak::text::{lines_of, trim_str};
use nixpkgs2flatpak::types::{PackageIndex, PackageInfo};

const LINE: &str = "firefox.out  1,234 r /nix/store/abc-firefox/share/applications/firefox.desktop";

fn record(name: &str, hint: &str) -> PackageInfo {
    PackageInfo {
        attr_path: name.to_string(),
        pname: name.to_string(),
        app_id: format!("org.nixpkgs.{}", name),
        desktop_file: format!("{}.desktop", name),
        runtime_hint: hint.to_string(),
    }
}

fn entries_of(index: PackageIndex) -> Vec<(String, PackageInfo)> {
    let mut v = index.into_entries();
    v.sort_by(|a, b| a.0.cmp(&b.0));
    v
}

#[test]
fn parse_line_takes_first_and_fourth_fields() {
    assert_eq!(
        parse_line(LINE),
        Some((
            "firefox.out".to_string(),
            "/nix/store/abc-firefox/share/applications/firefox.desktop".to_string()
        ))
    );
    assert_eq!(parse_line("  a\tb  c /x extra "), Some(("a".to_string(), "/x".to_string())));
}

#[test]
fn parse_line_refuses_short_or_relative_lines() {
    assert_eq!(parse_line("a b c"), None);
    assert_eq!(parse_line("a b c relative/path"), None);
    assert_eq!(parse_line(""), None);
}

#[test]
fn secondary_outputs() {
    assert!(ends_with_secondary_output("foo.dev"));
    assert!(ends_with_secondary_output("foo.static"));
    assert!(!ends_with_secondary_output("foo.out"));
    assert!(!ends_with_secondary_output("foo"));
}

#[test]
fn output_suffixes_are_stripped() {
    assert_eq!(strip_output_suffix("foo.out"), "foo");
    assert_eq!(strip_output_suffix("python3Packages.foo.static"), "python3Packages.foo");
    assert_eq!(strip_output_suffix("foo.debug"), "foo");
    assert_eq!(strip_output_suffix("bar"), "bar");
    assert_eq!(strip_output_suffix("foo.out.dev"), "foo.out");
}

#[test]
fn nix_locate_arguments() {
    assert_eq!(
        nix_locate_args(&None),
        vec!["--regex", "--at-root", "/share/applications/[^/]+\\.desktop$"]
    );
    assert_eq!(
        nix_locate_args(&Some("/db".to_string())),
        vec!["--database", "/db", "--regex", "--at-root", "/share/applications/[^/]+\\.desktop$"]
    );
}

#[test]
fn classify_lines() {
    let found = PackageIndex::new();
    assert!(matches!(classify_line(&found, "   "), LineOutcome::Blank));
    assert!(matches!(classify_line(&found, "garbage"), LineOutcome::Unparseable));
    assert!(matches!(
        classify_line(&found, "foo.dev 1 r /nix/store/x/share/applications/foo.desktop"),
        LineOutcome::SecondaryOutput
    ));
    assert!(matches!(
        classify_line(&found, "foo.out 1 r /nix/store/x/share/applications/foo.txt"),
        LineOutcome::NotDesktopFile
    ));
    match classify_line(&found, LINE) {
        LineOutcome::Fetch(c) => {
            assert_eq!(c.attr_path, "firefox");
            assert_eq!(c.pname, "firefox");
            assert_eq!(c.desktop_filename, "firefox.desktop");
            assert_eq!(c.store_path, "/nix/store/abc-firefox/share/applications/firefox.desktop");
        }
        _ => panic!("expected a candidate"),
    }
    match classify_line(&found, "python3Packages.foo-bar.out 1 r /s/share/applications/x.desktop") {
        LineOutcome::Fetch(c) => assert_eq!(c.pname, "foo-bar"),
        _ => panic!("expected a candidate"),
    }
}

#[test]
fn known_packages_are_not_fetched_again() {
    let mut found = PackageIndex::new();
    found.insert("firefox".to_string(), record("firefox", "x"));
    assert!(matches!(classify_line(&found, LINE), LineOutcome::KnownPackage));
}

#[test]
fn desktop_fields() {
    let content = "[Desktop Entry]\r\nType=Application\nName=Foo\nNoDisplay=true\nName=Bar\n";
    assert_eq!(desktop_field_of(content, "Type"), Some("Application".to_string()));
    assert_eq!(desktop_field_of(content, "Name"), Some("Foo".to_string()));
    assert_eq!(desktop_field_of(content, "NoDisplay"), Some("true".to_string()));
    assert_eq!(desktop_field_of(content, "Hidden"), None);
}

fn candidate(pname: &str) -> Candidate {
    Candidate {
        attr_path: format!("kdePackages.{}", pname),
        pname: pname.to_string(),
        desktop_filename: format!("org.kde.{}.desktop", pname),
        store_path: format!("/nix/store/x/share/applications/org.kde.{}.desktop", pname),
    }
}

#[test]
fn admitting_candidates() {
    let mut found = PackageIndex::new();
    assert!(matches!(admit_candidate(&mut found, candidate("a"), ""), EntryOutcome::EmptyFile));
    assert!(matches!(
        admit_candidate(&mut found, candidate("a"), "[Desktop Entry]\nType=Link\n"),
        EntryOutcome::NotShown
    ));
    assert!(matches!(
        admit_candidate(&mut found, candidate("a"), "[Desktop Entry]\nNoDisplay=true\n"),
        EntryOutcome::NotShown
    ));
    assert!(matches!(
        admit_candidate(&mut found, candidate("a"), "[Desktop Entry]\nHidden=true\n"),
        EntryOutcome::NotShown
    ));
    assert_eq!(found.len(), 0);
    assert!(matches!(
        admit_candidate(&mut found, candidate("dolphin"), "[Desktop Entry]\nName=Dolphin\n"),
        EntryOutcome::Added
    ));
    assert!(matches!(
        admit_candidate(&mut found, candidate("dolphin"), "[Desktop Entry]\nType=Application\n"),
        EntryOutcome::AlreadyKnown
    ));
    let entries = entries_of(found);
    assert_eq!(entries.len(), 1);
    let (key, info) = &entries[0];
    assert_eq!(key, "dolphin");
    assert_eq!(info.attr_path, "kdePackages.dolphin");
    assert_eq!(info.app_id, "org.kde.dolphin");
    assert_eq!(info.desktop_file, "org.kde.dolphin.desktop");
    assert_eq!(info.runtime_hint, "org.kde.Platform/6.10");
}

#[test]
fn by_name_standard_layout_agrees_with_piece_before_file() {
    for p in [
        "/nix/store/x/pkgs/by-name/fi/firefox/package.nix",
        "/by-name/x/pkgs/by-name/gi/gimp/package.nix",
        "x/by-name/ab/f.nix",
        "/by-name/x",
    ] {
        assert_eq!(by_name_pname(p), p.rsplit('/').nth(1), "input {:?}", p);
    }
}

#[test]
fn by_name_paths() {
    assert_eq!(by_name_pname("/nix/store/x/pkgs/by-name/fi/firefox/package.nix"), Some("firefox"));
    assert_eq!(by_name_pname("/by-name/x"), Some("by-name"));
    assert_eq!(by_name_pname("/n/pkgs/by-name/fi/firefox"), Some("fi"));
    assert_eq!(by_name_pname("x/by-name/ab/f.nix"), Some("ab"));
    assert_eq!(
        by_name_pname("/by-name/x/pkgs/by-name/fi/firefox/package.nix"),
        Some("firefox")
    );
    assert_eq!(
        by_name_pname("/src/by-name/q/pkgs/by-name/fi/firefox/sub/file.nix"),
        Some("firefox")
    );
    assert_eq!(
        by_name_pname("/n/pkgs/by-name/xx/pname/sub/file.nix"),
        Some("pname")
    );
    assert_eq!(by_name_pname("/a/by-name/b/by-name/c/d/e.nix"), Some("d"));
    assert_eq!(by_name_pname("pkgs/applications/foo/default.nix"), None);
}

#[test]
fn unfree_records() {
    let info = unfree_package(&"slack".to_string(), "slack.desktop".to_string());
    assert_eq!(info.attr_path, "slack");
    assert_eq!(info.pname, "slack");
    assert_eq!(info.app_id, "org.nixpkgs.slack");
    assert_eq!(info.desktop_file, "slack.desktop");
    assert_eq!(info.runtime_hint, "org.freedesktop.Platform/24.08");
}

#[test]
fn eval_entries_later_ones_replace_earlier() {
    let index = nix_eval_packages(vec![
        NixEntry { pname: "spotify".to_string(), stem: "spotify".to_string() },
        NixEntry { pname: "discord".to_string(), stem: "discord".to_string() },
        NixEntry { pname: "spotify".to_string(), stem: "com.spotify.Client".to_string() },
    ]);
    let entries = entries_of(index);
    assert_eq!(entries.len(), 2);
    assert_eq!(entries[0].0, "discord");
    assert_eq!(entries[1].1.desktop_file, "com.spotify.Client.desktop");
    assert_eq!(entries[1].1.app_id, "com.spotify.Client");
}

#[test]
fn grep_listing_skips_known_names() {
    let mut known = PackageIndex::new();
    known.insert("firefox".to_string(), record("firefox", "x"));
    let out = "/n/pkgs/by-name/fi/firefox/package.nix\n/n/pkgs/by-name/gi/gimp/package.nix\n/n/pkgs/other/x.nix\n";
    let entries = entries_of(grep_packages(out, &known));
    assert_eq!(entries.len(), 1);
    assert_eq!(entries[0].0, "gimp");
    assert_eq!(entries[0].1.desktop_file, "gimp.desktop");
    assert_eq!(entries[0].1.runtime_hint, "org.freedesktop.Platform/24.08");
}

#[test]
fn merging_keeps_what_is_held() {
    let mut held = PackageIndex::new();
    held.insert("a".to_string(), record("a", "old"));
    let mut found = PackageIndex::new();
    found.insert("a".to_string(), record("a", "new"));
    found.insert("b".to_string(), record("b", "new"));
    assert_eq!(merge_new(&mut held, found), 1);
    let entries = entries_of(held);
    assert_eq!(entries.len(), 2);
    assert_eq!(entries[0].1.runtime_hint, "old");
    assert_eq!(entries[1].1.runtime_hint, "new");
}

#[test]
fn index_insert_replaces() {
    let mut index = PackageIndex::new();
    index.insert("a".to_string(), record("a", "1"));
    index.insert("a".to_string(), record("a", "2"));
    assert_eq!(index.len(), 1);
    assert!(index.contains_key(&"a".to_string()));
    assert!(!index.contains_key(&"b".to_string()));
    assert_eq!(entries_of(index)[0].1.runtime_hint, "2");
}

#[test]
fn lines_and_trimming() {
    assert_eq!(lines_of("a\r\nb\n\nc"), vec!["a", "b", "", "c"]);
    assert_eq!(lines_of("a\n"), vec!["a"]);
    assert_eq!(lines_of(""), Vec::<String>::new());
    assert_eq!(trim_str("  x y\t\n"), "x y");
    assert_eq!(trim_str(" \u{3000} "), "");
}

#[test]
fn path_helpers() {
    assert_eq!(by_name_dir("/src"), "/src/pkgs/by-name");
    assert_eq!(
        flake_nixpkgs_expr("/home/x"),
        "(builtins.getFlake \"path:/home/x\").inputs.nixpkgs.outPath"
    );
}

#[test]
fn lines_agree_with_std() {
    for s in ["", "a", "a\n", "a\r\nb", "foo\r\nbar\n\nbaz\r", "\n\n", "x\r\n\r\n", "\r"] {
        let ours = lines_of(s);
        let std_lines: Vec<String> = s.lines().map(|l| l.to_string()).collect();
        assert_eq!(ours, std_lines, "input {:?}", s);
    }
}

#[test]
fn trimming_agrees_with_std() {
    for s in ["", " ", "a", " a b ", "\u{85}x\u{a0}", "\u{2000}\u{200a}y\u{202f}", "\u{200b}z"] {
        assert_eq!(trim_str(s), s.trim(), "input {:?}", s);
    }
}

#[test]
fn fields_agree_with_split_whitespace() {
    for s in ["a b c /d", "\u{3000}a\u{2028}b\u{1680}c\u{85}/d\u{a0}", "a\u{200b}b c d /e"] {
        let w: Vec<&str> = s.split_whitespace().collect();
        let expected = if w.len() >= 4 && w[3].starts_with('/') {
            Some((w[0].to_string(), w[3].to_string()))
        } else {
            None
        };
        assert_eq!(parse_line(s), expected, "input {:?}", s);
    }
}
