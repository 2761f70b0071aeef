use appto::overrides::{make_template, merge_contents, parse, OverrideMap};

fn map(pairs: &[(&str, &str)]) -> OverrideMap {
    let mut m = OverrideMap::new();
    for (k, v) in pairs {
        m.insert(k, v);
    }
    m
}

#[test]
fn parse_reads_known_keys() {
    let m = parse("[Desktop Entry]\n# Name=Commented\n  Name = My App  \nBogus=1\nExec=run %U\n");
    assert_eq!(m.get("Name"), Some(String::from("My App")));
    assert_eq!(m.get("Exec"), Some(String::from("run %U")));
    assert_eq!(m.get("Bogus"), None);
    assert_eq!(m.get("Comment"), None);
}

#[test]
fn parse_later_line_wins_and_skips_lines_without_equals() {
    let m = parse("Name=First\nnot a pair\n\nName=Second\r\nIcon=\n");
    assert_eq!(m.get("Name"), Some(String::from("Second")));
    assert_eq!(m.get("Icon"), Some(String::from("")));
}

#[test]
fn parse_value_keeps_inner_equals_and_trims_unicode_space() {
    let m = parse("Exec=env A=b run\nComment=\u{a0}hi\u{3000}\n");
    assert_eq!(m.get("Exec"), Some(String::from("env A=b run")));
    assert_eq!(m.get("Comment"), Some(String::from("hi")));
}

#[test]
fn insert_keeps_every_key_and_returns_the_previous_value() {
    let mut m = OverrideMap::new();
    assert_eq!(m.insert("Version", "1"), None);
    assert_eq!(m.insert("MimeType", "text/plain;"), None);
    assert_eq!(m.get("MimeType"), Some(String::from("text/plain;")));
    assert_eq!(m.get("Version"), Some(String::from("1")));
    assert_eq!(m.insert("Version", "2"), Some(String::from("1")));
    assert_eq!(m.insert("MimeType", "x;"), Some(String::from("text/plain;")));
    assert_eq!(m.get("Version"), Some(String::from("2")));
    assert_eq!(m.get("MimeType"), Some(String::from("x;")));
    assert_eq!(m.get("Other"), None);
}

#[test]
fn merge_replaces_other_keys_in_place_and_drops_missing_ones() {
    let desktop = "[Desktop Entry]\nName=A\nX-Extra = old\nX-Extra=second\n";
    let m = map(&[("X-Extra", "new"), ("X-Missing", "gone"), ("Icon", "i.png")]);
    let merged = merge_contents(desktop, m);
    assert_eq!(merged, "[Desktop Entry]\nIcon=i.png\nName=A\nX-Extra=new\nX-Extra=second\n");
}

#[test]
fn template_leaves_out_other_keys() {
    let defaults = map(&[("X-Extra", "1")]);
    let existing = map(&[("Version", "2")]);
    let t = make_template(&defaults, &existing);
    assert!(!t.contains("X-Extra"));
    assert!(!t.contains("Version"));
}

const HEADER: &str = "[Desktop Entry]\n\
# Uncomment the ones you'd like to override, unlisted keys are ignored.\n\
# Comment to undo an override.\n\
# These edits will persist when you sync.\n\
\n";

#[test]
fn template_offers_every_key() {
    let defaults = map(&[("Name", "App"), ("Exec", "app %U")]);
    let existing = map(&[("Icon", "/x.png")]);
    let t = make_template(&defaults, &existing);
    let expected = format!(
        "{HEADER}# Name=App\n# Comment=\n# Categories=\n# Keywords=\nIcon=/x.png\n# Path=\n\
         # Exec=app %U\n# Terminal=\n# StartupWMClass=\n# MimeType=\n"
    );
    assert_eq!(t, expected);
}

#[test]
fn template_keeps_existing_overrides() {
    let original = parse("[Desktop Entry]\nName=Orig\nComment=c\nCategories=Utility;\n");
    let existing = parse("Name=Mine\nTerminal=true\n# Comment=ignored\n");
    let t = make_template(&original, &existing);
    let back = parse(&t);
    for key in [
        "Name", "Comment", "Categories", "Keywords", "Icon", "Path", "Exec", "Terminal",
        "StartupWMClass", "MimeType",
    ] {
        assert_eq!(back.get(key), existing.get(key), "key {key}");
    }
}

#[test]
fn merge_replaces_and_adds_after_entry_header() {
    let desktop = "[Desktop Entry]\nName=Old\nExec=old\n[Desktop Action new]\nName=Action\n";
    let m = map(&[("Name", "New"), ("Comment", "added")]);
    let merged = merge_contents(desktop, m);
    assert_eq!(
        merged,
        "[Desktop Entry]\nComment=added\nName=New\nExec=old\n[Desktop Action new]\nName=Action\n"
    );
}

#[test]
fn merge_without_entry_header_puts_new_keys_first() {
    let merged = merge_contents("Foo=bar\n", map(&[("Icon", "i.png")]));
    assert_eq!(merged, "Icon=i.png\nFoo=bar\n");
}

#[test]
fn merge_without_overrides_only_normalises_line_endings() {
    let desktop = "[Desktop Entry]\r\nName=A\nExec=b";
    assert_eq!(merge_contents(desktop, OverrideMap::new()), "[Desktop Entry]\nName=A\nExec=b\n");
}

#[test]
fn merge_uses_an_override_once() {
    let desktop = "[Desktop Entry]\n Name = A\nName=B\n";
    let merged = merge_contents(desktop, map(&[("Name", "C")]));
    assert_eq!(merged, "[Desktop Entry]\nName=C\nName=B\n");
}

#[test]
fn merge_applies_every_override() {
    let desktop = "[Desktop Entry]\nName=A\n";
    let merged = merge_contents(desktop, map(&[("Name", "X"), ("Exec", "y"), ("MimeType", "z;")]));
    let lines: Vec<&str> = merged.lines().collect();
    assert!(lines.contains(&"Name=X"));
    assert!(lines.contains(&"Exec=y"));
    assert!(lines.contains(&"MimeType=z;"));
}

#[test]
fn template_regeneration_is_stable() {
    let defaults = parse("Name=App\nExec=app %U\n");
    let existing = parse("Exec=mine\n");
    let once = make_template(&defaults, &existing);
    let twice = make_template(&defaults, &parse(&once));
    assert_eq!(once, twice);
}

#[test]
fn parse_last_line_wins() {
    let m = parse("Exec=a\n# Exec=b\nExec = c \nComment=x\n");
    assert_eq!(m.get("Exec"), Some(String::from("c")));
}

#[test]
fn merge_keeps_untouched_lines_in_order() {
    let desktop = "# note\n[Desktop Entry]\nName=A\nnot a pair\nX-Other=1\n[Other]\nName=B\n";
    let merged = merge_contents(desktop, map(&[("Name", "Z")]));
    assert_eq!(merged, "# note\n[Desktop Entry]\nName=Z\nnot a pair\nX-Other=1\n[Other]\nName=B\n");
}

#[test]
fn template_round_trip_with_untrimmed_defaults() {
    // defaults ending in a carriage return or with outer spaces are only offered, never set
    let mut defaults = OverrideMap::new();
    assert_eq!(defaults.insert("Name", " spaced \r"), None);
    let existing = map(&[("Exec", "mine")]);
    let back = parse(&make_template(&defaults, &existing));
    assert_eq!(back.get("Name"), None);
    assert_eq!(back.get("Exec"), Some(String::from("mine")));
}

#[test]
fn merge_uses_first_entry_line_and_inserts_after_last_entry_header() {
    let desktop = "[Desktop Entry]\nName=A\n[Desktop Action x]\nName=B\n[Desktop Entry]\nName=C\n";
    let merged = merge_contents(desktop, map(&[("Name", "Z"), ("Icon", "i")]));
    assert_eq!(
        merged,
        "[Desktop Entry]\nName=Z\n[Desktop Action x]\nName=B\n[Desktop Entry]\nIcon=i\nName=C\n"
    );
}
