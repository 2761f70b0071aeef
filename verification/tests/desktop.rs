use appto::desktop::{
    desktop_metadata, editor_command, slug, synced_desktop, updated_desktop, DesktopError,
};
use appto::overrides::parse;

#[test]
fn metadata_reads_first_name_and_version() {
    let e = desktop_metadata(
        "[Desktop Entry]\nName= Test Example \r\nX-AppImage-Version=1.2\nName=Other\n",
    )
    .ok()
    .expect("entry");
    assert_eq!(e.name(), "Test Example");
    assert_eq!(e.version(), Some("1.2"));
}

#[test]
fn metadata_without_version() {
    let e = desktop_metadata("Name=A\n").ok().expect("entry");
    assert_eq!(e.name(), "A");
    assert_eq!(e.version(), None);
}

#[test]
fn metadata_without_name_is_refused() {
    match desktop_metadata("[Desktop Entry]\n Name=indented\nGenericName=x\n") {
        Err(e) => {
            assert!(matches!(e, DesktopError::NoName));
            assert_eq!(e.message(), "No Name= field in .desktop");
        }
        Ok(_) => panic!("no Name= line"),
    }
    assert!(desktop_metadata("").is_err());
}

#[test]
fn editor_prefers_visual() {
    let (cmd, args) = editor_command(Some("code --wait"), Some("vi")).ok().expect("editor");
    assert_eq!(cmd, "code");
    assert_eq!(args, vec![String::from("--wait")]);
    let (cmd, args) = editor_command(None, Some("  nano  ")).ok().expect("editor");
    assert_eq!(cmd, "nano");
    assert!(args.is_empty());
}

#[test]
fn editor_errors() {
    match editor_command(None, None) {
        Err(e) => assert_eq!(e.message(), "Neither $EDITOR nor $VISUAL are set"),
        Ok(_) => panic!("no editor"),
    }
    match editor_command(Some(" \t"), Some("vi")) {
        Err(e) => {
            assert!(matches!(e, DesktopError::EditorEmpty));
            assert_eq!(e.message(), "$EDITOR/$VISUAL is empty");
        }
        Ok(_) => panic!("empty VISUAL"),
    }
}

#[test]
fn slug_cases() {
    assert_eq!(slug("Test Example"), "test-example");
    assert_eq!(slug("Test_Example"), "test-example");
    assert_eq!(slug("  --My  App 2.0--"), "my-app-2-0");
    assert_eq!(slug("Café"), "caf");
    assert_eq!(slug(""), "");
}

#[test]
fn slug_is_stable() {
    for name in ["Test Example", "a__b", "X-Y-Z", "--", "Ünïcode App 3"] {
        let s = slug(name);
        assert_eq!(slug(&s), s);
    }
}

#[test]
fn metadata_slug() {
    let e = desktop_metadata("Name=Test Example\n").ok().expect("entry");
    assert_eq!(e.slug(), "test-example");
}

#[test]
fn updated_desktop_points_to_container() {
    let d = "[Desktop Entry]\nName=A\nExec=AppRun %U\nIcon=app\n";
    assert_eq!(
        updated_desktop(d, "/c/a/a.AppImage", Some("/c/a/a.png")),
        "[Desktop Entry]\nName=A\nExec=/c/a/a.AppImage\nIcon=/c/a/a.png\n"
    );
    assert_eq!(
        updated_desktop(d, "/c/a/a.AppImage", None),
        "[Desktop Entry]\nName=A\nExec=/c/a/a.AppImage\nIcon=app\n"
    );
}

#[test]
fn sync_keeps_user_edits() {
    let d = "[Desktop Entry]\nName=A\nExec=AppRun %U\n";
    let edits = parse("Name=My A\nTerminal=true\n");
    assert_eq!(
        synced_desktop(d, "/c/a/a.AppImage", None, edits),
        "[Desktop Entry]\nTerminal=true\nName=My A\nExec=/c/a/a.AppImage\n"
    );
}
