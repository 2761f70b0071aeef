use appto::container::{
    clear_symlink, containers_from, remove_symlink, staging_path, Container, ContainerError,
    DirEntryInfo, LinkState,
};

#[test]
fn container_files() {
    let c = Container::new("/data/appto", "test-example");
    assert_eq!(c.root(), "/data/appto/test-example");
    assert_eq!(c.id(), "test-example");
    assert_eq!(c.appimage_path(), "/data/appto/test-example/test-example.AppImage");
    assert_eq!(c.desktop_path(), "/data/appto/test-example/test-example.desktop");
    assert_eq!(c.original_path(), "/data/appto/test-example/test-example.original.desktop");
    assert_eq!(c.override_path(), "/data/appto/test-example/test-example.override.desktop");
    assert_eq!(c.desktop_link("/apps"), "/apps/test-example.desktop");
    assert_eq!(c.bin_link("/bin/"), "/bin/test-example");
}

#[test]
fn icon_path_prefers_installed_then_png_then_svg() {
    let mut c = Container::new("/d", "x");
    assert_eq!(c.icon_path(false, false), None);
    assert_eq!(c.icon_path(true, true), Some(String::from("/d/x/x.png")));
    assert_eq!(c.icon_path(false, true), Some(String::from("/d/x/x.svg")));
    c.set_icon_ext("svg");
    assert_eq!(c.icon_path(true, false), Some(String::from("/d/x/x.svg")));
    let (png, svg) = c.icon_candidates();
    assert_eq!(png, "/d/x/x.png");
    assert_eq!(svg, "/d/x/x.svg");
}

#[test]
fn icon_install_plans() {
    let c = Container::new("/d", "x");
    let p = c.install_icon("/tmp/squashfs-root/app.svg");
    assert_eq!(p.ext, "svg");
    assert_eq!(p.copy.source, "/tmp/squashfs-root/app.svg");
    assert_eq!(p.copy.target, "/d/x/x.svg");
    assert_eq!(p.copy.staging, "/d/x/x.svg.tmp");
    assert_eq!(p.remove, vec![String::from("/d/x/x.png")]);

    let p = c.install_icon("/tmp/.DirIcon");
    assert_eq!(p.ext, "png");
    assert_eq!(p.copy.target, "/d/x/x.png");
    assert_eq!(p.remove, vec![String::from("/d/x/x.svg")]);

    let p = c.install_icon("/tmp/icon.xpm");
    assert_eq!(p.ext, "xpm");
    assert_eq!(p.remove, vec![String::from("/d/x/x.png"), String::from("/d/x/x.svg")]);
}

#[test]
fn staged_writes_and_copies() {
    let c = Container::new("/d", "x");
    let w = c.install_desktop("[Desktop Entry]\n");
    assert_eq!(w.target, "/d/x/x.desktop");
    assert_eq!(w.staging, "/d/x/x.desktop.tmp");
    assert_eq!(w.contents, "[Desktop Entry]\n");
    let w = c.install_override("o");
    assert_eq!(w.target, "/d/x/x.override.desktop");
    let w = c.install_original("o");
    assert_eq!(w.staging, "/d/x/x.original.desktop.tmp");
    let cp = c.install_appimage("/home/u/Downloads/X.AppImage");
    assert_eq!(cp.source, "/home/u/Downloads/X.AppImage");
    assert_eq!(cp.target, "/d/x/x.AppImage");
    assert_eq!(cp.staging, "/d/x/x.AppImage.tmp");
    assert_eq!(staging_path("/a/b"), "/a/b.tmp");
}

#[test]
fn symlink_plans() {
    let c = Container::new("/d", "x");
    let p = c.symlink_desktop("/apps", LinkState::Absent).ok().expect("plan");
    assert_eq!(p.link, "/apps/x.desktop");
    assert_eq!(p.target, "/d/x/x.desktop");
    assert!(!p.remove_old);
    let p = c.symlink_appimage("/bin", LinkState::Symlink).ok().expect("plan");
    assert_eq!(p.link, "/bin/x");
    assert_eq!(p.target, "/d/x/x.AppImage");
    assert!(p.remove_old);
    match c.symlink_appimage("/bin", LinkState::NotSymlink) {
        Err(e) => assert_eq!(e.message(), "'/bin/x' exists and is not a symlink, refusing to clear"),
        Ok(_) => panic!("a file in the way must refuse"),
    }
}

#[test]
fn clear_symlink_cases() {
    assert_eq!(clear_symlink("/l", LinkState::Absent).ok(), Some(false));
    assert_eq!(clear_symlink("/l", LinkState::Symlink).ok(), Some(true));
    assert!(matches!(clear_symlink("/l", LinkState::NotSymlink), Err(ContainerError::NotASymlink { .. })));
}

#[test]
fn removing_links() {
    let c = Container::new("/d", "x");
    assert_eq!(c.remove_symlink_desktop("/apps", None).ok(), Some(None));
    assert_eq!(
        c.remove_symlink_desktop("/apps", Some("/d/x//x.desktop")).ok(),
        Some(Some(String::from("/apps/x.desktop")))
    );
    match c.remove_symlink_appimage("/bin", Some("/elsewhere/x")) {
        Err(e) => assert_eq!(e.message(), "'/elsewhere/x' does not point to '/d/x/x.AppImage', aborting."),
        Ok(_) => panic!("a foreign link must be refused"),
    }
    assert_eq!(remove_symlink("/l", "/t", Some("/t")).ok(), Some(Some(String::from("/l"))));
}

#[test]
fn installed_link_is_removable() {
    let c = Container::new("/d", "x");
    let p = c.symlink_desktop("/apps", LinkState::Absent).ok().expect("plan");
    assert_eq!(c.remove_symlink_desktop("/apps", Some(&p.target)).ok(), Some(Some(p.link)));
}

#[test]
fn containers_from_directories_with_names() {
    let entries = vec![
        DirEntryInfo { name: Some(String::from("a")), is_dir: true },
        DirEntryInfo { name: Some(String::from("file.txt")), is_dir: false },
        DirEntryInfo { name: None, is_dir: true },
        DirEntryInfo { name: Some(String::from("b")), is_dir: true },
    ];
    let cs = containers_from("/d", &entries);
    let ids: Vec<&str> = cs.iter().map(|c| c.id()).collect();
    assert_eq!(ids, vec!["a", "b"]);
    assert_eq!(cs[1].root(), "/d/b");
}
