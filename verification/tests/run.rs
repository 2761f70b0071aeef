use appto::container::Container;
use appto::run::{
    executable_mode, icon_differs, icon_report, icon_sync, prompt_answer, reset_plan, sync_needed, sync_plan,
    truncate,
};

#[test]
fn truncate_cases() {
    assert_eq!(truncate("short", 24), "short");
    assert_eq!(truncate("abcdef", 5), "ab...");
    assert_eq!(truncate("abcde", 8), "abcde");
    assert_eq!(truncate("abc", 2), "...");
    assert_eq!(truncate("", 0), "");
    assert_eq!(truncate("ééééé", 8), "ééééé");
    assert_eq!(truncate("éééééé", 6), "ééé...");
}

#[test]
fn prompt_answers() {
    assert_eq!(prompt_answer("y\n"), Some(true));
    assert_eq!(prompt_answer("  YES  "), Some(true));
    assert_eq!(prompt_answer("No\n"), Some(false));
    assert_eq!(prompt_answer("\n"), Some(false));
    assert_eq!(prompt_answer("maybe"), None);
    assert_eq!(prompt_answer("yess"), None);
}

#[test]
fn executable_mode_sets_execute_bits() {
    assert_eq!(executable_mode(0o644), 0o755);
    assert_eq!(executable_mode(0o100600), 0o100711);
    assert_eq!(executable_mode(0o777), 0o777);
}

#[test]
fn sync_needed_cases() {
    assert!(!sync_needed("a", "a", false));
    assert!(sync_needed("a", "a", true));
    assert!(sync_needed("a", "b", false));
    assert!(sync_needed("a", "", false));
}

#[test]
fn icon_differs_cases() {
    assert!(icon_differs(&[1, 2], None));
    assert!(!icon_differs(&[1, 2], Some(&[1, 2])));
    assert!(icon_differs(&[1, 2], Some(&[1, 3])));
    assert!(icon_differs(&[1, 2], Some(&[1])));
}

#[test]
fn reset_plan_cases() {
    let p = reset_plan(false, false);
    assert!(!p.has_edits && !p.remove_override && !p.restore_original);
    let p = reset_plan(true, true);
    assert!(p.has_edits && p.remove_override && p.restore_original);
    let p = reset_plan(false, true);
    assert!(p.has_edits && p.remove_override && !p.restore_original);
}

use appto::desktop::desktop_metadata;
use appto::run::{entry_label, sync_report};

#[test]
fn labels_and_sync_reports() {
    let old = desktop_metadata("Name=App\nX-AppImage-Version=1.0\n").ok().expect("entry");
    let new = desktop_metadata("Name=App\nX-AppImage-Version=1.1\n").ok().expect("entry");
    let plain = desktop_metadata("Name=Plain\n").ok().expect("entry");
    assert_eq!(entry_label(&old), "App v1.0");
    assert_eq!(entry_label(&plain), "Plain");
    assert_eq!(sync_report(false, "app", Some(&new), Some(&old)), "Synced: App v1.0 -> App v1.1");
    assert_eq!(sync_report(true, "app", Some(&plain), Some(&old)), "Would sync: App v1.0 -> Plain");
    assert_eq!(sync_report(false, "plain", Some(&plain), Some(&plain)), "Synced: Plain");
    assert_eq!(sync_report(true, "app", None, Some(&old)), "Would sync: app");
}

use appto::run::sync_summary;

#[test]
fn sync_summaries() {
    assert_eq!(sync_summary(0, false), "Everything up to date.");
    assert_eq!(sync_summary(0, true), "Everything up to date.");
    assert_eq!(sync_summary(3, false), "Synced 3 container(s).");
    assert_eq!(sync_summary(12, true), "12 container(s) would be synced.");
    assert_eq!(sync_summary(100, false), "Synced 100 container(s).");
}

use appto::run::{list_header, list_row};

#[test]
fn listing_rows() {
    let h = list_header();
    assert_eq!(h, format!("{:<32} {:<24} VERSION", "ID", "NAME"));
    let e = desktop_metadata("Name=A Very Long Application Name Here\nX-AppImage-Version=2\n")
        .ok()
        .expect("entry");
    assert_eq!(
        list_row("app", Some(&e)),
        format!("{:<32} {:<24} 2", "app", "A Very Long Applicati...")
    );
    let p = desktop_metadata("Name=P\n").ok().expect("entry");
    assert_eq!(list_row("p", Some(&p)), format!("{:<32} {:<24}", "p", "P"));
    assert_eq!(list_row("x", None), format!("{:<32} {:<24}", "x", "BROKEN"));
}

#[test]
fn sync_plan_writes_nothing_when_unchanged_or_checking() {
    let c = Container::new("/data", "app");
    assert!(sync_plan(&c, false, true, "fresh", "same", "same", false).is_none());
    let checked = sync_plan(&c, true, true, "fresh", "new", "old", false).unwrap();
    assert!(checked.is_empty());
    let icon_only = sync_plan(&c, true, false, "fresh", "same", "same", true).unwrap();
    assert!(icon_only.is_empty());
}

#[test]
fn sync_plan_refreshes_the_original_of_an_edited_app() {
    let c = Container::new("/data", "app");
    let ws = sync_plan(&c, false, true, "fresh", "merged", "old", false).unwrap();
    assert_eq!(ws.len(), 2);
    assert_eq!(ws[0].target, "/data/app/app.original.desktop");
    assert_eq!(ws[0].staging, "/data/app/app.original.desktop.tmp");
    assert_eq!(ws[0].contents, "fresh");
    assert_eq!(ws[1].target, "/data/app/app.desktop");
    assert_eq!(ws[1].staging, "/data/app/app.desktop.tmp");
    assert_eq!(ws[1].contents, "merged");
    let plain = sync_plan(&c, false, false, "fresh", "fresh", "old", false).unwrap();
    assert_eq!(plain.len(), 1);
    assert_eq!(plain[0].target, "/data/app/app.desktop");
    assert_eq!(plain[0].contents, "fresh");
}

#[test]
fn icon_sync_decisions() {
    let a: &[u8] = &[1, 2];
    let b: &[u8] = &[1, 3];
    let s = icon_sync(false, false, Some(a), None);
    assert!(!s.synced && !s.install);
    let s = icon_sync(true, false, None, Some(b));
    assert!(!s.synced && !s.install);
    let s = icon_sync(true, false, Some(a), None);
    assert!(s.synced && s.install);
    let s = icon_sync(true, true, Some(a), Some(b));
    assert!(s.synced && !s.install);
    let s = icon_sync(true, false, Some(a), Some(a));
    assert!(!s.synced && !s.install);
}

#[test]
fn icon_report_lines() {
    assert_eq!(icon_report(false, "app.png"), "Synced: app.png");
    assert_eq!(icon_report(true, "app.svg"), "Would sync: app.svg");
}
