use sts2_sync_companion::background::{
    click_action, menu_action, should_sync, worth_reporting, TrayAction, SYNC_INTERVAL_SECS,
};
use sts2_sync_companion::config::AppConfig;
use sts2_sync_companion::upload::UploadResult;

#[test]
fn timer_syncs_only_when_enabled() {
    let mut c = AppConfig::blank();
    assert!(!should_sync(&c));
    c.set_enabled(true);
    assert!(should_sync(&c));
    assert_eq!(SYNC_INTERVAL_SECS, 300);
}

#[test]
fn timer_reports_imports_and_errors_only() {
    let mut r = UploadResult::empty();
    assert!(!worth_reporting(&r));
    r.duplicates = 3;
    assert!(!worth_reporting(&r));
    r.imported = 1;
    assert!(worth_reporting(&r));
    r.imported = 0;
    r.errors = 2;
    assert!(worth_reporting(&r));
}

#[test]
fn tray_menu_and_clicks() {
    assert!(matches!(menu_action("show"), TrayAction::ShowMainWindow));
    assert!(matches!(menu_action("quit"), TrayAction::Quit));
    assert!(matches!(menu_action("Show"), TrayAction::Ignore));
    assert!(matches!(click_action(true, true), TrayAction::ShowMainWindow));
    assert!(matches!(click_action(true, false), TrayAction::Ignore));
    assert!(matches!(click_action(false, true), TrayAction::Ignore));
}
