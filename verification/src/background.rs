//! What the companion does in the background: the periodic sync, and the
//! tray icon's menu and clicks.
use vstd::prelude::*;
use crate::config::AppConfig;
use crate::text::same_text;
use crate::upload::UploadResult;

verus! {

/// Seconds between two background syncs (five minutes).
pub const SYNC_INTERVAL_SECS: u64 = 300;

/// Whether a timer tick syncs: only while syncing is switched on.
pub fn should_sync(config: &AppConfig) -> (r: bool)
    ensures
        r == config@.enabled,
{
    config.enabled
}

/// Whether a background sync's outcome is worth a log line: when it imported
/// runs or met errors.
pub fn worth_reporting(result: &UploadResult) -> (r: bool)
    ensures
        r == (result.imported > 0 || result.errors > 0),
{
    result.imported > 0 || result.errors > 0
}

/// What a tray event asks for.
pub enum TrayAction {
    /// Show and focus the main window.
    ShowMainWindow,
    /// Leave the application.
    Quit,
    /// Nothing.
    Ignore,
}

/// The action for a tray menu item: `show` shows the main window, `quit`
/// leaves, anything else does nothing.
pub fn menu_action(id: &str) -> (r: TrayAction)
    ensures
        id@ == "show"@ ==> r is ShowMainWindow,
        id@ == "quit"@ ==> r is Quit,
        id@ != "show"@ && id@ != "quit"@ ==> r is Ignore,
{
    proof {
        reveal_strlit("show");
        reveal_strlit("quit");
        assert("show"@[0] != "quit"@[0]);
    }
    if same_text(id, "show") {
        TrayAction::ShowMainWindow
    } else if same_text(id, "quit") {
        TrayAction::Quit
    } else {
        TrayAction::Ignore
    }
}

/// The action for a click on the tray icon: releasing the left button shows
/// the main window; anything else does nothing.
pub fn click_action(left_button: bool, released: bool) -> (r: TrayAction)
    ensures
        left_button && released ==> r is ShowMainWindow,
        !(left_button && released) ==> r is Ignore,
{
    if left_button && released {
        TrayAction::ShowMainWindow
    } else {
        TrayAction::Ignore
    }
}

} // verus!
