//! What the dock's context menus offer, and how tall they are.
use crate::model::types::{is_app, primary_window_of, DockItemView};
use crate::model::DockItem;
use vstd::prelude::*;

verus! {

/// Height of one menu row, in pixels.
pub const CONTEXT_MENU_ITEM_HEIGHT: i32 = 24;

/// Number of settings rows every item menu ends with.
pub const CONTEXT_MENU_SETTINGS_COUNT: usize = 5;

/// Height of a separator between menu sections, in pixels.
pub const CONTEXT_MENU_SEPARATOR_HEIGHT: i32 = 12;

/// Padding around a menu's rows, in pixels.
pub const CONTEXT_MENU_CHROME_HEIGHT: i32 = 12;

/// What the menu of an application item can do.
#[derive(Debug, Clone, Copy, PartialEq, Eq, Structural)]
pub enum ApplicationContextAction {
    Launch,
    Focus,
    Minimize,
    Close,
}

/// The actions of an application item's menu: launch when it has a desktop
/// entry; for a running item, hide it when active or else show its window,
/// then close. Applets have none.
pub open spec fn context_actions_spec(item: DockItemView) -> Seq<ApplicationContextAction> {
    if !is_app(item) {
        Seq::empty()
    } else {
        let launch: Seq<ApplicationContextAction> = if item.desktop_id is Some {
            seq![ApplicationContextAction::Launch]
        } else {
            Seq::empty()
        };
        let windows: Seq<ApplicationContextAction> = if item.windows.len() > 0 {
            let show: Seq<ApplicationContextAction> = if item.active {
                seq![ApplicationContextAction::Minimize]
            } else if primary_window_of(item.windows) is Some {
                seq![ApplicationContextAction::Focus]
            } else {
                Seq::empty()
            };
            show.push(ApplicationContextAction::Close)
        } else {
            Seq::empty()
        };
        launch + windows
    }
}

/// The actions offered in an item's menu.
pub fn application_context_actions(item: &DockItem) -> (r: Vec<ApplicationContextAction>)
    ensures
        r@ == context_actions_spec(item@),
{
    let mut actions: Vec<ApplicationContextAction> = Vec::new();
    if !item.is_application() {
        return actions;
    }
    if item.desktop_id.is_some() {
        actions.push(ApplicationContextAction::Launch);
    }
    let ghost launch = actions@;
    if item.is_running() {
        if item.active {
            actions.push(ApplicationContextAction::Minimize);
        } else if item.primary_window().is_some() {
            actions.push(ApplicationContextAction::Focus);
        }
        actions.push(ApplicationContextAction::Close);
    }
    assert(actions@ =~= context_actions_spec(item@));
    actions
}

/// The label of a menu action; launching a running item opens a new window.
pub open spec fn action_label_spec(running: bool, action: ApplicationContextAction) -> Seq<char> {
    match action {
        ApplicationContextAction::Launch => if running {
            "Open New Window"@
        } else {
            "Open"@
        },
        ApplicationContextAction::Focus => "Show"@,
        ApplicationContextAction::Minimize => "Hide"@,
        ApplicationContextAction::Close => "Close Application"@,
    }
}

/// The label shown for an action in an item's menu.
pub fn application_context_action_label(item: &DockItem, action: ApplicationContextAction) -> (r:
    &'static str)
    ensures
        r@ == action_label_spec(item@.windows.len() > 0, action),
{
    match action {
        ApplicationContextAction::Launch => if item.is_running() {
            "Open New Window"
        } else {
            "Open"
        },
        ApplicationContextAction::Focus => "Show",
        ApplicationContextAction::Minimize => "Hide",
        ApplicationContextAction::Close => "Close Application",
    }
}

/// Height of a menu with the given rows and separators.
pub open spec fn menu_height_spec(action_count: int, separator_count: int) -> int {
    CONTEXT_MENU_CHROME_HEIGHT + action_count * CONTEXT_MENU_ITEM_HEIGHT + separator_count
        * CONTEXT_MENU_SEPARATOR_HEIGHT
}

/// Height of a menu with `action_count` rows and `separator_count`
/// separators.
pub fn menu_height(action_count: usize, separator_count: usize) -> (r: i32)
    requires
        menu_height_spec(action_count as int, separator_count as int) <= i32::MAX,
    ensures
        r as int == menu_height_spec(action_count as int, separator_count as int),
{
    CONTEXT_MENU_CHROME_HEIGHT + (action_count as i32 * CONTEXT_MENU_ITEM_HEIGHT) + separator_count
        as i32 * CONTEXT_MENU_SEPARATOR_HEIGHT
}

/// Height of an item's menu: its application actions, the settings rows, and
/// a separator when there are application actions.
pub fn context_menu_height(app_action_count: usize) -> (r: i32)
    requires
        menu_height_spec(app_action_count + CONTEXT_MENU_SETTINGS_COUNT, 1) <= i32::MAX,
    ensures
        r as int == menu_height_spec(
            app_action_count + CONTEXT_MENU_SETTINGS_COUNT,
            if app_action_count > 0 {
                1
            } else {
                0
            },
        ),
{
    let separator_count: usize = if app_action_count > 0 {
        1
    } else {
        0
    };
    menu_height(app_action_count + CONTEXT_MENU_SETTINGS_COUNT, separator_count)
}

} // verus!
