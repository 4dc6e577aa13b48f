use osdockx::desktop::{DesktopApp, DesktopIndex};
use osdockx::model::DockModel;

fn presence_app(id: &str) -> DesktopApp {
    DesktopApp {
        desktop_id: id.to_string(),
        name: id.trim_end_matches(".desktop").to_string(),
        icon_name: None,
        startup_wm_class: None,
        exec_command: None,
    }
}

fn presence_model(pinned: &[&str]) -> DockModel {
    let index = DesktopIndex::from_apps(vec![
        presence_app("terminal.desktop"),
        presence_app("browser.desktop"),
        presence_app("editor.desktop"),
    ]);
    let pinned: Vec<String> = pinned.iter().map(|s| s.to_string()).collect();
    DockModel::from_sources(&pinned, &index, Vec::new())
}

#[test]
fn presence_change_reports_insertions_and_removals() {
    let before = presence_model(&["terminal.desktop", "browser.desktop"]);
    let same = presence_model(&["terminal.desktop", "browser.desktop"]);
    assert_eq!(before.presence_change(&same), None);
    let grown = presence_model(&["terminal.desktop", "browser.desktop", "editor.desktop"]);
    assert_eq!(before.presence_change(&grown), Some((true, false)));
    let shrunk = presence_model(&["browser.desktop"]);
    assert_eq!(before.presence_change(&shrunk), Some((false, true)));
    let swapped = presence_model(&["terminal.desktop", "editor.desktop"]);
    assert_eq!(before.presence_change(&swapped), Some((true, true)));
    let empty = DockModel { items: Vec::new() };
    assert_eq!(empty.presence_change(&grown), None);
}

#[test]
fn departed_items_are_listed_in_order() {
    let before = presence_model(&["terminal.desktop", "browser.desktop", "editor.desktop"]);
    let after = presence_model(&["browser.desktop"]);
    assert_eq!(before.departed_items(&after), vec![0, 2]);
    assert_eq!(after.departed_items(&before), Vec::<usize>::new());
}
