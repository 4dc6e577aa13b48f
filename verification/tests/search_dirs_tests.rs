use osdockx::desktop::application_dirs;
use osdockx::icons::icon_data_dirs;
use osdockx::path::join_str;
use osdockx::theme_pack::{theme_file_candidates, theme_roots};

fn strings(v: &[&str]) -> Vec<String> {
    v.iter().map(|s| s.to_string()).collect()
}

#[test]
fn application_dirs_follow_base_directory_rules() {
    assert_eq!(
        application_dirs(Some("/data"), Some("/home/u"), None),
        strings(&["/data/applications", "/usr/local/share/applications", "/usr/share/applications"])
    );
    let listed = strings(&["/opt/share", "/srv/"]);
    assert_eq!(
        application_dirs(None, Some("/home/u"), Some(&listed)),
        strings(&["/home/u/.local/share/applications", "/opt/share/applications", "/srv/applications"])
    );
    assert_eq!(application_dirs(None, None, Some(&Vec::new())), Vec::<String>::new());
}

#[test]
fn icon_data_dirs_keep_data_home_as_is() {
    assert_eq!(
        icon_data_dirs(Some("/data"), Some("/home/u"), None),
        strings(&["/data", "/usr/local/share", "/usr/share"])
    );
    let listed = strings(&["/opt/share"]);
    assert_eq!(
        icon_data_dirs(None, Some("/home/u"), Some(&listed)),
        strings(&["/home/u/.local/share", "/opt/share"])
    );
}

#[test]
fn theme_roots_and_candidates() {
    let listed = strings(&["/usr/share"]);
    let roots = theme_roots(Some(("/home/u/.config/osdockx", "/home/u/.local/share/osdockx")), Some(&listed));
    assert_eq!(
        roots,
        strings(&[
            "/home/u/.config/osdockx/themes",
            "/home/u/.local/share/osdockx/themes",
            "/usr/share/osdockx/themes",
        ])
    );
    assert_eq!(theme_roots(None, None), Vec::<String>::new());
    assert_eq!(
        theme_file_candidates(&strings(&["/a/themes", "/b/themes/"]), "aqua"),
        strings(&["/a/themes/aqua/theme.toml", "/b/themes/aqua/theme.toml"])
    );
    assert_eq!(join_str("/etc", "/abs"), "/abs");
    assert_eq!(join_str("", "rel"), "rel");
}
