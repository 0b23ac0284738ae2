use nexus_launcher::window::window_plan;

#[test]
fn settings_window_is_decorated() {
    let p = window_plan("settings", "/settings");
    assert_eq!(p.url_path, "settings");
    assert!(p.decorations);
    assert!(!p.transparent);
}

#[test]
fn other_windows_are_transparent() {
    let p = window_plan("notes", "//notes/index.html");
    assert_eq!(p.url_path, "notes/index.html");
    assert!(!p.decorations);
    assert!(p.transparent);
    assert_eq!(window_plan("x", "").url_path, "");
}
