use waygraph::desktop::{desktop_dir, entries_from_lines, icon_area, icon_path_of_line, AreaRect};
use waygraph::DesktopEntry;

#[test]
fn icon_lines_give_icon_paths() {
    assert_eq!(icon_path_of_line("Icon=firefox"), Some("firefox".to_string()));
    assert_eq!(icon_path_of_line("Icon=/usr/share/icons/a.png"), Some("/usr/share/icons/a.png".to_string()));
    assert_eq!(icon_path_of_line("Icon="), Some("".to_string()));
    assert_eq!(icon_path_of_line("Icon=é"), Some("é".to_string()));
    assert_eq!(icon_path_of_line("Icon"), None);
    assert_eq!(icon_path_of_line(" Icon=x"), None);
    assert_eq!(icon_path_of_line("icon=x"), None);
    assert_eq!(icon_path_of_line("Name=Firefox"), None);
}

#[test]
fn entries_come_from_icon_lines_in_order() {
    let lines: Vec<String> = vec![
        "[Desktop Entry]",
        "Name=Firefox",
        "Icon=firefox",
        "Exec=firefox %u",
        "Icon=/tmp/other.png",
    ]
    .into_iter()
    .map(|s| s.to_string())
    .collect();
    let entries = entries_from_lines("firefox.desktop", &lines);
    assert_eq!(entries.len(), 2);
    assert_eq!(entries[0].label(), "firefox.desktop");
    assert_eq!(entries[0].icon_path(), "firefox");
    assert_eq!(entries[1].label(), "firefox.desktop");
    assert_eq!(entries[1].icon_path(), "/tmp/other.png");
    assert!(entries_from_lines("x", &vec!["Name=x".to_string()]).is_empty());
}

#[test]
fn desktop_entry_debug_shows_fields() {
    let e = DesktopEntry::new("a.desktop".to_string(), "a.png".to_string());
    assert_eq!(format!("{:?}", e), "DesktopEntry { label: \"a.desktop\", icon_path: \"a.png\" }");
}

#[test]
fn desktop_dir_is_under_home() {
    assert_eq!(desktop_dir("/home/ada"), "/home/ada/Desktop");
    assert_eq!(desktop_dir(""), "/Desktop");
}

#[test]
fn icon_area_is_cell_minus_padding() {
    assert_eq!(icon_area(0, 0, 128), AreaRect { x: 40, y: 35, width: 48, height: 73 });
    assert_eq!(icon_area(100, 200, 64), AreaRect { x: 140, y: 235, width: -16, height: 9 });
}
