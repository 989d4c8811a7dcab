use xpde::apps;
use xpde::desktop::{applications_dir, data_dirs, is_desktop_file_name, list_apps, parse_desktop_entry, DesktopFile};
use xpde::ipc::AppEntry;

fn file(name: &str, text: &str) -> DesktopFile {
    DesktopFile { file_name: name.to_string(), contents: Some(text.to_string()) }
}

#[test]
fn parses_an_application_entry() {
    let text = "[Desktop Entry]\nType=Application\nName = Firefox \nExec=firefox %u\n";
    let e = parse_desktop_entry(text, "firefox.desktop", "").unwrap();
    assert_eq!(
        e,
        AppEntry {
            id: "firefox.desktop".to_string(),
            name: "Firefox".to_string(),
            command: "firefox %u".to_string(),
        }
    );
}

#[test]
fn name_defaults_to_the_file_name_and_command_to_empty() {
    let e = parse_desktop_entry("[Desktop Entry]\nType=application\n", "tool.desktop", "").unwrap();
    assert_eq!(e.name, "tool.desktop");
    assert_eq!(e.command, "");
}

#[test]
fn hidden_and_non_application_entries_are_skipped() {
    assert!(parse_desktop_entry("[Desktop Entry]\nType=Application\nNoDisplay=true\n", "a.desktop", "").is_none());
    assert!(parse_desktop_entry("[Desktop Entry]\nType=Application\nHidden=TRUE\n", "a.desktop", "").is_none());
    assert!(parse_desktop_entry("[Desktop Entry]\nType=Link\nName=x\n", "a.desktop", "").is_none());
    assert!(parse_desktop_entry("Type=Application\n", "a.desktop", "").is_none());
}

#[test]
fn keys_outside_the_desktop_entry_group_are_ignored() {
    let text = "[Desktop Entry]\nType=Application\nName=Main\n[Desktop Action new]\nName=Other\n";
    assert_eq!(parse_desktop_entry(text, "m.desktop", "").unwrap().name, "Main");
}

#[test]
fn only_show_in_and_not_show_in_follow_the_current_desktop() {
    let only = "[Desktop Entry]\nType=Application\nName=G\nOnlyShowIn=GNOME;\n";
    assert!(parse_desktop_entry(only, "g.desktop", "XFCE").is_none());
    assert!(parse_desktop_entry(only, "g.desktop", "ubuntu:GNOME").is_some());
    assert!(parse_desktop_entry(only, "g.desktop", "").is_some());
    let not = "[Desktop Entry]\nType=Application\nName=N\nNotShowIn=KDE;XFCE;\n";
    assert!(parse_desktop_entry(not, "n.desktop", "XFCE").is_none());
    assert!(parse_desktop_entry(not, "n.desktop", "GNOME").is_some());
}

#[test]
fn desktop_file_names() {
    assert!(is_desktop_file_name("firefox.desktop"));
    assert!(!is_desktop_file_name(".desktop"));
    assert!(!is_desktop_file_name("notes.txt"));
}

#[test]
fn lists_the_first_entry_of_each_id_sorted_by_name() {
    let files = vec![
        file("b.desktop", "[Desktop Entry]\nType=Application\nName=beta\n"),
        file("a.desktop", "[Desktop Entry]\nType=Application\nName=Alpha\n"),
        file("b.desktop", "[Desktop Entry]\nType=Application\nName=Other\n"),
        DesktopFile { file_name: "c.desktop".to_string(), contents: None },
    ];
    let apps = list_apps(&files, "");
    let names: Vec<&str> = apps.iter().map(|a| a.name.as_str()).collect();
    assert_eq!(names, vec!["Alpha", "beta"]);
    assert_eq!(apps::list_apps(&files, ""), vec!["Alpha".to_string(), "beta".to_string()]);
}

#[test]
fn data_directories_come_from_home_and_xdg_data_dirs() {
    let c = data_dirs(Some("/home/u".to_string()), Some("/usr/share::/opt/share".to_string()));
    assert_eq!(c, vec!["/home/u/.local/share", "/usr/share", "/opt/share"]);
    assert_eq!(applications_dir("/usr/share"), "/usr/share/applications");
}

#[test]
fn an_unset_xdg_data_dirs_stands_for_the_system_directories() {
    assert_eq!(
        data_dirs(Some("/home/u".to_string()), None),
        vec!["/home/u/.local/share", "/usr/local/share", "/usr/share"]
    );
    assert_eq!(data_dirs(None, Some("::".to_string())), vec!["/usr/local/share", "/usr/share"]);
    assert_eq!(data_dirs(None, None), vec!["/usr/local/share", "/usr/share"]);
}

#[test]
fn applications_sort_by_lower_cased_name() {
    let files = vec![
        file("z.desktop", "[Desktop Entry]\nType=Application\nName=Zed\n"),
        file("a.desktop", "[Desktop Entry]\nType=Application\nName=atom\n"),
    ];
    assert_eq!(apps::list_apps(&files, ""), vec!["atom".to_string(), "Zed".to_string()]);
}

#[test]
fn lines_outside_the_entry_group_change_nothing() {
    let plain = "[Desktop Entry]\nType=Application\nName=A\n";
    let busy = "Name=Z\n[Other]\nType=Link\nNoDisplay=true\n[Desktop Entry]\nType=Application\n[X]\nHidden=true\n[desktop entry]\nName=A\n";
    assert_eq!(parse_desktop_entry(plain, "a.desktop", ""), parse_desktop_entry(busy, "a.desktop", ""));
    assert_eq!(parse_desktop_entry(busy, "a.desktop", "").unwrap().name, "A");
}
