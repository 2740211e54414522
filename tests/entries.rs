use autostart_core::desktop::{desktop_enabled, extract_value, toggle_desktop_content};
use autostart_core::entry::{
    desktop_command, desktop_entry, folder_entry, is_desktop_file, registry_command, registry_entry,
    registry_path, Hive,
};
use autostart_core::ops::{
    create_file, delete_error_text, delete_target, safe_file_name, toggle_action, Locator,
    Platform, ToggleAction,
};
use autostart_core::size::format_size;

const SAMPLE: &str = "[Desktop Entry]\nType=Application\nName=Clock\nExec=env GDK_BACKEND=x11 /usr/bin/clock --tray\nComment=A clock\nIcon=clock";

#[test]
fn size_in_bytes() {
    assert_eq!(format_size(Some(512)), "512 B");
    assert_eq!(format_size(Some(0)), "0 B");
    assert_eq!(format_size(Some(1023)), "1023 B");
}

#[test]
fn size_in_kilobytes() {
    assert_eq!(format_size(Some(2048)), "2.0 KB");
    assert_eq!(format_size(Some(1024)), "1.0 KB");
    assert_eq!(format_size(Some(1536)), "1.5 KB");
    assert_eq!(format_size(Some(1048575)), "1024.0 KB");
}

#[test]
fn size_in_megabytes() {
    assert_eq!(format_size(Some(1572864)), "1.5 MB");
    assert_eq!(format_size(Some(1048576)), "1.0 MB");
    assert_eq!(format_size(Some(10 * 1048576 + 104858)), "10.1 MB");
}

#[test]
fn size_rounds_like_float_formatting() {
    for bytes in [1075u64, 1126, 1177, 5000, 123456, 999999, 2_000_000, 7_340_032, 123_456_789] {
        let expected = if bytes < 1024 * 1024 {
            format!("{:.1} KB", bytes as f64 / 1024.0)
        } else {
            format!("{:.1} MB", bytes as f64 / (1024.0 * 1024.0))
        };
        assert_eq!(format_size(Some(bytes)), expected);
    }
}

#[test]
fn size_unknown() {
    assert_eq!(format_size(None), "Unknown");
}

#[test]
fn value_of_first_matching_line() {
    let content = "Name=First\nName=Second\nHidden =x\nHidden=  TRUE  ";
    assert_eq!(extract_value(content, "Name").as_deref(), Some("First"));
    assert_eq!(extract_value(content, "Hidden").as_deref(), Some("TRUE"));
    assert_eq!(extract_value(content, "Exec"), None);
    assert_eq!(extract_value("NameX=1", "Name"), None);
    assert_eq!(extract_value("Exec=a=b", "Exec").as_deref(), Some("a=b"));
}

#[test]
fn enabled_state_of_desktop_entries() {
    assert!(desktop_enabled(SAMPLE));
    assert!(!desktop_enabled("Hidden=True"));
    assert!(desktop_enabled("Hidden=false\nX-GNOME-Autostart-enabled=true"));
    assert!(!desktop_enabled("X-GNOME-Autostart-enabled=false"));
    assert!(!desktop_enabled("X-GNOME-Autostart-enabled=0"));
    assert!(desktop_enabled("X-GNOME-Autostart-enabled=TRUE\r\n"));
}

#[test]
fn desktop_entry_fields() {
    let app = desktop_entry("clock.desktop", "/home/u/.config/autostart/clock.desktop", SAMPLE, Some(2048));
    assert_eq!(app.id, "clock.desktop");
    assert_eq!(app.name, "Clock");
    assert_eq!(app.full_command, "/usr/bin/clock --tray");
    assert_eq!(app.command, "/usr/bin/clock");
    assert!(app.enabled);
    assert_eq!(app.path, "/home/u/.config/autostart/clock.desktop");
    assert_eq!(app.size, "2.0 KB");
    assert_eq!(app.location, "Startup Folder");
    assert_eq!(app.publisher, "Linux Desktop Entry");
    assert_eq!(desktop_command(SAMPLE), "/usr/bin/clock");
}

#[test]
fn desktop_entry_without_name_or_exec() {
    let app = desktop_entry("x.desktop", "/a/x.desktop", "Type=Application", None);
    assert_eq!(app.name, "x.desktop");
    assert_eq!(app.command, "");
    assert_eq!(app.full_command, "");
    assert_eq!(app.size, "Unknown");
    let env = desktop_entry("y.desktop", "/a/y.desktop", "Exec=env FOO=1 prog", None);
    assert_eq!(env.full_command, "FOO=1 prog");
    assert_eq!(env.command, "FOO=1");
    let inner = desktop_entry("b.desktop", "/a/b.desktop", "[Desktop Entry]\nName=B\nExec=/opt/myenv --x\n", None);
    assert_eq!(inner.full_command, "/opt/myenv --x");
    assert_eq!(inner.command, "/opt/myenv");
    let late = desktop_entry("c.desktop", "/a/c.desktop", "Exec=run env GDK_BACKEND=x11 x", None);
    assert_eq!(late.full_command, "run env GDK_BACKEND=x11 x");
}

#[test]
fn toggle_off_then_on_keeps_other_lines() {
    let off = toggle_desktop_content(SAMPLE, false);
    assert!(!desktop_enabled(&off));
    let on = toggle_desktop_content(&off, true);
    assert!(desktop_enabled(&on));
    let original: Vec<&str> = SAMPLE.lines().collect();
    let back: Vec<&str> = on.lines().collect();
    assert_eq!(&back[..original.len()], &original[..]);
    assert_eq!(&back[original.len()..], &["Hidden=false", "X-GNOME-Autostart-enabled=true"]);
}

#[test]
fn toggle_keeps_trailing_empty_lines() {
    let content = "Hidden=\nX-GNOME-Autostart-enabled=\n\n";
    let off = toggle_desktop_content(content, false);
    let lines: Vec<&str> = off.lines().collect();
    assert_eq!(lines, vec!["Hidden=true", "X-GNOME-Autostart-enabled=false", ""]);
    let on = toggle_desktop_content(&off, true);
    let lines: Vec<&str> = on.lines().collect();
    assert_eq!(lines, vec!["Hidden=false", "X-GNOME-Autostart-enabled=true", ""]);
}

#[test]
fn toggle_same_state_twice_changes_nothing() {
    let content = "Hidden=\nX-GNOME-Autostart-enabled=\n\n\n";
    let once = toggle_desktop_content(content, false);
    let twice = toggle_desktop_content(&once, false);
    assert_eq!(once, twice);
    assert_eq!(once.lines().count(), 4);
}

#[test]
fn toggle_keeps_carriage_returns_of_other_lines() {
    let content = "A=1\r\r\nB=2\r";
    let off = toggle_desktop_content(content, false);
    let lines: Vec<&str> = off.lines().collect();
    assert_eq!(lines, vec!["A=1\r", "B=2\r", "Hidden=true", "X-GNOME-Autostart-enabled=false"]);
    assert!(!desktop_enabled(&off));
    assert!(desktop_enabled(&toggle_desktop_content(&off, true)));
}

#[test]
fn toggle_rewrites_lines_in_place() {
    let content = "A=1\nHidden=true\nB=2\nX-GNOME-Autostart-enabled=false\nC=3";
    assert_eq!(
        toggle_desktop_content(content, true),
        "A=1\nHidden=false\nB=2\nX-GNOME-Autostart-enabled=true\nC=3\n"
    );
    assert_eq!(
        toggle_desktop_content("A=1\n", false),
        "A=1\nHidden=true\nX-GNOME-Autostart-enabled=false\n"
    );
}

#[test]
fn create_then_enumerate() {
    let (file, content) =
        create_file(Platform::Linux, "MyApp", "/usr/bin/myapp", "desc").unwrap();
    assert_eq!(file, "myapp.desktop");
    let app = desktop_entry(&file, "/home/u/.config/autostart/myapp.desktop", &content, None);
    assert_eq!(app.name, "MyApp");
    assert_eq!(app.command, "/usr/bin/myapp");
    assert!(app.enabled);
}

#[test]
fn toggle_off_then_delete() {
    let (file, content) = create_file(Platform::Linux, "MyApp", "/usr/bin/myapp", "desc").unwrap();
    let path = format!("/home/u/.config/autostart/{}", file);
    assert!(matches!(toggle_action(Platform::Linux, &path, false), Ok(ToggleAction::RewriteDesktop)));
    let off = toggle_desktop_content(&content, false);
    let app = desktop_entry(&file, &path, &off, None);
    assert!(!app.enabled);
    match delete_target(Platform::Linux, &app.path) {
        Ok(Locator::File { path: p }) => assert_eq!(p, path),
        other => panic!("unexpected {:?}", other),
    }
}

#[test]
fn create_on_other_platforms() {
    let (file, content) =
        create_file(Platform::Windows, "My Tool", "C:\\t\\tool.exe", "ignored").unwrap();
    assert_eq!(file, "my-tool.bat");
    assert_eq!(content, "@echo off\nstart \"\" \"C:\\t\\tool.exe\"");
    assert_eq!(create_file(Platform::Other, "a", "b", "c").unwrap_err(), "Not supported on this OS");
    let (_, linux) = create_file(Platform::Linux, "N", "cmd", "d").unwrap();
    assert_eq!(
        linux,
        "[Desktop Entry]\nType=Application\nName=N\nExec=cmd\nComment=d\nHidden=false\nX-GNOME-Autostart-enabled=true\n"
    );
}

#[test]
fn safe_names() {
    assert_eq!(safe_file_name("My App/Foo\\Bar"), "my-app-foo-bar");
    assert_eq!(safe_file_name("ÄBC"), "äbc");
    for name in ["A B", "x/Y", "\\\\ Z", "ΣΑΣ Σ"] {
        let s = safe_file_name(name);
        assert!(!s.contains(' ') && !s.contains('/') && !s.contains('\\'));
        assert_eq!(s, s.to_lowercase());
    }
}

#[test]
fn registry_value_without_quotes() {
    assert_eq!(registry_command("C:\\tools\\app.exe --flag"), "C:\\tools\\app.exe");
    let app = registry_entry(Hive::CurrentUser, "Tool", "C:\\tools\\app.exe --flag", None);
    assert_eq!(app.command, "C:\\tools\\app.exe");
    assert_eq!(app.full_command, "C:\\tools\\app.exe --flag");
    assert_eq!(app.path, "REGISTRY::HKCU::Tool");
    assert_eq!(app.size, "Unknown");
    assert_eq!(app.location, "Registry (HKCU)");
    assert_eq!(app.publisher, "Unknown");
    assert!(app.enabled);
}

#[test]
fn registry_value_with_quotes() {
    assert_eq!(registry_command("\"C:\\x\\y.exe\" --min"), "C:\\x\\y.exe");
    assert_eq!(registry_command("\"C:\\Program Files\\y.exe\" -a"), "C:\\Program Files\\y.exe");
    assert_eq!(registry_command("\"a b"), "a b");
    assert_eq!(registry_command("x.exe \"quoted arg\""), "x.exe");
    assert_eq!(registry_command("\"\" rest"), "");
    assert_eq!(registry_command(""), "");
    let app = registry_entry(Hive::LocalMachine, "Sys", "\"C:\\s.exe\"", Some(512));
    assert_eq!(app.path, "REGISTRY::HKLM::Sys");
    assert_eq!(app.size, "512 B");
    assert_eq!(app.location, "Registry (HKLM)");
    assert_eq!(app.publisher, "System");
    assert_eq!(registry_path(Hive::CurrentUser, "a b"), "REGISTRY::HKCU::a b");
}

#[test]
fn startup_folder_files() {
    let lnk = folder_entry("App.lnk", "C:\\S\\App.lnk", Some(100)).unwrap();
    assert_eq!(lnk.name, "App");
    assert_eq!(lnk.size, "Shortcut");
    assert_eq!(lnk.command, "C:\\S\\App.lnk");
    assert_eq!(lnk.full_command, "C:\\S\\App.lnk");
    assert!(lnk.enabled);
    assert_eq!(lnk.publisher, "Unknown");
    let exe = folder_entry("tool.exe", "C:\\S\\tool.exe", Some(2048)).unwrap();
    assert_eq!(exe.name, "tool.exe");
    assert_eq!(exe.size, "2.0 KB");
    assert!(folder_entry("run.bat", "p", None).is_some());
    assert!(folder_entry("run.cmd", "p", None).is_some());
    assert!(folder_entry("notes.txt", "p", None).is_none());
    assert!(folder_entry(".lnk", "p", None).is_none());
    assert!(folder_entry("tool.exe.disabled", "p", None).is_none());
}

#[test]
fn folder_toggle_renames() {
    match toggle_action(Platform::Windows, "C:\\S\\tool.exe", false) {
        Ok(ToggleAction::Rename { to }) => assert_eq!(to, "C:\\S\\tool.exe.disabled"),
        other => panic!("unexpected {:?}", other),
    }
    match toggle_action(Platform::Windows, "C:\\S\\tool.exe.disabled", true) {
        Ok(ToggleAction::Rename { to }) => assert_eq!(to, "C:\\S\\tool.exe"),
        other => panic!("unexpected {:?}", other),
    }
    assert!(matches!(toggle_action(Platform::Windows, "C:\\S\\tool.exe", true), Ok(ToggleAction::Keep)));
    assert!(matches!(toggle_action(Platform::Windows, "C:\\S\\.disabled", true), Ok(ToggleAction::Keep)));
}

#[test]
fn registry_toggle_and_unsupported_platform() {
    assert_eq!(
        toggle_action(Platform::Windows, "REGISTRY::HKCU::Tool", false).unwrap_err(),
        "Toggling Registry apps is not supported yet. Use Delete."
    );
    assert_eq!(toggle_action(Platform::Other, "/x", true).unwrap_err(), "Not supported on this OS");
}

#[test]
fn registry_locators() {
    match delete_target(Platform::Windows, "REGISTRY::HKCU::My App") {
        Ok(Locator::Registry { hive, name }) => {
            assert_eq!(hive, Hive::CurrentUser);
            assert_eq!(name, "My App");
        }
        other => panic!("unexpected {:?}", other),
    }
    match delete_target(Platform::Windows, "REGISTRY::HKLM::x:y") {
        Ok(Locator::Registry { hive, name }) => {
            assert_eq!(hive, Hive::LocalMachine);
            assert_eq!(name, "x:y");
        }
        other => panic!("unexpected {:?}", other),
    }
    assert_eq!(
        delete_target(Platform::Windows, "REGISTRY::HKCU").unwrap_err(),
        "Invalid registry path format"
    );
    match delete_target(Platform::Windows, &registry_path(Hive::CurrentUser, "a::b")) {
        Ok(Locator::Registry { hive, name }) => {
            assert_eq!(hive, Hive::CurrentUser);
            assert_eq!(name, "a::b");
        }
        other => panic!("unexpected {:?}", other),
    }
    assert_eq!(
        delete_target(Platform::Windows, "REGISTRY::HKXX::a").unwrap_err(),
        "Invalid registry path format"
    );
    assert!(matches!(delete_target(Platform::Linux, "REGISTRY::HKCU::a"), Ok(Locator::File { .. })));
}

#[test]
fn delete_messages() {
    let reg = Locator::Registry { hive: Hive::LocalMachine, name: "x".to_string() };
    let file = Locator::File { path: "/f".to_string() };
    assert_eq!(
        delete_error_text(&reg, true, "os error 5"),
        "Access Denied: Please run the app as Administrator to delete system items."
    );
    assert_eq!(
        delete_error_text(&file, true, "os error 13"),
        "Access Denied: Please run the app as Administrator to delete this file."
    );
    assert_eq!(delete_error_text(&file, false, "No such file"), "No such file");
}

#[test]
fn desktop_file_names() {
    assert!(is_desktop_file("a.desktop"));
    assert!(!is_desktop_file(".desktop"));
    assert!(!is_desktop_file("a.desktop.bak"));
}
