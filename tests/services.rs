use autostart_core::services::{
    flatpak_marker, is_flatpak, list_services_command, parse_service_list, sorted_service_list, toggle_service_command,
};

#[test]
fn service_listing_filters_states() {
    let listing = "foo.service enabled  \nbar.service static\nmalformed\nbaz.service   disabled enabled\n\n";
    let services = parse_service_list(listing);
    assert_eq!(services.len(), 2);
    assert_eq!(services[0].name, "foo.service");
    assert_eq!(services[0].state, "enabled");
    assert_eq!(services[1].name, "baz.service");
    assert_eq!(services[1].state, "disabled");
}

#[test]
fn service_listing_empty() {
    assert!(parse_service_list("").is_empty());
    assert!(parse_service_list("x.service Enabled").is_empty());
}

#[test]
fn service_commands() {
    let (p, a) = list_services_command(false);
    assert_eq!(p, "/usr/bin/systemctl");
    assert_eq!(a, vec!["list-unit-files", "--type=service", "--no-pager", "--no-legend"]);
    let (p, a) = list_services_command(true);
    assert_eq!(p, "flatpak-spawn");
    assert_eq!(a[0], "--host");
    assert_eq!(a.len(), 6);
    let (p, a) = toggle_service_command(false, "cups.service", true);
    assert_eq!(p, "pkexec");
    assert_eq!(a, vec!["/usr/bin/systemctl", "enable", "cups.service"]);
    let (p, a) = toggle_service_command(true, "cups.service", false);
    assert_eq!(p, "flatpak-spawn");
    assert_eq!(a, vec!["--host", "pkexec", "systemctl", "disable", "cups.service"]);
}

#[test]
fn flatpak_detection_matches_marker_file() {
    assert_eq!(flatpak_marker(), "/.flatpak-info");
    assert_eq!(is_flatpak(), std::path::Path::new("/.flatpak-info").exists());
}

#[test]
fn sorted_services_by_name() {
    let listing = "zeta.service enabled\nalpha.service disabled\nmid.service static\nBeta.service enabled\n";
    let services = sorted_service_list(listing);
    let names: Vec<&str> = services.iter().map(|s| s.name.as_str()).collect();
    assert_eq!(names, vec!["Beta.service", "alpha.service", "zeta.service"]);
    assert_eq!(services[1].state, "disabled");
}
