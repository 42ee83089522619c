use vibing2_desktop::ids::generate_id;
use vibing2_desktop::ids::generate_id_from;
use vibing2_desktop::ids::u64_to_dec_string;
use vibing2_desktop::netpath::PathError;
use vibing2_desktop::netpath::ensure_path_exists;
use vibing2_desktop::netpath::find_available_port;
use vibing2_desktop::netpath::find_available_port_in_range;
use vibing2_desktop::netpath::normalize_path;
use vibing2_desktop::server_config::ServerConfig;
use vibing2_desktop::textui::MenuAction;
use vibing2_desktop::textui::greet;
use vibing2_desktop::textui::menu_label;
use vibing2_desktop::textui::menu_new_project;
use vibing2_desktop::textui::menu_recent_prefix;
use vibing2_desktop::textui::menu_show_hide;
use vibing2_desktop::textui::route_menu_event;
use vibing2_desktop::textui::truncate_string;
use vibing2_desktop::update_config::UpdateConfig;

#[test]
fn test_greet_command() {
    let result = greet("Alice");
    assert_eq!(result, "Hello, Alice! Welcome to Vibing2 Desktop.");

    let result = greet("Bob");
    assert_eq!(result, "Hello, Bob! Welcome to Vibing2 Desktop.");
}

#[test]
fn test_greet_empty_name() {
    let result = greet("");
    assert_eq!(result, "Hello, ! Welcome to Vibing2 Desktop.");
}

#[test]
fn test_greet_special_characters() {
    let result = greet("Alice & Bob <script>");
    assert!(result.contains("Alice & Bob <script>"));
}

#[test]
fn test_truncate_string() {
    assert_eq!(truncate_string("Short", 10), "Short");
    assert_eq!(truncate_string("This is a very long string", 10), "This is...");
    assert_eq!(truncate_string("Exact", 5), "Exact");
}

#[test]
fn test_truncate_string_tiny_limit() {
    assert_eq!(truncate_string("abcdef", 2), "...");
    assert_eq!(truncate_string("abcdef", 3), "...");
    assert_eq!(truncate_string("abcdef", 4), "a...");
}

#[test]
fn test_menu_id_constants() {
    assert!(menu_show_hide().len() > 0);
    assert!(menu_new_project().len() > 0);
    assert!(menu_recent_prefix().len() > 0);
}

#[test]
fn test_menu_routing() {
    assert!(matches!(route_menu_event("show_hide"), MenuAction::ShowHide));
    assert!(matches!(route_menu_event("new_project"), MenuAction::NewProject));
    assert!(matches!(route_menu_event("settings"), MenuAction::OpenSettings));
    assert!(matches!(route_menu_event("check_updates"), MenuAction::CheckUpdates));
    assert!(matches!(route_menu_event("about"), MenuAction::About));
    match route_menu_event("recent_proj-17abc") {
        MenuAction::LoadRecent(id) => assert_eq!(id, "proj-17abc"),
        _ => panic!("expected a recent-project action"),
    }
    assert!(matches!(route_menu_event("something_else"), MenuAction::Ignore));
}

#[test]
fn test_menu_label() {
    assert_eq!(menu_label("My Project", None), "My Project");
    assert_eq!(menu_label("My Project", Some("short note")), "My Project - short note");
    let long = "A truly unreasonably long project name beyond forty";
    assert_eq!(menu_label(long, None), "A truly unreasonably long project nam...");
}

#[test]
fn test_update_config_default() {
    let config = UpdateConfig::default();
    assert!(config.check_on_launch);
    assert_eq!(config.launch_delay, 5);
    assert_eq!(config.check_interval_hours, 6);
    assert!(config.auto_download);
    assert!(!config.auto_install);
    assert!(config.show_notifications);
}

#[test]
fn test_find_available_port() {
    let free = vec![true; 6001];
    let port = find_available_port(&free);
    assert!(port.is_some());
    let port = port.unwrap();
    assert!(port >= 3000 && port <= 9000);
}

#[test]
fn test_find_available_port_in_range_skips_taken() {
    let mut free = vec![false; 11];
    free[4] = true;
    assert_eq!(find_available_port_in_range(4000, 4010, &free), Some(4004));
    let none = vec![false; 11];
    assert_eq!(find_available_port_in_range(4000, 4010, &none), None);
}

#[test]
fn test_ensure_path_exists() {
    assert!(ensure_path_exists(true, true).is_ok());
    assert_eq!(ensure_path_exists(false, false).unwrap_err(), PathError::Missing);
    assert_eq!(ensure_path_exists(true, false).unwrap_err(), PathError::NotADirectory);
}

#[test]
fn test_normalize_path() {
    assert_eq!(normalize_path("a//b/./c"), "a/b/c");
    assert_eq!(normalize_path("/a/b/"), "/a/b");
    // A bare leading current-directory dot is kept, as Rust's component
    // iteration keeps it; dots elsewhere are dropped.
    assert_eq!(normalize_path("./x"), "./x");
    assert_eq!(normalize_path("."), ".");
    assert_eq!(normalize_path("./"), ".");
    assert_eq!(normalize_path("/./a"), "/a");
    assert_eq!(normalize_path(""), "");
    assert_eq!(normalize_path("a/../b"), "a/../b");
}

#[test]
fn test_server_config() {
    let config = ServerConfig::new(8080);
    assert_eq!(config.port, 8080);
    assert_eq!(config.host, "127.0.0.1");
    assert_eq!(config.max_connections, 100);
    assert_eq!(config.timeout_secs, 30);
    assert_eq!(config.max_body_size, 10 * 1024 * 1024);
    assert_eq!(config.address(), "127.0.0.1:8080");
    assert_eq!(config.url(), "http://127.0.0.1:8080");
    let default_config = ServerConfig::default();
    assert_eq!(default_config.port, 3456);
}

#[test]
fn test_generate_id_from_formula() {
    let draws = vec![0u32, 1, 2, 3, 4, 5];
    assert_eq!(generate_id_from("proj", 123, &draws), "proj-123012345");
    let wrapped = vec![36u32, 37, 46, 71, 35, 10];
    assert_eq!(generate_id_from("setting", 0, &wrapped), "setting-001azza");
}

#[test]
fn test_u64_to_dec_string() {
    assert_eq!(u64_to_dec_string(0), "0");
    assert_eq!(u64_to_dec_string(7), "7");
    assert_eq!(u64_to_dec_string(1759968000000), "1759968000000");
    assert_eq!(u64_to_dec_string(u64::MAX), "18446744073709551615");
}

#[test]
fn test_generate_id_shape() {
    let id = generate_id("proj");
    assert!(id.starts_with("proj-"));
    assert!(id.len() > 12);
    assert!(id[5..].chars().all(|c| c.is_ascii_lowercase() || c.is_ascii_digit()));
}
