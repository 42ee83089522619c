use vibing2_desktop::store::Store;
use vibing2_desktop::types::Message;
use vibing2_desktop::types::SaveProjectRequest;
use vibing2_desktop::types::Settings;

fn fresh_store() -> Store {
    let mut store = Store::new();
    store.migrate();
    store
}

fn msg(id: &str, role: &str, content: &str) -> Message {
    Message { id: id.to_string(), role: role.to_string(), content: content.to_string() }
}

fn request(
    project_id: Option<&str>,
    name: &str,
    project_type: &str,
    messages: Vec<Message>,
    current_code: Option<&str>,
) -> SaveProjectRequest {
    SaveProjectRequest {
        project_id: project_id.map(|s| s.to_string()),
        name: name.to_string(),
        project_type: project_type.to_string(),
        active_agents: "[]".to_string(),
        messages,
        current_code: current_code.map(|s| s.to_string()),
    }
}

#[test]
fn test_save_project_create_new() {
    let mut store = fresh_store();
    let req = request(
        None,
        "Test Project",
        "web-app",
        vec![msg("msg-1", "user", "Create a todo app")],
        Some("console.log('Hello');"),
    );
    let result = store.save_project(&req);
    assert!(result.is_ok());
    let project_id = result.unwrap();
    assert!(project_id.starts_with("proj-"));
    let loaded = store.load_project(&project_id);
    assert!(loaded.is_ok());
    assert_eq!(loaded.unwrap().messages.len(), 1);
}

#[test]
fn test_save_project_update_existing() {
    let mut store = fresh_store();
    let initial = request(
        Some("proj-123"),
        "Original Name",
        "web-app",
        vec![msg("m1", "user", "one"), msg("m2", "assistant", "two")],
        None,
    );
    store.save_project_at(&initial, "unused-1".to_string(), 1000).unwrap();

    let update = request(
        Some("proj-123"),
        "Updated Name",
        "mobile-app",
        vec![msg("msg-new", "user", "New message")],
        Some("console.log('Updated');"),
    );
    let mut update = update;
    update.active_agents = "[\"agent1\"]".to_string();
    let result = store.save_project_at(&update, "unused-2".to_string(), 2000);
    assert!(result.is_ok());
    assert_eq!(result.unwrap(), "proj-123");

    let loaded = store.load_project(&"proj-123".to_string()).unwrap();
    assert_eq!(loaded.name, "Updated Name");
    assert_eq!(loaded.messages.len(), 1);
}

#[test]
fn test_save_project_empty_messages() {
    let mut store = fresh_store();
    let req = request(None, "Empty Messages Project", "web-app", vec![], None);
    let result = store.save_project(&req);
    assert!(result.is_ok());
    let project_id = result.unwrap();
    let loaded = store.load_project(&project_id).unwrap();
    assert_eq!(loaded.messages.len(), 0);
}

#[test]
fn test_load_project_success() {
    let mut store = fresh_store();
    let req = request(
        Some("proj-load-1"),
        "Load Test Project",
        "web-app",
        vec![msg("a", "user", "1"), msg("b", "assistant", "2"), msg("c", "user", "3")],
        None,
    );
    store.save_project_at(&req, "unused".to_string(), 50).unwrap();
    let result = store.load_project(&"proj-load-1".to_string());
    assert!(result.is_ok());
    let project = result.unwrap();
    assert_eq!(project.id, "proj-load-1");
    assert_eq!(project.name, "Load Test Project");
    assert_eq!(project.messages.len(), 3);
}

#[test]
fn test_load_project_not_found() {
    let store = fresh_store();
    let result = store.load_project(&"non-existent-id".to_string());
    assert!(result.is_err());
    assert!(result.unwrap_err().message().contains("not found"));
}

#[test]
fn test_list_projects_empty() {
    let store = fresh_store();
    let projects = store.list_projects();
    assert_eq!(projects.len(), 0);
}

#[test]
fn test_list_projects_multiple() {
    let mut store = fresh_store();
    store
        .save_project_at(&request(Some("proj-1"), "Project 1", "web-app", vec![], None),
            "u1".to_string(), 10)
        .unwrap();
    store
        .save_project_at(&request(Some("proj-2"), "Project 2", "web-app", vec![], None),
            "u2".to_string(), 20)
        .unwrap();
    store
        .save_project_at(&request(Some("proj-3"), "Project 3", "web-app", vec![], None),
            "u3".to_string(), 30)
        .unwrap();
    let projects = store.list_projects();
    assert_eq!(projects.len(), 3);
    assert!(projects.iter().any(|p| p.id == "proj-1"));
    assert!(projects.iter().any(|p| p.id == "proj-2"));
    assert!(projects.iter().any(|p| p.id == "proj-3"));
    // Ordered by update time, most recent first.
    assert_eq!(projects[0].id, "proj-3");
    assert_eq!(projects[2].id, "proj-1");
}

#[test]
fn test_delete_project_success() {
    let mut store = fresh_store();
    let req = request(
        Some("proj-delete-1"),
        "Delete Test",
        "web-app",
        vec![
            msg("1", "user", "a"),
            msg("2", "user", "b"),
            msg("3", "user", "c"),
            msg("4", "user", "d"),
            msg("5", "user", "e"),
        ],
        None,
    );
    store.save_project_at(&req, "unused".to_string(), 5).unwrap();
    let result = store.delete_project(&"proj-delete-1".to_string());
    assert!(result.is_ok());
    assert!(store.load_project(&"proj-delete-1".to_string()).is_err());
    // The cascade removed the messages with the project.
    assert_eq!(store.messages.len(), 0);
}

#[test]
fn test_delete_project_not_found() {
    let mut store = fresh_store();
    let result = store.delete_project(&"non-existent-id".to_string());
    assert!(result.is_err());
    assert!(result.unwrap_err().message().contains("not found"));
}

#[test]
fn test_delete_project_twice() {
    let mut store = fresh_store();
    let req = request(Some("proj-gone"), "Gone", "web-app", vec![], None);
    store.save_project_at(&req, "unused".to_string(), 1).unwrap();
    assert!(store.delete_project(&"proj-gone".to_string()).is_ok());
    assert!(store.load_project(&"proj-gone".to_string()).is_err());
    assert!(store.delete_project(&"proj-gone".to_string()).is_err());
}

#[test]
fn test_save_settings() {
    let mut store = fresh_store();
    let settings = Settings {
        anthropic_api_key: Some("sk-test-key-123".to_string()),
        theme: "dark".to_string(),
        auto_save: true,
        default_project_path: "/custom/path".to_string(),
    };
    let result = store.save_settings(&settings, 100);
    assert!(result.is_ok());
    let api_key = store.settings.iter().find(|r| r.key == "anthropic_api_key");
    assert_eq!(api_key.unwrap().value, "sk-test-key-123");
    let theme = store.settings.iter().find(|r| r.key == "theme");
    assert_eq!(theme.unwrap().value, "dark");
}

#[test]
fn test_save_settings_update() {
    let mut store = fresh_store();
    let settings1 = Settings {
        anthropic_api_key: Some("key-1".to_string()),
        theme: "dark".to_string(),
        auto_save: true,
        default_project_path: "/path1".to_string(),
    };
    store.save_settings(&settings1, 100).unwrap();
    let settings2 = Settings {
        anthropic_api_key: Some("key-2".to_string()),
        theme: "light".to_string(),
        auto_save: false,
        default_project_path: "/path2".to_string(),
    };
    store.save_settings(&settings2, 200).unwrap();
    let api_key = store.settings.iter().find(|r| r.key == "anthropic_api_key");
    assert_eq!(api_key.unwrap().value, "key-2");
    let theme = store.settings.iter().find(|r| r.key == "theme");
    assert_eq!(theme.unwrap().value, "light");
}

#[test]
fn test_load_settings_defaults() {
    let store = fresh_store();
    let settings = store.load_settings();
    assert_eq!(settings.anthropic_api_key, None);
    assert_eq!(settings.theme, "dark");
    assert_eq!(settings.auto_save, true);
    assert_eq!(settings.default_project_path, "~/Documents/Vibing2Projects");
}

#[test]
fn test_load_settings_saved_values() {
    let mut store = fresh_store();
    let settings = Settings {
        anthropic_api_key: Some("saved-key".to_string()),
        theme: "light".to_string(),
        auto_save: false,
        default_project_path: "/saved/path".to_string(),
    };
    store.save_settings(&settings, 100).unwrap();
    let loaded = store.load_settings();
    assert_eq!(loaded.anthropic_api_key, Some("saved-key".to_string()));
    assert_eq!(loaded.theme, "light");
    assert_eq!(loaded.auto_save, false);
    assert_eq!(loaded.default_project_path, "/saved/path");
}

#[test]
fn test_load_settings_unparseable_auto_save() {
    let mut store = fresh_store();
    let mut settings = Settings {
        anthropic_api_key: None,
        theme: "dark".to_string(),
        auto_save: false,
        default_project_path: "/p".to_string(),
    };
    store.save_settings(&settings, 1).unwrap();
    for row in store.settings.iter_mut() {
        if row.key == "auto_save" {
            row.value = "maybe".to_string();
        }
    }
    settings = store.load_settings();
    assert_eq!(settings.auto_save, true);
}

#[test]
fn test_save_project_special_characters() {
    let mut store = fresh_store();
    let req = request(
        None,
        "Project with 'quotes' & <html> and émojis 🚀",
        "web-app",
        vec![],
        None,
    );
    let result = store.save_project(&req);
    assert!(result.is_ok());
    let project_id = result.unwrap();
    let loaded = store.load_project(&project_id).unwrap();
    assert_eq!(loaded.name, "Project with 'quotes' & <html> and émojis 🚀");
}

#[test]
fn test_save_project_transaction_integrity() {
    let mut store = fresh_store();
    let initial_count = store.list_projects().len();
    let req = request(None, "Transaction Test", "web-app", vec![], None);
    store.save_project(&req).unwrap();
    let final_count = store.list_projects().len();
    assert_eq!(final_count, initial_count + 1);
}

#[test]
fn test_save_project_large_messages() {
    let mut store = fresh_store();
    let large_content = "x".repeat(10_000);
    let req = request(
        None,
        "Large Message Test",
        "web-app",
        vec![msg("msg-large", "user", &large_content)],
        None,
    );
    let result = store.save_project(&req);
    assert!(result.is_ok());
    let project_id = result.unwrap();
    let loaded = store.load_project(&project_id).unwrap();
    assert_eq!(loaded.messages[0].content.len(), 10_000);
}

#[test]
fn test_migrations_create_default_user() {
    let mut store = Store::new();
    store.migrate();
    let count = store.users.iter().filter(|u| u.id == "local-user").count();
    assert_eq!(count, 1);
    // The default local user carries the default plan and token quota.
    assert_eq!(store.users[0].plan, "FREE");
    assert_eq!(store.users[0].token_balance, 10000);
    // Running the migration again changes nothing.
    store.migrate();
    assert_eq!(store.users.len(), 1);
}

#[test]
fn test_message_timestamps_strictly_ascending() {
    let mut store = fresh_store();
    let req = request(
        Some("proj-asc"),
        "Ascending",
        "web-app",
        vec![msg("a", "user", "1"), msg("b", "assistant", "2"), msg("c", "user", "3")],
        None,
    );
    store.save_project_at(&req, "unused".to_string(), 500).unwrap();
    let stamps: Vec<u64> = store
        .messages
        .iter()
        .filter(|m| m.project_id == "proj-asc")
        .map(|m| m.created_at)
        .collect();
    assert_eq!(stamps, vec![500, 501, 502]);
}

#[test]
fn test_generated_id_collision_conflicts() {
    let mut store = fresh_store();
    let existing = request(Some("proj-x"), "Existing", "web-app", vec![], None);
    store.save_project_at(&existing, "unused".to_string(), 1).unwrap();
    // A request without an identifier whose generated one collides must
    // fail the insert, not overwrite.
    let fresh = request(None, "New", "web-app", vec![], None);
    let result = store.save_project_at(&fresh, "proj-x".to_string(), 2);
    let err = result.unwrap_err();
    assert_eq!(err.message(), "id conflict");
    let kept = store.load_project(&"proj-x".to_string()).unwrap();
    assert_eq!(kept.name, "Existing");
}

#[test]
fn test_well_formed_detects_corruption() {
    let mut store = fresh_store();
    let req = request(Some("proj-w"), "W", "web-app", vec![msg("m", "user", "x")], None);
    store.save_project_at(&req, "unused".to_string(), 3).unwrap();
    assert!(store.well_formed());
    // A message row whose project is gone breaks the invariant.
    store.projects.clear();
    assert!(!store.well_formed());
}

#[test]
fn test_save_project_preserves_created_at() {
    let mut store = fresh_store();
    let req = request(Some("proj-t"), "T", "web-app", vec![], None);
    store.save_project_at(&req, "unused".to_string(), 111).unwrap();
    let update = request(Some("proj-t"), "T2", "web-app", vec![], None);
    store.save_project_at(&update, "unused".to_string(), 222).unwrap();
    let loaded = store.load_project(&"proj-t".to_string()).unwrap();
    assert_eq!(loaded.created_at, 111);
    assert_eq!(loaded.updated_at, 222);
}

#[test]
fn test_save_project_scenario() {
    // One user message, saved and read back through the command surface.
    let mut store = fresh_store();
    let req = request(
        None,
        "Test Project",
        "web-app",
        vec![msg("msg-1", "user", "Create a todo app")],
        None,
    );
    let id = store.save_project(&req).unwrap();
    assert!(id.starts_with("proj-"));
    let loaded = store.load_project(&id).unwrap();
    assert_eq!(loaded.messages.len(), 1);
    assert_eq!(loaded.messages[0].role, "user");
}

#[test]
fn test_recent_projects_limit() {
    let mut store = fresh_store();
    for k in 0..7u64 {
        let id = format!("proj-r{}", k);
        let name = format!("R{}", k);
        let req = request(Some(&id), &name, "web-app", vec![], None);
        store.save_project_at(&req, "unused".to_string(), 100 + k).unwrap();
    }
    let recent = store.recent_projects();
    assert_eq!(recent.len(), 5);
    assert_eq!(recent[0].id, "proj-r6");
    assert_eq!(recent[4].id, "proj-r2");
}
