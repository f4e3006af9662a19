use local_approvals::json::Json;
use local_approvals::persistent_permissions::{
    grant_file_name, is_grant_file, GrantEntry, GrantFile, PersistedPermissionGrant,
    PersistentPermissionContext, PersistentPermissionStore, TurnEnvironmentSelection,
};
use local_approvals::serde_value::{from_value, to_compact_text};

#[derive(Clone, Debug, PartialEq)]
struct Permissions {
    network: bool,
    paths: Vec<String>,
}

fn environment(cwd: &str, workspace_roots: &[&str]) -> TurnEnvironmentSelection {
    TurnEnvironmentSelection {
        environment_id: "local".to_string(),
        cwd: cwd.to_string(),
        workspace_roots: workspace_roots.iter().map(|root| root.to_string()).collect(),
    }
}

fn network_permissions() -> Permissions {
    Permissions { network: true, paths: Vec::new() }
}

fn to_json(permissions: &Permissions) -> Json {
    let mut map = serde_json::Map::new();
    map.insert("network".to_string(), serde_json::Value::from(permissions.network));
    map.insert("paths".to_string(), serde_json::Value::from(permissions.paths.clone()));
    from_value(serde_json::Value::Object(map))
}

fn strings(value: &serde_json::Value) -> Vec<String> {
    value
        .as_array()
        .expect("list")
        .iter()
        .map(|item| item.as_str().expect("text").to_string())
        .collect()
}

/// The entry of a directory for a file that was written.
fn read_back(file: &GrantFile) -> GrantEntry<Permissions> {
    let value: serde_json::Value = serde_json::from_str(&file.contents).expect("valid JSON");
    let context = &value["context"];
    let permissions = &value["permissions"];
    GrantEntry {
        extension: file.file_name.rsplit_once('.').map(|(_, extension)| extension.to_string()),
        grant: Some(PersistedPermissionGrant {
            version: u32::try_from(value["version"].as_u64().expect("number")).expect("small"),
            context: PersistentPermissionContext {
                environment_id: context["environment_id"].as_str().expect("text").to_string(),
                cwd: context["cwd"].as_str().expect("text").to_string(),
                workspace_roots: strings(&context["workspace_roots"]),
            },
            permissions: Permissions {
                network: permissions["network"].as_bool().expect("flag"),
                paths: strings(&permissions["paths"]),
            },
        }),
    }
}

fn merge(merged: Option<&Permissions>, next: Option<&Permissions>) -> Option<Permissions> {
    match (merged, next) {
        (Some(merged), Some(next)) => Some(Permissions {
            network: merged.network || next.network,
            paths: merged.paths.iter().chain(next.paths.iter()).cloned().collect(),
        }),
        (merged, next) => next.or(merged).cloned(),
    }
}

fn store() -> PersistentPermissionStore<String> {
    PersistentPermissionStore::persistent("/home/codex".to_string())
}

fn entry(version: u32, environment: &TurnEnvironmentSelection, path: &str) -> GrantEntry<Permissions> {
    let permissions = Permissions { network: false, paths: vec![path.to_string()] };
    let mut grant = PersistedPermissionGrant::new(environment, permissions);
    assert_eq!(grant.version, 1);
    grant.version = version;
    GrantEntry { extension: Some("json".to_string()), grant: Some(grant) }
}

#[test]
fn persistent_grant_is_reloaded_by_another_store() {
    let environment = environment("file:///workspace", &["file:///workspace"]);
    let permissions = network_permissions();
    let file = store().grant(&environment, to_json(&permissions)).expect("grant is kept");
    assert_eq!(
        store().granted(&environment, &vec![read_back(&file)], merge),
        Some(permissions)
    );
}

#[test]
fn persistent_grant_is_bound_to_workspace_context() {
    let first_environment = environment("file:///first", &["file:///first"]);
    let second_environment = environment("file:///second", &["file:///second"]);
    let store = store();
    let file = store
        .grant(&first_environment, to_json(&network_permissions()))
        .expect("grant is kept");
    assert_eq!(store.granted(&second_environment, &vec![read_back(&file)], merge), None);
}

#[test]
fn store_without_directory_keeps_nothing() {
    let store: PersistentPermissionStore<String> = PersistentPermissionStore::default();
    let environment = environment("file:///w", &[]);
    assert!(store.persistence_dir.is_none());
    assert_eq!(store.grant(&environment, to_json(&network_permissions())), None);
    assert_eq!(store.granted(&environment, &vec![entry(1, &environment, "a")], merge), None);
}

#[test]
fn persistent_store_is_below_the_home_directory() {
    let directory = store().persistence_dir.expect("directory");
    assert_eq!(directory.home, "/home/codex");
    assert_eq!(directory.segments, vec!["approvals".to_string(), "permissions".to_string()]);
}

#[test]
fn workspace_roots_are_a_set() {
    let one = environment("file:///w", &["file:///b", "file:///a", "file:///b"]);
    let two = environment("file:///w", &["file:///a", "file:///b"]);
    let three = environment("file:///w", &["file:///a"]);
    let context = PersistentPermissionContext::from_environment(&one);
    assert_eq!(
        context.workspace_roots,
        vec!["file:///a".to_string(), "file:///b".to_string()]
    );
    assert!(context.same_as(&PersistentPermissionContext::from_environment(&two)));
    assert!(!context.same_as(&PersistentPermissionContext::from_environment(&three)));
    assert_eq!(
        store().grant(&one, to_json(&network_permissions())),
        store().grant(&two, to_json(&network_permissions()))
    );
}

#[test]
fn environment_and_working_directory_are_part_of_the_context() {
    let base = environment("file:///w", &["file:///a"]);
    let elsewhere = environment("file:///v", &["file:///a"]);
    let mut remote = environment("file:///w", &["file:///a"]);
    remote.environment_id = "remote".to_string();
    let entries = vec![entry(1, &base, "a")];
    assert!(store().granted(&base, &entries, merge).is_some());
    assert_eq!(store().granted(&elsewhere, &entries, merge), None);
    assert_eq!(store().granted(&remote, &entries, merge), None);
}

#[test]
fn grant_file_is_named_after_its_text() {
    let environment = environment("file:///work", &["file:///b", "file:///a"]);
    let permissions = from_value(
        serde_json::from_str(r#"{"network":{"enabled":true}}"#).expect("valid JSON"),
    );
    let grant = PersistedPermissionGrant::new(
        &environment,
        from_value(serde_json::from_str(r#"{"network":{"enabled":true}}"#).expect("valid JSON")),
    );
    assert_eq!(
        to_compact_text(&grant.to_json()),
        [
            r#"{"version":1,"context":{"environment_id":"local","cwd":"file:///work","#,
            r#""workspace_roots":["file:///a","file:///b"]},"#,
            r#""permissions":{"network":{"enabled":true}}}"#,
        ]
        .concat()
    );
    let file = store().grant(&environment, permissions).expect("grant is kept");
    assert_eq!(file.file_name, grant_file_name("8e15be18-583a-5017-ba97-c96c58d7a801"));
    assert_eq!(file.file_name, "8e15be18-583a-5017-ba97-c96c58d7a801.json");
    assert_eq!(file.contents, grant.to_text());
    assert!(file.contents.starts_with("{\n  \"version\": 1,\n  \"context\": {\n    \"environment_id\""));
}

#[test]
fn different_grants_go_to_different_files() {
    let environment = environment("file:///w", &["file:///a"]);
    let one = store().grant(&environment, to_json(&network_permissions())).expect("grant is kept");
    let other = Permissions { network: true, paths: vec!["p".to_string()] };
    let two = store().grant(&environment, to_json(&other)).expect("grant is kept");
    assert_ne!(one.file_name, two.file_name);
    assert_eq!(
        store().granted(&environment, &vec![read_back(&one), read_back(&two)], merge),
        Some(other)
    );
}

#[test]
fn only_grants_that_apply_are_merged_in_order() {
    let here = environment("file:///w", &["file:///a"]);
    let there = environment("file:///w", &["file:///b"]);
    let mut text_file = entry(1, &here, "text");
    text_file.extension = Some("txt".to_string());
    let mut bare_file = entry(1, &here, "bare");
    bare_file.extension = None;
    let unread = GrantEntry { extension: Some("json".to_string()), grant: None };
    let entries = vec![
        entry(1, &here, "first"),
        entry(2, &here, "newer"),
        text_file,
        entry(1, &there, "elsewhere"),
        bare_file,
        unread,
        entry(1, &here, "second"),
    ];
    assert_eq!(
        store().granted(&here, &entries, merge),
        Some(Permissions {
            network: false,
            paths: vec!["first".to_string(), "second".to_string()],
        })
    );
    assert_eq!(store().granted(&here, &Vec::new(), merge), None);
}

#[test]
fn an_entry_that_does_not_apply_changes_nothing_wherever_it_is() {
    let here = environment("file:///w", &["file:///a"]);
    let there = environment("file:///v", &["file:///a"]);
    let granted = Some(Permissions {
        network: false,
        paths: vec!["first".to_string(), "second".to_string()],
    });
    for k in 0..3 {
        for other in [
            entry(1, &there, "elsewhere"),
            entry(2, &here, "newer"),
            GrantEntry { extension: None, ..entry(1, &here, "bare") },
            GrantEntry { grant: None, ..entry(1, &here, "unread") },
        ] {
            let mut entries = vec![entry(1, &here, "first"), entry(1, &here, "second")];
            entries.insert(k, other);
            assert_eq!(store().granted(&here, &entries, merge), granted);
        }
    }
}

#[test]
fn an_empty_grant_gives_nothing() {
    let passing_over = |merged: Option<&Permissions>, next: Option<&Permissions>| match next {
        Some(next) if !next.network && next.paths.is_empty() => merged.cloned(),
        next => merge(merged, next),
    };
    let here = environment("file:///w", &["file:///a"]);
    let nothing = Permissions { network: false, paths: Vec::new() };
    let empty = || read_back(&store().grant(&here, to_json(&nothing)).expect("grant is kept"));
    assert_eq!(store().granted(&here, &vec![empty()], passing_over), None);
    let granted = Some(Permissions {
        network: false,
        paths: vec!["first".to_string(), "second".to_string()],
    });
    for k in 0..3 {
        let mut entries = vec![entry(1, &here, "first"), entry(1, &here, "second")];
        entries.insert(k, empty());
        assert_eq!(store().granted(&here, &entries, passing_over), granted);
    }
}

#[test]
fn merging_may_drop_everything() {
    let here = environment("file:///w", &["file:///a"]);
    let entries = vec![entry(1, &here, "first"), entry(1, &here, "second")];
    let calls = std::cell::Cell::new(0);
    let drop_all = |_: Option<&Permissions>, next: Option<&Permissions>| -> Option<Permissions> {
        assert!(next.is_some());
        calls.set(calls.get() + 1);
        None
    };
    assert_eq!(store().granted(&here, &entries, drop_all), None);
    assert_eq!(calls.get(), 2);
}

#[test]
fn only_json_files_hold_grants() {
    assert!(is_grant_file(&Some("json".to_string())));
    assert!(!is_grant_file(&Some("JSON".to_string())));
    assert!(!is_grant_file(&Some("json5".to_string())));
    assert!(!is_grant_file(&None));
}
