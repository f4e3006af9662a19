use local_approvals::approval_meta::{
    APPROVAL_KIND_KEY, APPROVAL_KIND_MCP_TOOL_CALL, CONNECTOR_ID_KEY, PERSIST_ALWAYS, PERSIST_KEY,
    PERSIST_SESSION, TOOL_NAME_KEY, TOOL_PARAMS_KEY,
};
use local_approvals::elicitation::{
    is_confirmation, ElicitRequestParams, Elicitation, ElicitationAction, ElicitationResponse,
    ElicitationSchema,
};
use local_approvals::json::{find_entry, set_entry, Json};
use local_approvals::local_actor_approvals::{
    approval_path, persist_value_supports_always, LocalActorApproval, LocalActorApprovalKey,
    PersistedLocalActorApproval, RecordedResponse,
};
use local_approvals::requirements::{
    managed_requirements_allow_persistence, BrowserUseOriginPolicy, BrowserUseRequirementsToml,
    ComputerUseRequirementsToml, ConfigRequirementsToml, McpConfig, McpPluginAttribution,
    McpServerSource, ResolvedMcpCatalog,
};
use local_approvals::serde_value::{from_value, to_compact_text};

const SERVER: &str = "local-actor";

fn json(text: &str) -> Json {
    from_value(serde_json::from_str(text).expect("valid JSON"))
}

fn text(value: &str) -> Json {
    Json::Text(value.to_string())
}

fn no_requirements() -> ConfigRequirementsToml {
    ConfigRequirementsToml { browser_use: None, computer_use: None }
}

fn config_with(source: McpServerSource, requirements: ConfigRequirementsToml) -> McpConfig<String> {
    McpConfig {
        codex_home: "/home/codex".to_string(),
        mcp_server_catalog: ResolvedMcpCatalog {
            servers: vec![
                ("other".to_string(), McpServerSource::Config),
                (SERVER.to_string(), source),
            ],
        },
        requirements_toml: requirements,
    }
}

fn local_actor_config(plugin_id: &str, requirements: ConfigRequirementsToml) -> McpConfig<String> {
    config_with(
        McpServerSource::Plugin(McpPluginAttribution { plugin_id: plugin_id.to_string() }),
        requirements,
    )
}

fn local_actor_meta(advertised_persistence: Json, tool_params: Json) -> Vec<(String, Json)> {
    vec![
        (APPROVAL_KIND_KEY.to_string(), text(APPROVAL_KIND_MCP_TOOL_CALL)),
        (CONNECTOR_ID_KEY.to_string(), text("browser-use")),
        (TOOL_NAME_KEY.to_string(), text("publish_post")),
        (TOOL_PARAMS_KEY.to_string(), tool_params),
        (PERSIST_KEY.to_string(), advertised_persistence),
    ]
}

fn form(meta: Option<Vec<(String, Json)>>, properties: Vec<String>) -> Elicitation {
    Elicitation::Mcp(ElicitRequestParams::FormElicitationParams {
        meta,
        requested_schema: ElicitationSchema { properties },
    })
}

fn local_actor_elicitation_with_params(advertised_persistence: Json, params: Json) -> Elicitation {
    form(Some(local_actor_meta(advertised_persistence, params)), Vec::new())
}

fn local_actor_elicitation(advertised_persistence: Json) -> Elicitation {
    local_actor_elicitation_with_params(
        advertised_persistence,
        json(r#"{"origin":"https://example.com","account":"business"}"#),
    )
}

fn response(action: ElicitationAction, content: Option<&str>, meta: Option<&str>) -> ElicitationResponse {
    ElicitationResponse { action, content: content.map(json), meta: meta.map(json) }
}

fn accepted(meta: Option<&str>) -> ElicitationResponse {
    response(ElicitationAction::Accept, Some("{}"), meta)
}

fn approval_for(
    config: &McpConfig<String>,
    elicitation: &Elicitation,
) -> Option<LocalActorApproval<String>> {
    LocalActorApproval::from_elicitation(config, SERVER, elicitation)
}

/// The answer of the user, passed on as the actor is to see it.
fn resolve_plugin_elicitation(
    plugin_id: &str,
    advertised_persistence: Json,
    answer: ElicitationResponse,
    requirements: ConfigRequirementsToml,
) -> ElicitationResponse {
    let config = local_actor_config(plugin_id, requirements);
    match approval_for(&config, &local_actor_elicitation(advertised_persistence)) {
        Some(approval) => approval.record_response(answer).response,
        None => answer,
    }
}

/// Files in memory, by path.
struct Disk {
    files: Vec<(Vec<String>, String)>,
}

impl Disk {
    fn new() -> Disk {
        Disk { files: Vec::new() }
    }

    fn write(&mut self, recorded: RecordedResponse) {
        if let Some(file) = recorded.file {
            self.files.push((file.path, file.contents));
        }
    }

    fn read(&self, path: &[String]) -> Option<PersistedLocalActorApproval> {
        let (_, contents) = self.files.iter().rev().find(|(at, _)| at.as_slice() == path)?;
        let value: serde_json::Value = serde_json::from_str(contents).ok()?;
        Some(PersistedLocalActorApproval {
            version: u32::try_from(value.get("version")?.as_u64()?).ok()?,
            key: value.get("key")?.as_str()?.to_string(),
        })
    }

    fn answer(&self, approval: &LocalActorApproval<String>) -> Option<ElicitationResponse> {
        approval.persisted_response(self.read(&approval.persistence_path()).as_ref())
    }
}

fn approval_with_key(key: &str, actor_supports_always: bool) -> LocalActorApproval<String> {
    LocalActorApproval {
        codex_home: "/home/codex".to_string(),
        serialized_key: key.to_string(),
        actor_supports_always,
    }
}

#[test]
fn persist_value_only_accepts_always_scope() {
    assert!(persist_value_supports_always(&text("always")));
    assert!(persist_value_supports_always(&json(r#"["session","always"]"#)));
    assert!(!persist_value_supports_always(&text("session")));
    assert!(!persist_value_supports_always(&json(r#"["session"]"#)));
}

#[test]
fn persist_value_must_be_text_or_a_list() {
    for source in ["null", "true", "1", "{\"always\":\"always\"}", "[[\"always\"]]", "[]"] {
        assert!(!persist_value_supports_always(&json(source)));
    }
}

#[test]
fn accepted_approval_is_reused_by_another_local_session() {
    let mut disk = Disk::new();
    let approval = approval_with_key("exact-browser-operation", false);
    let recorded = approval.record_response(accepted(None));
    assert_eq!(recorded.response, accepted(None));
    disk.write(recorded);

    let next_session = approval_with_key("exact-browser-operation", false);
    assert_eq!(disk.answer(&next_session), Some(accepted(None)));
    let different_operation = approval_with_key("different-browser-operation", false);
    assert_eq!(disk.answer(&different_operation), None);
}

#[test]
fn bundled_local_actor_acceptance_is_promoted_to_always_persist() {
    for plugin_id in [
        "browser@openai-bundled",
        "chrome@openai-bundled",
        "computer-use@openai-bundled",
    ] {
        let answer = resolve_plugin_elicitation(
            plugin_id,
            Json::Array(vec![text(PERSIST_SESSION), text(PERSIST_ALWAYS)]),
            accepted(Some(r#"{"persist":"session"}"#)),
            no_requirements(),
        );
        assert_eq!(
            answer,
            accepted(Some(r#"{"persist":"always"}"#)),
            "plugin {plugin_id} should persist accepted approvals"
        );
    }
}

#[test]
fn actor_level_always_promotion_requires_trusted_plugin_and_advertised_support() {
    for (plugin_id, advertised_persistence) in [
        ("browser@openai-curated-remote", text(PERSIST_ALWAYS)),
        ("untrusted@openai-bundled", text(PERSIST_ALWAYS)),
        ("browser@openai-bundled", text(PERSIST_SESSION)),
    ] {
        assert_eq!(
            resolve_plugin_elicitation(
                plugin_id,
                advertised_persistence,
                accepted(None),
                no_requirements(),
            ),
            accepted(None),
        );
    }
}

#[test]
fn managed_requirements_can_disable_local_actor_persistence() {
    for (plugin_id, requirements) in [
        (
            "browser@openai-bundled",
            ConfigRequirementsToml {
                browser_use: Some(BrowserUseRequirementsToml {
                    allow_global_persistent_approval: Some(false),
                    default_origin_policy: None,
                    origins: None,
                }),
                computer_use: None,
            },
        ),
        (
            "computer-use@openai-bundled",
            ConfigRequirementsToml {
                browser_use: None,
                computer_use: Some(ComputerUseRequirementsToml {
                    allow_persistent_approval: Some(false),
                }),
            },
        ),
    ] {
        assert_eq!(
            resolve_plugin_elicitation(
                plugin_id,
                text(PERSIST_ALWAYS),
                accepted(None),
                requirements,
            ),
            accepted(None),
        );
    }
}

#[test]
fn local_actor_declines_are_never_persisted() {
    let declined = || response(ElicitationAction::Decline, None, None);
    assert_eq!(
        resolve_plugin_elicitation(
            "browser@openai-bundled",
            text(PERSIST_ALWAYS),
            declined(),
            no_requirements(),
        ),
        declined(),
    );
    let approval = approval_with_key("key", true);
    for action in [ElicitationAction::Decline, ElicitationAction::Cancel] {
        let recorded = approval.record_response(response(action, None, Some("{}")));
        assert_eq!(recorded.file, None);
        assert_eq!(recorded.response, response(action, None, Some("{}")));
    }
}

#[test]
fn persistent_local_actor_approval_bypasses_reviewer() {
    let config = local_actor_config("browser@openai-bundled", no_requirements());
    let mut disk = Disk::new();
    let first = approval_for(&config, &local_actor_elicitation(text(PERSIST_ALWAYS)))
        .expect("approval may be kept");
    disk.write(first.record_response(accepted(None)));

    let second = approval_for(&config, &local_actor_elicitation(text(PERSIST_ALWAYS)))
        .expect("approval may be kept");
    let answer = disk.answer(&second).expect("second elicitation should use persisted approval");
    assert_eq!(answer.action, ElicitationAction::Accept);
    assert_eq!(answer, accepted(Some(r#"{"persist":"always"}"#)));
}

#[test]
fn different_tool_params_do_not_reuse_persistent_local_actor_approval() {
    let config = local_actor_config("browser@openai-bundled", no_requirements());
    let mut disk = Disk::new();
    let first = approval_for(&config, &local_actor_elicitation(text(PERSIST_ALWAYS)))
        .expect("approval may be kept");
    disk.write(first.record_response(accepted(None)));

    let different = approval_for(
        &config,
        &local_actor_elicitation_with_params(
            text(PERSIST_ALWAYS),
            json(r#"{"origin":"https://example.com","account":"business","content":"different post"}"#),
        ),
    )
    .expect("approval may be kept");
    assert_eq!(disk.answer(&different), None);
}

#[test]
fn argument_order_does_not_matter() {
    let config = local_actor_config("chrome@openai-bundled", no_requirements());
    let mut disk = Disk::new();
    let first = approval_for(&config, &local_actor_elicitation(text(PERSIST_SESSION)))
        .expect("approval may be kept");
    disk.write(first.record_response(accepted(None)));
    let reordered = approval_for(
        &config,
        &local_actor_elicitation_with_params(
            text(PERSIST_SESSION),
            json(r#"{"account":"business","origin":"https://example.com"}"#),
        ),
    )
    .expect("approval may be kept");
    assert_eq!(disk.answer(&reordered), Some(accepted(None)));
}

#[test]
fn key_names_plugin_connector_tool_and_arguments() {
    let config = local_actor_config("browser@openai-bundled", no_requirements());
    let approval = approval_for(&config, &local_actor_elicitation(text(PERSIST_ALWAYS)))
        .expect("approval may be kept");
    assert_eq!(approval.codex_home, "/home/codex");
    assert!(approval.actor_supports_always);
    assert_eq!(
        approval.serialized_key,
        concat_lines(&[
            r#"{"version":1,"plugin_id":"browser@openai-bundled","connector_id":"browser-use","#,
            r#""tool_name":"publish_post","tool_params":"#,
            r#"{"account":"business","origin":"https://example.com"}}"#,
        ])
    );
    assert_eq!(
        approval.persistence_path(),
        vec![
            "approvals".to_string(),
            "local-actors".to_string(),
            "22d0ec42170b27f5e652a056166e91e450313026.json".to_string(),
        ]
    );
}

fn concat_lines(parts: &[&str]) -> String {
    parts.concat()
}

#[test]
fn key_fields_keep_their_order() {
    let key = LocalActorApprovalKey {
        version: 7,
        plugin_id: "p",
        connector_id: "c",
        tool_name: "t",
        tool_params: json("[]"),
    };
    assert_eq!(
        to_compact_text(&key.to_json()),
        r#"{"version":7,"plugin_id":"p","connector_id":"c","tool_name":"t","tool_params":[]}"#
    );
}

#[test]
fn plugin_connector_and_tool_are_part_of_the_key() {
    let elicitation = local_actor_elicitation(text(PERSIST_ALWAYS));
    let key = |config: &McpConfig<String>, elicitation: &Elicitation| {
        approval_for(config, elicitation).expect("approval may be kept").serialized_key
    };
    let browser = local_actor_config("browser@openai-bundled", no_requirements());
    let chrome = local_actor_config("chrome@openai-bundled", no_requirements());
    assert_ne!(key(&browser, &elicitation), key(&chrome, &elicitation));
    for changed in [CONNECTOR_ID_KEY, TOOL_NAME_KEY] {
        let mut meta = local_actor_meta(text(PERSIST_ALWAYS), json("{}"));
        let plain = form(Some(local_actor_meta(text(PERSIST_ALWAYS), json("{}"))), Vec::new());
        set_entry(&mut meta, changed, text("another"));
        assert_ne!(key(&browser, &form(Some(meta), Vec::new())), key(&browser, &plain));
    }
}

#[test]
fn approval_file_is_named_after_the_digest_of_the_key() {
    let approval = approval_with_key("exact-browser-operation", false);
    let file = approval.record_response(accepted(None)).file.expect("acceptance is kept");
    assert_eq!(file.path, approval_path("29b2a61da38f129bcae3a5dc2bbf4286e745835c"));
    assert_eq!(
        file.contents,
        "{\n  \"version\": 1,\n  \"key\": \"exact-browser-operation\"\n}"
    );
}

#[test]
fn stored_approval_of_another_version_or_key_is_ignored() {
    let approval = approval_with_key("key", false);
    let stored = |version: u32, key: &str| PersistedLocalActorApproval { version, key: key.to_string() };
    assert_eq!(approval.persisted_response(Some(&stored(1, "key"))), Some(accepted(None)));
    assert_eq!(approval.persisted_response(Some(&stored(2, "key"))), None);
    assert_eq!(approval.persisted_response(Some(&stored(1, "other"))), None);
    assert_eq!(approval.persisted_response(None), None);
}

#[test]
fn marking_keeps_other_metadata() {
    let approval = approval_with_key("key", true);
    assert_eq!(
        approval.apply_actor_persistence(accepted(Some(r#"{"a":1,"persist":"session","b":2}"#))),
        accepted(Some(r#"{"a":1,"persist":"always","b":2}"#))
    );
    assert_eq!(
        approval.apply_actor_persistence(accepted(Some(r#"{"a":1}"#))),
        accepted(Some(r#"{"a":1,"persist":"always"}"#))
    );
    assert_eq!(
        approval.apply_actor_persistence(accepted(Some("[1]"))),
        accepted(Some("[1]"))
    );
    let once = approval.apply_actor_persistence(accepted(None));
    assert_eq!(once, accepted(Some(r#"{"persist":"always"}"#)));
    assert_eq!(approval.apply_actor_persistence(once), accepted(Some(r#"{"persist":"always"}"#)));
}

#[test]
fn marking_gives_no_key_twice() {
    let approval = approval_with_key("key", true);
    for (given, marked) in [
        (None, r#"{"persist":"always"}"#),
        (Some("{}"), r#"{"persist":"always"}"#),
        (Some(r#"{"persist":"always"}"#), r#"{"persist":"always"}"#),
        (Some(r#"{"a":{"persist":1},"persist":[],"z":0}"#), r#"{"a":{"persist":1},"persist":"always","z":0}"#),
    ] {
        let passed = approval.record_response(accepted(given)).response;
        let meta = passed.meta.expect("marked metadata");
        assert_eq!(to_compact_text(&meta), marked);
    }
}

#[test]
fn only_forms_without_fields_are_confirmations() {
    let meta = || Some(local_actor_meta(text(PERSIST_ALWAYS), json("{}")));
    assert!(is_confirmation(&form(None, Vec::new())));
    assert!(!is_confirmation(&form(meta(), vec!["name".to_string()])));
    let others = [
        Elicitation::Mcp(ElicitRequestParams::UrlElicitationParams { meta: meta() }),
        Elicitation::OpenAiForm { meta: meta() },
        Elicitation::OpenAiElicitationForm { meta: meta() },
        form(meta(), vec!["name".to_string()]),
    ];
    let config = local_actor_config("browser@openai-bundled", no_requirements());
    for elicitation in others {
        assert!(!is_confirmation(&elicitation));
        assert!(approval_for(&config, &elicitation).is_none());
        assert!(find_entry(elicitation.meta().expect("metadata"), PERSIST_KEY).is_some());
    }
}

#[test]
fn incomplete_metadata_is_not_kept() {
    let config = local_actor_config("browser@openai-bundled", no_requirements());
    assert!(approval_for(&config, &form(None, Vec::new())).is_none());
    for missing in [APPROVAL_KIND_KEY, CONNECTOR_ID_KEY, TOOL_NAME_KEY, TOOL_PARAMS_KEY] {
        let mut meta = local_actor_meta(text(PERSIST_ALWAYS), json("{}"));
        meta.retain(|(key, _)| key != missing);
        assert!(approval_for(&config, &form(Some(meta), Vec::new())).is_none());
    }
    for not_text in [APPROVAL_KIND_KEY, CONNECTOR_ID_KEY, TOOL_NAME_KEY] {
        let mut meta = local_actor_meta(text(PERSIST_ALWAYS), json("{}"));
        set_entry(&mut meta, not_text, Json::Bool(true));
        assert!(approval_for(&config, &form(Some(meta), Vec::new())).is_none());
    }
    let mut meta = local_actor_meta(text(PERSIST_ALWAYS), json("{}"));
    set_entry(&mut meta, APPROVAL_KIND_KEY, text("tool_suggestion"));
    assert!(approval_for(&config, &form(Some(meta), Vec::new())).is_none());
    let mut meta = local_actor_meta(text(PERSIST_ALWAYS), json("{}"));
    meta.retain(|(key, _)| key != PERSIST_KEY);
    let approval = approval_for(&config, &form(Some(meta), Vec::new())).expect("approval may be kept");
    assert!(!approval.actor_supports_always);
}

#[test]
fn only_plugin_servers_are_trusted() {
    let elicitation = local_actor_elicitation(text(PERSIST_ALWAYS));
    let attribution = || McpPluginAttribution { plugin_id: "browser@openai-bundled".to_string() };
    for source in [
        McpServerSource::Config,
        McpServerSource::Compatibility,
        McpServerSource::Extension,
    ] {
        assert!(approval_for(&config_with(source, no_requirements()), &elicitation).is_none());
    }
    let selected = config_with(McpServerSource::SelectedPlugin(attribution()), no_requirements());
    assert!(approval_for(&selected, &elicitation).is_some());
    assert!(LocalActorApproval::from_elicitation(&selected, "unknown", &elicitation).is_none());
    assert!(selected.mcp_server_catalog.server("unknown").is_none());
    assert_eq!(selected.mcp_server_catalog.server("other"), Some(&McpServerSource::Config));
}

#[test]
fn any_browser_denial_is_final() {
    let policy = |persistent_approval| BrowserUseOriginPolicy { persistent_approval };
    let browser = |global, default, origins: Option<Vec<Option<bool>>>| {
        local_actor_config(
            "browser@openai-bundled",
            ConfigRequirementsToml {
                browser_use: Some(BrowserUseRequirementsToml {
                    allow_global_persistent_approval: global,
                    default_origin_policy: default,
                    origins: origins.map(|list| {
                        list.into_iter().map(|setting| ("o".to_string(), policy(setting))).collect()
                    }),
                }),
                computer_use: Some(ComputerUseRequirementsToml { allow_persistent_approval: Some(false) }),
            },
        )
    };
    let allowed = [
        browser(None, None, None),
        browser(Some(true), Some(policy(Some(true))), Some(vec![Some(true), None])),
        browser(Some(true), Some(policy(None)), Some(Vec::new())),
    ];
    let denied = [
        browser(Some(false), Some(policy(Some(true))), None),
        browser(Some(true), Some(policy(Some(false))), None),
        browser(None, None, Some(vec![Some(true), Some(false)])),
    ];
    for plugin_id in ["browser@openai-bundled", "chrome@openai-bundled"] {
        for config in &allowed {
            assert!(managed_requirements_allow_persistence(config, plugin_id));
        }
        for config in &denied {
            assert!(!managed_requirements_allow_persistence(config, plugin_id));
        }
    }
    assert!(!managed_requirements_allow_persistence(&allowed[0], "computer-use@openai-bundled"));
    assert!(!managed_requirements_allow_persistence(&allowed[0], "browser@openai-curated-remote"));
    let free = local_actor_config("computer-use@openai-bundled", no_requirements());
    assert!(managed_requirements_allow_persistence(&free, "computer-use@openai-bundled"));
}
