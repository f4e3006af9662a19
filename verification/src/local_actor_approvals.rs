//! Approvals of what the bundled browser and computer-use plugins do, kept so
//! that the same operation is not asked about again in a later session.
//!
//! An operation is identified by its key: the text of a JSON object with the
//! plugin, the connector, the tool and the arguments in canonical form. An
//! accepted approval is kept in a file of its own, named after the digest of
//! the key; the file holds the key, and only the same key is answered from it.

use vstd::prelude::*;

use crate::approval_meta::{
    APPROVAL_KIND_KEY, APPROVAL_KIND_MCP_TOOL_CALL, CONNECTOR_ID_KEY, PERSIST_ALWAYS, PERSIST_KEY,
    TOOL_NAME_KEY, TOOL_PARAMS_KEY,
};
use crate::digest::{sha1_hex, sha1_hex_of};
use crate::elicitation::{
    asks_for_confirmation, is_confirmation, meta_of, well_formed_elicitation, well_formed_response,
    Elicitation, ElicitationAction, ElicitationResponse, ResponseView,
};
use crate::json::{
    canonical, canonicalize_json, copy_json, entries_view, find_entry, is_position, items_view,
    law_canonical_form, law_canonical_form_decides_same_json, law_set_entry_is_found,
    law_set_entry_is_stable, law_set_entry_keeps_keys_distinct, lemma_views, lookup, position,
    same_json, set_entry, well_formed, with_entry, Json, JsonView,
};
use crate::requirements::{
    managed_requirements_allow_persistence, persistence_allowed, plugin_of, source_of, McpConfig,
    McpServerSource,
};
use crate::serde_value::{
    compact_json_text, json_number, number_from, pretty_json_text, to_compact_text, to_pretty_text,
};
use crate::storage::{is_plain_name, lemma_json_file_name_is_plain};
use crate::text::{text_eq, texts};

verus! {

/// The version of the keys and of the files.
pub const PERSISTED_LOCAL_ACTOR_APPROVAL_VERSION: u32 = 1;

/// An approval that may be kept. `H` is how the caller names its home
/// directory.
#[derive(Debug)]
pub struct LocalActorApproval<H> {
    pub codex_home: H,
    pub serialized_key: String,
    pub actor_supports_always: bool,
}

/// What the file of an approval says.
#[derive(Debug, PartialEq, Eq)]
pub struct PersistedLocalActorApproval {
    pub version: u32,
    pub key: String,
}

/// What the key of an operation says, with the arguments in canonical form.
#[derive(Debug)]
pub struct LocalActorApprovalKey<'a> {
    pub version: u32,
    pub plugin_id: &'a str,
    pub connector_id: &'a str,
    pub tool_name: &'a str,
    pub tool_params: Json,
}

/// A file to write: where, in segments below the home directory, and what.
#[derive(Debug, PartialEq, Eq)]
pub struct ApprovalFile {
    pub path: Vec<String>,
    pub contents: String,
}

/// What becomes of a response: the response to go on with, and the file to
/// write first, if any.
#[derive(Debug, PartialEq)]
pub struct RecordedResponse {
    pub response: ElicitationResponse,
    pub file: Option<ApprovalFile>,
}

/// An operation that approval is asked for.
pub struct Operation {
    pub plugin_id: Seq<char>,
    pub connector_id: Seq<char>,
    pub tool_name: Seq<char>,
    pub tool_params: JsonView,
}

/// The same tool of the same connector and plugin, with the same arguments:
/// equal but for the order in which the entries of objects are written.
pub open spec fn same_operation(a: Operation, b: Operation) -> bool {
    &&& a.plugin_id == b.plugin_id
    &&& a.connector_id == b.connector_id
    &&& a.tool_name == b.tool_name
    &&& same_json(a.tool_params, b.tool_params)
}

/// The JSON of a key.
pub open spec fn key_fields(
    version: u32,
    plugin_id: Seq<char>,
    connector_id: Seq<char>,
    tool_name: Seq<char>,
    tool_params: JsonView,
) -> JsonView {
    JsonView::Object(
        seq![
            ("version"@, JsonView::Number(json_number(version))),
            ("plugin_id"@, JsonView::Text(plugin_id)),
            ("connector_id"@, JsonView::Text(connector_id)),
            ("tool_name"@, JsonView::Text(tool_name)),
            ("tool_params"@, tool_params),
        ],
    )
}

/// What the key of an operation says: the arguments are in canonical form.
pub open spec fn key_content(operation: Operation) -> JsonView {
    key_fields(
        PERSISTED_LOCAL_ACTOR_APPROVAL_VERSION,
        operation.plugin_id,
        operation.connector_id,
        operation.tool_name,
        canonical(operation.tool_params),
    )
}

/// `key` is the key of `operation`, and of no operation that is not the same.
pub open spec fn is_key_of(key: Seq<char>, operation: Operation) -> bool {
    &&& key == compact_json_text(key_content(operation))
    &&& forall|other: Operation|
        well_formed(other.tool_params) && #[trigger] compact_json_text(key_content(other)) == key
            ==> same_operation(other, operation)
}

/// The plugin that an elicitation of this server comes from, where approvals
/// of what it does may be kept.
pub open spec fn trusted_plugin<H>(config: McpConfig<H>, server_name: Seq<char>) -> Option<
    Seq<char>,
> {
    match source_of(config.mcp_server_catalog, server_name) {
        Some(source) => match plugin_of(source) {
            Some(plugin_id) => if persistence_allowed(config.requirements_toml, plugin_id) {
                Some(plugin_id)
            } else {
                None
            },
            None => None,
        },
        None => None,
    }
}

/// The operation that metadata describes for this plugin, where it asks for
/// the approval of a tool call and names connector, tool and arguments.
pub open spec fn described_operation(
    meta: Seq<(Seq<char>, JsonView)>,
    plugin_id: Seq<char>,
) -> Option<Operation> {
    match (
        lookup(meta, APPROVAL_KIND_KEY@),
        lookup(meta, CONNECTOR_ID_KEY@),
        lookup(meta, TOOL_NAME_KEY@),
        lookup(meta, TOOL_PARAMS_KEY@),
    ) {
        (
            Some(JsonView::Text(kind)),
            Some(JsonView::Text(connector_id)),
            Some(JsonView::Text(tool_name)),
            Some(tool_params),
        ) => if kind == APPROVAL_KIND_MCP_TOOL_CALL@ {
            Some(Operation { plugin_id, connector_id, tool_name, tool_params })
        } else {
            None
        },
        _ => None,
    }
}

/// The operation whose approval may be kept, if the elicitation is one: a
/// confirmation, from a trusted plugin, that describes a tool call.
pub open spec fn operation_of<H>(
    config: McpConfig<H>,
    server_name: Seq<char>,
    elicitation: Elicitation,
) -> Option<Operation> {
    match (
        asks_for_confirmation(elicitation),
        meta_of(elicitation),
        trusted_plugin(config, server_name),
    ) {
        (true, Some(meta), Some(plugin_id)) => described_operation(meta, plugin_id),
        _ => None,
    }
}

/// A persistence setting names the scope "always": it is that text, or a list
/// in which that text occurs.
pub open spec fn supports_always(value: JsonView) -> bool {
    match value {
        JsonView::Text(scope) => scope == PERSIST_ALWAYS@,
        JsonView::Array(scopes) => exists|i: int|
            0 <= i < scopes.len() && #[trigger] scopes[i] == JsonView::Text(PERSIST_ALWAYS@),
        _ => false,
    }
}

/// The metadata of an elicitation offers to keep an approval for good.
pub open spec fn offers_always(meta: Seq<(Seq<char>, JsonView)>) -> bool {
    lookup(meta, PERSIST_KEY@) matches Some(value) && supports_always(value)
}

/// Metadata that says, besides what it said, that the approval is kept for
/// good. Metadata that is not an object stays as it is.
pub open spec fn marked_always(meta: Option<JsonView>) -> Option<JsonView> {
    match meta {
        None => Some(
            JsonView::Object(seq![(PERSIST_KEY@, JsonView::Text(PERSIST_ALWAYS@))]),
        ),
        Some(JsonView::Object(entries)) => Some(
            JsonView::Object(with_entry(entries, PERSIST_KEY@, JsonView::Text(PERSIST_ALWAYS@))),
        ),
        Some(other) => Some(other),
    }
}

/// A response as the actor is to see it: with the mark, where the actor offers
/// to keep approvals for good.
pub open spec fn passed_on(response: ResponseView, actor_supports_always: bool) -> ResponseView {
    if actor_supports_always {
        ResponseView { meta: marked_always(response.meta), ..response }
    } else {
        response
    }
}

/// The acceptance that a kept approval stands for.
pub open spec fn plain_acceptance() -> ResponseView {
    ResponseView {
        action: ElicitationAction::Accept,
        content: Some(JsonView::Object(seq![])),
        meta: None,
    }
}

/// A file speaks for a key: it is of the version in use and holds that key.
pub open spec fn speaks_for(version: u32, stored_key: Seq<char>, key: Seq<char>) -> bool {
    version == PERSISTED_LOCAL_ACTOR_APPROVAL_VERSION && stored_key == key
}

/// The JSON of an approval file.
pub open spec fn file_content(version: u32, key: Seq<char>) -> JsonView {
    JsonView::Object(
        seq![
            ("version"@, JsonView::Number(json_number(version))),
            ("key"@, JsonView::Text(key)),
        ],
    )
}

/// The segments, below the home directory, of the path of the file that is
/// named after a digest.
pub open spec fn path_named(digest: Seq<char>) -> Seq<Seq<char>> {
    seq!["approvals"@, "local-actors"@, digest + ".json"@]
}

/// The segments of the path of the file for a key: it is named after the
/// digest of the key.
pub open spec fn path_of(key: Seq<char>) -> Seq<Seq<char>> {
    path_named(sha1_hex(key))
}

proof fn lemma_field_names_are_distinct()
    ensures
        "version"@ != "plugin_id"@,
        "version"@ != "connector_id"@,
        "version"@ != "tool_name"@,
        "version"@ != "tool_params"@,
        "plugin_id"@ != "connector_id"@,
        "plugin_id"@ != "tool_name"@,
        "plugin_id"@ != "tool_params"@,
        "connector_id"@ != "tool_name"@,
        "connector_id"@ != "tool_params"@,
        "tool_name"@ != "tool_params"@,
        "version"@ != "key"@,
{
    reveal_strlit("version");
    reveal_strlit("plugin_id");
    reveal_strlit("connector_id");
    reveal_strlit("tool_name");
    reveal_strlit("tool_params");
    reveal_strlit("key");
    assert("version"@.len() == 7);
    assert("plugin_id"@.len() == 9 && "plugin_id"@[0] == 'p');
    assert("connector_id"@.len() == 12);
    assert("tool_name"@.len() == 9 && "tool_name"@[0] == 't');
    assert("tool_params"@.len() == 11);
    assert("key"@.len() == 3);
}

proof fn lemma_key_fields_are_well_formed(
    version: u32,
    plugin_id: Seq<char>,
    connector_id: Seq<char>,
    tool_name: Seq<char>,
    tool_params: JsonView,
)
    requires
        well_formed(tool_params),
    ensures
        well_formed(key_fields(version, plugin_id, connector_id, tool_name, tool_params)),
{
    lemma_field_names_are_distinct();
    let content = key_fields(version, plugin_id, connector_id, tool_name, tool_params);
    let entries = content->Object_0;
    assert(entries.len() == 5);
    assert forall|i: int| 0 <= i < entries.len() implies well_formed((#[trigger] entries[i]).1) by {
    }
    assert(well_formed(content));
}

proof fn lemma_key_content_is_well_formed(operation: Operation)
    requires
        well_formed(operation.tool_params),
    ensures
        well_formed(key_content(operation)),
{
    law_canonical_form(operation.tool_params, canonical(operation.tool_params));
    lemma_key_fields_are_well_formed(
        PERSISTED_LOCAL_ACTOR_APPROVAL_VERSION,
        operation.plugin_id,
        operation.connector_id,
        operation.tool_name,
        canonical(operation.tool_params),
    );
}

proof fn lemma_file_content_is_well_formed(version: u32, key: Seq<char>)
    ensures
        well_formed(file_content(version, key)),
{
    lemma_field_names_are_distinct();
    let content = file_content(version, key);
    let entries = content->Object_0;
    assert(entries.len() == 2);
    assert forall|i: int| 0 <= i < entries.len() implies well_formed((#[trigger] entries[i]).1) by {
    }
    assert(well_formed(content));
}

proof fn lemma_key_content_identifies(a: Operation, b: Operation)
    requires
        well_formed(a.tool_params),
        well_formed(b.tool_params),
        key_content(a) == key_content(b),
    ensures
        same_operation(a, b),
{
    let x = key_content(a)->Object_0;
    let y = key_content(b)->Object_0;
    assert(x[1].1 == y[1].1);
    assert(x[2].1 == y[2].1);
    assert(x[3].1 == y[3].1);
    assert(x[4].1 == y[4].1);
    law_canonical_form_decides_same_json(a.tool_params, b.tool_params);
}

/// The text that a value is, if it is one.
fn as_text(value: &Json) -> (text: Option<&String>)
    ensures
        match text {
            Some(found) => value@ == JsonView::Text(found@),
            None => !(value@ is Text),
        },
{
    match value {
        Json::Text(text) => Some(text),
        _ => None,
    }
}

/// The text under a key, if there is one.
fn find_text<'a>(entries: &'a Vec<(String, Json)>, key: &str) -> (text: Option<&'a String>)
    ensures
        match text {
            Some(found) => lookup(entries_view(entries@), key@) == Some(JsonView::Text(found@)),
            None => !(lookup(entries_view(entries@), key@) matches Some(value) && value is Text),
        },
{
    match find_entry(entries, key) {
        Some(value) => as_text(value),
        None => None,
    }
}

fn is_text(value: &Json, text: &str) -> (result: bool)
    ensures
        result == (value@ == JsonView::Text(text@)),
{
    match as_text(value) {
        Some(found) => text_eq(found.as_str(), text),
        None => false,
    }
}

/// Whether a persistence setting names the scope "always".
pub fn persist_value_supports_always(value: &Json) -> (result: bool)
    ensures
        result == supports_always(value@),
{
    proof {
        lemma_views(*value);
    }
    match value {
        Json::Text(scope) => text_eq(scope.as_str(), PERSIST_ALWAYS),
        Json::Array(scopes) => {
            let ghost all = items_view(scopes@);
            let mut i: usize = 0;
            while i < scopes.len()
                invariant
                    value@ == JsonView::Array(all),
                    all == items_view(scopes@),
                    i <= scopes@.len(),
                    forall|j: int|
                        0 <= j < i ==> #[trigger] all[j] != JsonView::Text(PERSIST_ALWAYS@),
                decreases scopes@.len() - i,
            {
                if is_text(&scopes[i], PERSIST_ALWAYS) {
                    assert(value@->Array_0[i as int] == JsonView::Text(PERSIST_ALWAYS@));
                    return true;
                }
                i = i + 1;
            }
            assert(value@->Array_0 == all);
            false
        },
        _ => false,
    }
}

impl<'a> LocalActorApprovalKey<'a> {
    /// The key as JSON, its fields in this order.
    pub fn to_json(&self) -> (json: Json)
        requires
            well_formed(self.tool_params@),
        ensures
            json@ == key_fields(
                self.version,
                self.plugin_id@,
                self.connector_id@,
                self.tool_name@,
                self.tool_params@,
            ),
            well_formed(json@),
    {
        let mut entries: Vec<(String, Json)> = Vec::new();
        entries.push(("version".to_string(), Json::Number(number_from(self.version))));
        entries.push(("plugin_id".to_string(), Json::Text(self.plugin_id.to_string())));
        entries.push(("connector_id".to_string(), Json::Text(self.connector_id.to_string())));
        entries.push(("tool_name".to_string(), Json::Text(self.tool_name.to_string())));
        entries.push(("tool_params".to_string(), copy_json(&self.tool_params)));
        let json: Json = Json::Object(entries);
        proof {
            lemma_views(json);
            let content = key_fields(
                self.version,
                self.plugin_id@,
                self.connector_id@,
                self.tool_name@,
                self.tool_params@,
            );
            assert(entries_view(entries@) =~= content->Object_0);
            lemma_key_fields_are_well_formed(
                self.version,
                self.plugin_id@,
                self.connector_id@,
                self.tool_name@,
                self.tool_params@,
            );
        }
        json
    }
}

/// The text of the key of an operation.
fn key_text(plugin_id: &str, connector_id: &str, tool_name: &str, tool_params: &Json) -> (key:
    String)
    requires
        well_formed(tool_params@),
    ensures
        is_key_of(
            key@,
            Operation {
                plugin_id: plugin_id@,
                connector_id: connector_id@,
                tool_name: tool_name@,
                tool_params: tool_params@,
            },
        ),
{
    let ghost operation = Operation {
        plugin_id: plugin_id@,
        connector_id: connector_id@,
        tool_name: tool_name@,
        tool_params: tool_params@,
    };
    proof {
        law_canonical_form(tool_params@, canonical(tool_params@));
    }
    let key: LocalActorApprovalKey<'_> = LocalActorApprovalKey {
        version: PERSISTED_LOCAL_ACTOR_APPROVAL_VERSION,
        plugin_id,
        connector_id,
        tool_name,
        tool_params: canonicalize_json(tool_params),
    };
    let text: String = to_compact_text(&key.to_json());
    proof {
        assert forall|other: Operation|
            well_formed(other.tool_params) && #[trigger] compact_json_text(key_content(other))
                == text@ implies same_operation(other, operation) by {
            lemma_key_content_is_well_formed(other);
            lemma_key_content_identifies(other, operation);
        }
    }
    text
}

/// The path of the file that is named after a digest.
pub fn approval_path(digest: &str) -> (path: Vec<String>)
    ensures
        texts(path@) == path_named(digest@),
{
    let mut path: Vec<String> = Vec::new();
    path.push("approvals".to_string());
    path.push("local-actors".to_string());
    path.push(digest.to_string().concat(".json"));
    assert(texts(path@) =~= path_named(digest@));
    path
}

impl<H> LocalActorApproval<H> {
    /// The approval that an elicitation asks for, if it is one that may be
    /// kept: a confirmation, of a server that a trusted plugin registered, that
    /// describes a tool call.
    pub fn from_elicitation(
        config: &McpConfig<H>,
        server_name: &str,
        elicitation: &Elicitation,
    ) -> (approval: Option<Self>) where H: Clone
        requires
            well_formed_elicitation(*elicitation),
        ensures
            match approval {
                Some(found) => {
                    &&& operation_of(*config, server_name@, *elicitation) matches Some(operation)
                        && is_key_of(found.serialized_key@, operation)
                    &&& meta_of(*elicitation) matches Some(meta) && found.actor_supports_always
                        == offers_always(meta)
                    &&& cloned(config.codex_home, found.codex_home)
                    &&& source_of(config.mcp_server_catalog, server_name@) matches Some(source)
                        && plugin_of(source) matches Some(plugin_id) && meta_of(
                        *elicitation,
                    ) matches Some(meta) && lookup(meta, "connector_id"@) matches Some(connector_id)
                        && lookup(meta, "tool_name"@) matches Some(tool_name) && lookup(
                        meta,
                        "tool_params"@,
                    ) matches Some(tool_params) && found.serialized_key@ == compact_json_text(
                        JsonView::Object(
                            seq![
                                ("version"@, JsonView::Number(json_number(1))),
                                ("plugin_id"@, JsonView::Text(plugin_id)),
                                ("connector_id"@, connector_id),
                                ("tool_name"@, tool_name),
                                ("tool_params"@, canonical(tool_params)),
                            ],
                        ),
                    )
                },
                None => operation_of(*config, server_name@, *elicitation) is None,
            },
    {
        if !is_confirmation(elicitation) {
            return None;
        }
        let meta: &Vec<(String, Json)> = match elicitation.meta() {
            Some(meta) => meta,
            None => return None,
        };
        match find_entry(meta, APPROVAL_KIND_KEY) {
            Some(kind) => if !is_text(kind, APPROVAL_KIND_MCP_TOOL_CALL) {
                return None;
            },
            None => return None,
        }
        let source: &McpServerSource = match config.mcp_server_catalog.server(server_name) {
            Some(source) => source,
            None => return None,
        };
        let plugin_id: &String = match source {
            McpServerSource::Plugin(attribution) | McpServerSource::SelectedPlugin(attribution) => {
                &attribution.plugin_id
            },
            McpServerSource::Config
            | McpServerSource::Compatibility
            | McpServerSource::Extension => return None,
        };
        if !managed_requirements_allow_persistence(config, plugin_id.as_str()) {
            return None;
        }
        let connector_id: &String = match find_text(meta, CONNECTOR_ID_KEY) {
            Some(connector_id) => connector_id,
            None => return None,
        };
        let tool_name: &String = match find_text(meta, TOOL_NAME_KEY) {
            Some(tool_name) => tool_name,
            None => return None,
        };
        let tool_params: &Json = match find_entry(meta, TOOL_PARAMS_KEY) {
            Some(tool_params) => tool_params,
            None => return None,
        };
        proof {
            let entries = entries_view(meta@);
            let at = position(entries, TOOL_PARAMS_KEY@);
            assert(is_position(entries, TOOL_PARAMS_KEY@, at));
            assert(JsonView::Object(entries)->Object_0 == entries);
            assert(well_formed(entries[at].1));
        }
        let serialized_key: String = key_text(
            plugin_id.as_str(),
            connector_id.as_str(),
            tool_name.as_str(),
            tool_params,
        );
        let actor_supports_always: bool = match find_entry(meta, PERSIST_KEY) {
            Some(value) => persist_value_supports_always(value),
            None => false,
        };
        Some(
            LocalActorApproval {
                codex_home: config.codex_home.clone(),
                serialized_key,
                actor_supports_always,
            },
        )
    }

    /// The answer from what was kept: an acceptance, if the file for this key
    /// could be read and speaks for it. `stored` is what the file at
    /// [`persistence_path`](Self::persistence_path) says, `None` if there is
    /// none or it cannot be read or parsed.
    pub fn persisted_response(&self, stored: Option<&PersistedLocalActorApproval>) -> (response:
        Option<ElicitationResponse>)
        ensures
            match response {
                Some(answer) => {
                    &&& stored matches Some(file) && speaks_for(
                        file.version,
                        file.key@,
                        self.serialized_key@,
                    )
                    &&& answer@ == passed_on(plain_acceptance(), self.actor_supports_always)
                    &&& well_formed_response(answer@)
                    &&& stored matches Some(file) && file.version == 1 && file.key@
                        == self.serialized_key@
                    &&& answer@.action == ElicitationAction::Accept
                    &&& answer@.content == Some(JsonView::Object(seq![]))
                    &&& !self.actor_supports_always ==> answer@.meta is None
                    &&& self.actor_supports_always ==> answer@.meta == Some(
                        JsonView::Object(seq![("persist"@, JsonView::Text("always"@))]),
                    )
                },
                None => !(stored matches Some(file) && speaks_for(
                    file.version,
                    file.key@,
                    self.serialized_key@,
                )),
            },
    {
        match stored {
            Some(file) => {
                if file.version != PERSISTED_LOCAL_ACTOR_APPROVAL_VERSION || !text_eq(
                    file.key.as_str(),
                    self.serialized_key.as_str(),
                ) {
                    return None;
                }
                let acceptance: ElicitationResponse = ElicitationResponse {
                    action: ElicitationAction::Accept,
                    content: Some(Json::Object(Vec::new())),
                    meta: None,
                };
                proof {
                    let content = acceptance.content->0;
                    lemma_views(content);
                    assert(content@->Object_0 =~= seq![]);
                    assert(acceptance@ == plain_acceptance());
                    assert(well_formed(content@));
                }
                Some(self.apply_actor_persistence(acceptance))
            },
            None => None,
        }
    }

    /// What becomes of the user's response: only an acceptance is kept, and
    /// only an acceptance is marked.
    pub fn record_response(&self, response: ElicitationResponse) -> (recorded: RecordedResponse)
        ensures
            response.action == ElicitationAction::Accept ==> {
                &&& recorded.response@ == passed_on(response@, self.actor_supports_always)
                &&& recorded.file matches Some(file) && texts(file.path@) == path_of(
                    self.serialized_key@,
                ) && file.contents@ == pretty_json_text(
                    file_content(
                        PERSISTED_LOCAL_ACTOR_APPROVAL_VERSION,
                        self.serialized_key@,
                    ),
                ) && forall|version: u32, key: Seq<char>| #[trigger]
                    pretty_json_text(file_content(version, key)) == file.contents@ ==> speaks_for(
                        version,
                        key,
                        self.serialized_key@,
                    )
            },
            response.action != ElicitationAction::Accept ==> recorded.response == response
                && recorded.file is None,
            recorded.response@.action == response@.action,
            recorded.response@.content == response@.content,
            !self.actor_supports_always ==> recorded.response@ == response@,
            response.action == ElicitationAction::Accept ==> {
                &&& recorded.file is Some
                &&& recorded.file->0.contents@ == pretty_json_text(
                    JsonView::Object(
                        seq![
                            ("version"@, JsonView::Number(json_number(1))),
                            ("key"@, JsonView::Text(self.serialized_key@)),
                        ],
                    ),
                )
                &&& texts(recorded.file->0.path@) == seq![
                    "approvals"@,
                    "local-actors"@,
                    sha1_hex(self.serialized_key@) + ".json"@,
                ]
            },
            well_formed_response(response@) ==> well_formed_response(recorded.response@),
    {
        if response.action != ElicitationAction::Accept {
            return RecordedResponse { response, file: None };
        }
        let approval: PersistedLocalActorApproval = PersistedLocalActorApproval {
            version: PERSISTED_LOCAL_ACTOR_APPROVAL_VERSION,
            key: self.serialized_key.clone(),
        };
        RecordedResponse {
            file: Some(
                ApprovalFile { path: self.persistence_path(), contents: approval.to_text() },
            ),
            response: self.apply_actor_persistence(response),
        }
    }

    /// The response as the actor is to see it.
    pub fn apply_actor_persistence(&self, response: ElicitationResponse) -> (passed:
        ElicitationResponse)
        ensures
            passed@ == passed_on(response@, self.actor_supports_always),
            !self.actor_supports_always ==> passed@ == response@,
            passed@.action == response@.action,
            passed@.content == response@.content,
            well_formed_response(response@) ==> well_formed_response(passed@),
    {
        proof {
            if well_formed_response(response@) {
                law_marking_keeps_keys_distinct(response@, self.actor_supports_always);
            }
        }
        if !self.actor_supports_always {
            return response;
        }
        let ghost given = response@;
        let meta: Json = match response.meta {
            Some(meta) => meta,
            None => Json::Object(Vec::new()),
        };
        proof {
            lemma_views(meta);
        }
        let marked: Json = match meta {
            Json::Object(entries) => {
                let mut entries: Vec<(String, Json)> = entries;
                let ghost prior = entries_view(entries@);
                set_entry(&mut entries, PERSIST_KEY, Json::Text(PERSIST_ALWAYS.to_string()));
                let marked: Json = Json::Object(entries);
                proof {
                    lemma_views(marked);
                    if given.meta is None {
                        assert(prior =~= seq![]);
                        assert(with_entry(prior, PERSIST_KEY@, JsonView::Text(PERSIST_ALWAYS@))
                            =~= seq![(PERSIST_KEY@, JsonView::Text(PERSIST_ALWAYS@))]);
                    }
                }
                marked
            },
            other => other,
        };
        ElicitationResponse {
            action: response.action,
            content: response.content,
            meta: Some(marked),
        }
    }

    /// Where the approval is kept: the segments of the path below the home
    /// directory.
    pub fn persistence_path(&self) -> (path: Vec<String>)
        ensures
            texts(path@) == path_of(self.serialized_key@),
            texts(path@) == seq![
                "approvals"@,
                "local-actors"@,
                sha1_hex(self.serialized_key@) + ".json"@,
            ],
            forall|i: int| 0 <= i < path@.len() ==> is_plain_name((#[trigger] path@[i])@),
    {
        let digest: String = sha1_hex_of(self.serialized_key.as_str());
        let path: Vec<String> = approval_path(digest.as_str());
        proof {
            lemma_json_file_name_is_plain(digest@);
            reveal_strlit("approvals");
            reveal_strlit("local-actors");
            assert(is_plain_name("approvals"@));
            assert(is_plain_name("local-actors"@));
            assert(texts(path@).len() == 3);
            assert forall|i: int| 0 <= i < path@.len() implies is_plain_name(
                (#[trigger] path@[i])@,
            ) by {
                assert(texts(path@)[i] == path@[i]@);
            }
        }
        path
    }
}

impl PersistedLocalActorApproval {
    /// What is written to the file. It is the text of no other approval.
    pub fn to_text(&self) -> (text: String)
        ensures
            text@ == pretty_json_text(file_content(self.version, self.key@)),
            forall|version: u32, key: Seq<char>| #[trigger]
                pretty_json_text(file_content(version, key)) == text@ ==> version == self.version
                    && key == self.key@,
    {
        let number: serde_json::Number = number_from(self.version);
        let ghost shown = number;
        let mut entries: Vec<(String, Json)> = Vec::new();
        entries.push(("version".to_string(), Json::Number(number)));
        entries.push(("key".to_string(), Json::Text(self.key.clone())));
        let json: Json = Json::Object(entries);
        let ghost content = file_content(self.version, self.key@);
        proof {
            lemma_views(json);
            assert(entries_view(entries@) =~= content->Object_0);
            lemma_file_content_is_well_formed(self.version, self.key@);
        }
        let text: String = to_pretty_text(&json);
        proof {
            assert forall|version: u32, key: Seq<char>| #[trigger]
                pretty_json_text(file_content(version, key)) == text@ implies version
                == self.version && key == self.key@ by {
                lemma_file_content_is_well_formed(version, key);
                let other = file_content(version, key)->Object_0;
                assert(other == content->Object_0);
                assert(other[0].1 == JsonView::Number(shown));
                assert(other[1].1 == JsonView::Text(self.key@));
            }
        }
        text
    }
}

/// Two operations have the same key if and only if they are the same: the
/// order in which arguments are written makes no difference, and anything else
/// does.
pub proof fn law_key_identifies_operation(
    key: Seq<char>,
    operation: Operation,
    other_key: Seq<char>,
    other: Operation,
)
    requires
        well_formed(operation.tool_params),
        well_formed(other.tool_params),
        is_key_of(key, operation),
        is_key_of(other_key, other),
    ensures
        key == other_key <==> same_operation(operation, other),
{
    if same_operation(operation, other) {
        law_canonical_form_decides_same_json(operation.tool_params, other.tool_params);
        assert(key_content(operation)->Object_0 =~= key_content(other)->Object_0);
    }
    if key == other_key {
        assert(compact_json_text(key_content(operation)) == other_key);
    }
}

/// An acceptance that one session kept answers another session's request if
/// and only if it is for the same operation, and is looked for where it was
/// written. The file that was kept, as it is read back, says `version` and
/// `stored_key`.
pub proof fn law_kept_acceptance_answers_same_operation(
    version: u32,
    stored_key: Seq<char>,
    key: Seq<char>,
    operation: Operation,
    later_key: Seq<char>,
    later: Operation,
)
    requires
        well_formed(operation.tool_params),
        well_formed(later.tool_params),
        is_key_of(key, operation),
        is_key_of(later_key, later),
        speaks_for(version, stored_key, key),
    ensures
        speaks_for(version, stored_key, later_key) <==> same_operation(operation, later),
        same_operation(operation, later) ==> path_of(key) == path_of(later_key),
{
    law_key_identifies_operation(key, operation, later_key, later);
}

/// Where the administrator denies it, or the plugin is not trusted, nothing
/// that a plugin asks for is kept or answered from what was kept.
pub proof fn law_untrusted_plugin_has_no_operation<H>(
    config: McpConfig<H>,
    server_name: Seq<char>,
    elicitation: Elicitation,
    source: McpServerSource,
)
    requires
        source_of(config.mcp_server_catalog, server_name) == Some(source),
        plugin_of(source) matches Some(plugin_id) ==> !persistence_allowed(
            config.requirements_toml,
            plugin_id,
        ),
    ensures
        operation_of(config, server_name, elicitation) is None,
{
}

/// Marking changes nothing but the metadata, and there only the persistence
/// entry.
pub proof fn law_marking_touches_persistence_only(
    response: ResponseView,
    entries: Seq<(Seq<char>, JsonView)>,
    other_key: Seq<char>,
)
    requires
        response.meta == Some(JsonView::Object(entries)),
        other_key != PERSIST_KEY@,
    ensures
        passed_on(response, true).action == response.action,
        passed_on(response, true).content == response.content,
        passed_on(response, true).meta matches Some(meta) && meta matches JsonView::Object(marked)
            && lookup(marked, PERSIST_KEY@) == Some(JsonView::Text(PERSIST_ALWAYS@)) && lookup(
            marked,
            other_key,
        ) == lookup(entries, other_key),
{
    law_set_entry_is_found(entries, PERSIST_KEY@, JsonView::Text(PERSIST_ALWAYS@), other_key);
}

/// Marking gives no object of the metadata a key twice.
pub proof fn law_marking_keeps_keys_distinct(response: ResponseView, actor_supports_always: bool)
    requires
        response.meta matches Some(meta) ==> well_formed(meta),
    ensures
        passed_on(response, actor_supports_always).meta matches Some(meta) ==> well_formed(meta),
{
    let always = JsonView::Text(PERSIST_ALWAYS@);
    match response.meta {
        None => {
            let marked = JsonView::Object(seq![(PERSIST_KEY@, always)]);
            let fields = marked->Object_0;
            assert(fields.len() == 1);
            assert forall|i: int| 0 <= i < fields.len() implies well_formed(
                (#[trigger] fields[i]).1,
            ) by {}
        },
        Some(JsonView::Object(entries)) => {
            law_set_entry_keeps_keys_distinct(entries, PERSIST_KEY@, always);
        },
        _ => {},
    }
}

/// To mark a response twice is to mark it once.
pub proof fn law_marking_is_stable(response: ResponseView, actor_supports_always: bool)
    ensures
        passed_on(passed_on(response, actor_supports_always), actor_supports_always) == passed_on(
            response,
            actor_supports_always,
        ),
{
    let always = JsonView::Text(PERSIST_ALWAYS@);
    match response.meta {
        None => {
            let empty = Seq::<(Seq<char>, JsonView)>::empty();
            assert(with_entry(empty, PERSIST_KEY@, always) =~= seq![(PERSIST_KEY@, always)]);
            law_set_entry_is_stable(empty, PERSIST_KEY@, always);
        },
        Some(JsonView::Object(entries)) => {
            law_set_entry_is_stable(entries, PERSIST_KEY@, always);
        },
        _ => {},
    }
}

/// An operation is what the request says it is, whatever the plugin: the server
/// is the plugin's, the metadata names connector and tool, and the arguments
/// are those in the metadata.
pub proof fn law_operation_is_what_the_request_says<H>(
    config: McpConfig<H>,
    server_name: Seq<char>,
    elicitation: Elicitation,
    operation: Operation,
)
    requires
        operation_of(config, server_name, elicitation) == Some(operation),
    ensures
        asks_for_confirmation(elicitation),
        source_of(config.mcp_server_catalog, server_name) matches Some(source) && plugin_of(source)
            == Some(operation.plugin_id),
        persistence_allowed(config.requirements_toml, operation.plugin_id),
        meta_of(elicitation) matches Some(meta) && lookup(meta, "codex_approval_kind"@) == Some(
            JsonView::Text("mcp_tool_call"@),
        ) && lookup(meta, "connector_id"@) == Some(JsonView::Text(operation.connector_id))
            && lookup(meta, "tool_name"@) == Some(JsonView::Text(operation.tool_name)) && lookup(
            meta,
            "tool_params"@,
        ) == Some(operation.tool_params),
{
}

/// Every confirmation of a tool call from a plugin that may keep approvals has
/// an operation: nothing but a missing word stands in the way.
pub proof fn law_every_tool_call_has_its_operation<H>(
    config: McpConfig<H>,
    server_name: Seq<char>,
    elicitation: Elicitation,
    source: McpServerSource,
    meta: Seq<(Seq<char>, JsonView)>,
    operation: Operation,
)
    requires
        asks_for_confirmation(elicitation),
        source_of(config.mcp_server_catalog, server_name) == Some(source),
        plugin_of(source) == Some(operation.plugin_id),
        persistence_allowed(config.requirements_toml, operation.plugin_id),
        meta_of(elicitation) == Some(meta),
        lookup(meta, "codex_approval_kind"@) == Some(JsonView::Text("mcp_tool_call"@)),
        lookup(meta, "connector_id"@) == Some(JsonView::Text(operation.connector_id)),
        lookup(meta, "tool_name"@) == Some(JsonView::Text(operation.tool_name)),
        lookup(meta, "tool_params"@) == Some(operation.tool_params),
    ensures
        operation_of(config, server_name, elicitation) == Some(operation),
{
}

/// Two requests whose approvals may be kept have the same key if and only if
/// they come from the same plugin and their metadata says the same of
/// connector, tool and arguments.
pub proof fn law_requests_share_a_key_only_if_alike<H>(
    config: McpConfig<H>,
    server_name: Seq<char>,
    elicitation: Elicitation,
    source: McpServerSource,
    meta: Seq<(Seq<char>, JsonView)>,
    key: Seq<char>,
    other_config: McpConfig<H>,
    other_server_name: Seq<char>,
    other_elicitation: Elicitation,
    other_source: McpServerSource,
    other_meta: Seq<(Seq<char>, JsonView)>,
    other_key: Seq<char>,
)
    requires
        well_formed_elicitation(elicitation),
        source_of(config.mcp_server_catalog, server_name) == Some(source),
        meta_of(elicitation) == Some(meta),
        operation_of(config, server_name, elicitation) is Some,
        is_key_of(key, operation_of(config, server_name, elicitation)->0),
        well_formed_elicitation(other_elicitation),
        source_of(other_config.mcp_server_catalog, other_server_name) == Some(other_source),
        meta_of(other_elicitation) == Some(other_meta),
        operation_of(other_config, other_server_name, other_elicitation) is Some,
        is_key_of(other_key, operation_of(other_config, other_server_name, other_elicitation)->0),
    ensures
        key == other_key <==> {
            &&& plugin_of(source) == plugin_of(other_source)
            &&& lookup(meta, "connector_id"@) == lookup(other_meta, "connector_id"@)
            &&& lookup(meta, "tool_name"@) == lookup(other_meta, "tool_name"@)
            &&& same_json(
                lookup(meta, "tool_params"@)->0,
                lookup(other_meta, "tool_params"@)->0,
            )
        },
{
    let operation = operation_of(config, server_name, elicitation)->0;
    let other = operation_of(other_config, other_server_name, other_elicitation)->0;
    lemma_arguments_are_well_formed(meta);
    lemma_arguments_are_well_formed(other_meta);
    law_key_identifies_operation(key, operation, other_key, other);
}

proof fn lemma_arguments_are_well_formed(meta: Seq<(Seq<char>, JsonView)>)
    requires
        well_formed(JsonView::Object(meta)),
    ensures
        lookup(meta, TOOL_PARAMS_KEY@) matches Some(tool_params) ==> well_formed(tool_params),
{
    if lookup(meta, TOOL_PARAMS_KEY@) is Some {
        let at = position(meta, TOOL_PARAMS_KEY@);
        assert(is_position(meta, TOOL_PARAMS_KEY@, at));
        assert(JsonView::Object(meta)->Object_0 == meta);
        assert(well_formed(meta[at].1));
    }
}

/// A key is the text of an object that names version, plugin, connector, tool
/// and canonical arguments, in this order.
pub proof fn law_key_names_all_of_its_operation(key: Seq<char>, operation: Operation)
    requires
        is_key_of(key, operation),
    ensures
        key == compact_json_text(
            JsonView::Object(
                seq![
                    ("version"@, JsonView::Number(json_number(1))),
                    ("plugin_id"@, JsonView::Text(operation.plugin_id)),
                    ("connector_id"@, JsonView::Text(operation.connector_id)),
                    ("tool_name"@, JsonView::Text(operation.tool_name)),
                    ("tool_params"@, canonical(operation.tool_params)),
                ],
            ),
        ),
{
}

/// Operations that differ in plugin, connector, tool or arguments are not the
/// same; those that differ in none of them are.
pub proof fn law_every_part_of_an_operation_counts(a: Operation, b: Operation)
    ensures
        a.plugin_id != b.plugin_id ==> !same_operation(a, b),
        a.connector_id != b.connector_id ==> !same_operation(a, b),
        a.tool_name != b.tool_name ==> !same_operation(a, b),
        !same_json(a.tool_params, b.tool_params) ==> !same_operation(a, b),
        a.plugin_id == b.plugin_id && a.connector_id == b.connector_id && a.tool_name == b.tool_name
            && same_json(a.tool_params, b.tool_params) ==> same_operation(a, b),
{
}

/// A list of scopes offers "always" wherever in it that text is, and only if it
/// is somewhere: no order of the same scopes makes a difference.
pub proof fn law_scopes_are_a_set(scopes: Seq<JsonView>, others: Seq<JsonView>, i: int)
    ensures
        supports_always(JsonView::Array(scopes)) <==> scopes.contains(JsonView::Text("always"@)),
        0 <= i < scopes.len() && scopes[i] == JsonView::Text("always"@) ==> supports_always(
            JsonView::Array(scopes),
        ),
        scopes.to_multiset() == others.to_multiset() ==> supports_always(JsonView::Array(scopes))
            == supports_always(JsonView::Array(others)),
{
    broadcast use vstd::seq_lib::group_to_multiset_ensures;

    let always = JsonView::Text("always"@);
    assert(JsonView::Array(scopes)->Array_0 == scopes);
    assert(JsonView::Array(others)->Array_0 == others);
    assert(supports_always(JsonView::Array(scopes)) <==> scopes.contains(always));
    assert(supports_always(JsonView::Array(others)) <==> others.contains(always));
    assert(scopes.contains(always) <==> scopes.to_multiset().count(always) > 0);
    assert(others.contains(always) <==> others.to_multiset().count(always) > 0);
}

/// A single scope offers "always" if it is that text, and a setting that is
/// neither a text nor a list offers nothing.
pub proof fn law_single_scope_is_compared(value: JsonView)
    requires
        !(value is Array),
    ensures
        supports_always(value) <==> value == JsonView::Text("always"@),
        supports_always(value) <==> supports_always(JsonView::Array(seq![value])),
{
    let list = seq![value];
    assert(list[0] == value);
    law_scopes_are_a_set(list, list, 0);
}

/// The offer of a request is what its metadata says under "persist"; without
/// that there is none.
pub proof fn law_offer_is_in_the_metadata(meta: Seq<(Seq<char>, JsonView)>)
    ensures
        lookup(meta, "persist"@) is None ==> !offers_always(meta),
        lookup(meta, "persist"@) is Some ==> offers_always(meta) == supports_always(
            lookup(meta, "persist"@)->0,
        ),
{
}

/// Where the actor does not offer "always", a response is passed on as it is,
/// whatever it says.
pub proof fn law_nothing_is_marked_without_an_offer(response: ResponseView)
    ensures
        passed_on(response, false) == response,
{
}

/// Where the actor offers "always", an object of metadata says "always" under
/// "persist" afterwards, missing metadata becomes an object that says just
/// that, and metadata that is no object stays. Action and content stay.
pub proof fn law_offer_is_taken_up(response: ResponseView)
    ensures
        passed_on(response, true).action == response.action,
        passed_on(response, true).content == response.content,
        response.meta is None ==> passed_on(response, true).meta == Some(
            JsonView::Object(seq![("persist"@, JsonView::Text("always"@))]),
        ),
        response.meta is Some && response.meta->0 is Object ==> passed_on(response, true).meta
            == Some(
            JsonView::Object(
                with_entry(response.meta->0->Object_0, "persist"@, JsonView::Text("always"@)),
            ),
        ),
        response.meta is Some && !(response.meta->0 is Object) ==> passed_on(response, true)
            == response,
{
}

/// What stands for a kept approval accepts, with empty content and without
/// metadata.
pub proof fn law_kept_approval_is_an_acceptance()
    ensures
        plain_acceptance().action == ElicitationAction::Accept,
        plain_acceptance().content == Some(JsonView::Object(seq![])),
        plain_acceptance().meta is None,
{
}

/// A file of another version, or with another key, does not speak for a key;
/// one of this version with this key does.
pub proof fn law_only_this_version_and_key_speak(
    version: u32,
    stored_key: Seq<char>,
    key: Seq<char>,
)
    ensures
        version != 1 ==> !speaks_for(version, stored_key, key),
        stored_key != key ==> !speaks_for(version, stored_key, key),
        speaks_for(1, key, key),
{
}

/// An approval file holds the version and the key, and nothing else.
pub proof fn law_approval_file_holds_version_and_key(version: u32, key: Seq<char>)
    ensures
        file_content(version, key) is Object,
        file_content(version, key)->Object_0.len() == 2,
        file_content(version, key)->Object_0[0] == (
            "version"@,
            JsonView::Number(json_number(version)),
        ),
        file_content(version, key)->Object_0[1] == ("key"@, JsonView::Text(key)),
{
}

/// Approvals are kept side by side in one directory, each in a file with the
/// digest of its key for a name: two share a file only if the digests of their
/// keys are the same.
pub proof fn law_keys_share_a_file_only_with_the_digest(key: Seq<char>, other: Seq<char>)
    ensures
        path_of(key).len() == 3,
        path_of(key)[0] == "approvals"@,
        path_of(key)[1] == "local-actors"@,
        path_of(key)[2] == sha1_hex(key) + ".json"@,
        path_of(key) == path_of(other) <==> sha1_hex(key) == sha1_hex(other),
{
    let a = path_of(key)[2];
    let b = path_of(other)[2];
    if path_of(key) == path_of(other) {
        let n = sha1_hex(key).len();
        assert(a.len() == b.len());
        assert(a.take(n as int) =~= sha1_hex(key));
        assert(b.take(n as int) =~= sha1_hex(other));
    }
}

/// A key of any version shows each of its fields under its name, in order.
pub proof fn law_key_shows_its_fields(
    version: u32,
    plugin_id: Seq<char>,
    connector_id: Seq<char>,
    tool_name: Seq<char>,
    tool_params: JsonView,
)
    ensures
        key_fields(version, plugin_id, connector_id, tool_name, tool_params) is Object,
        key_fields(version, plugin_id, connector_id, tool_name, tool_params)->Object_0 == seq![
            ("version"@, JsonView::Number(json_number(version))),
            ("plugin_id"@, JsonView::Text(plugin_id)),
            ("connector_id"@, JsonView::Text(connector_id)),
            ("tool_name"@, JsonView::Text(tool_name)),
            ("tool_params"@, tool_params),
        ],
{
}

/// The file that is named after a digest is in the directory for approvals, and
/// its name is the digest with the extension.
pub proof fn law_path_shows_the_digest(digest: Seq<char>)
    ensures
        path_named(digest) == seq!["approvals"@, "local-actors"@, digest + ".json"@],
{
}

} // verus!
