//! Permission grants that other local sessions reuse in exactly the same
//! environment: the same execution environment, working directory and set of
//! workspace roots.

use vstd::prelude::*;

use crate::digest::{uuid_of, uuid_v5_in_oid_namespace};
use crate::json::{copy_json, lemma_views, well_formed, Json, JsonView};
use crate::serde_value::{
    compact_json_text, json_number, number_from, pretty_json_text, to_compact_text, to_pretty_text,
};
use crate::storage::{is_plain_name, lemma_json_file_name_is_plain, StorageDir};
use crate::text::{
    increasing, law_increasing_list_exists, law_increasing_list_is_unique, sorted_unique, text_eq,
    texts,
};

verus! {

/// The version of the files.
pub const PERSISTED_PERMISSION_VERSION: u32 = 1;

/// Where grants are kept, if they are kept at all.
#[derive(Clone, Debug)]
pub struct PersistentPermissionStore<H> {
    pub persistence_dir: Option<StorageDir<H>>,
}

/// The environment that a turn runs in; directories by their URIs.
#[derive(Debug, PartialEq, Eq)]
pub struct TurnEnvironmentSelection {
    pub environment_id: String,
    pub cwd: String,
    pub workspace_roots: Vec<String>,
}

/// What a grant is bound to: the environment, with its workspace roots in
/// order and each of them once.
#[derive(Clone, Debug, PartialEq, Eq)]
pub struct PersistentPermissionContext {
    pub environment_id: String,
    pub cwd: String,
    pub workspace_roots: Vec<String>,
}

/// What the file of a grant says. `P` is the caller's type of permissions.
#[derive(Debug)]
pub struct PersistedPermissionGrant<P> {
    pub version: u32,
    pub context: PersistentPermissionContext,
    pub permissions: P,
}

/// A file of the directory: its extension, and the grant in it if it could be
/// read and parsed.
#[derive(Debug)]
pub struct GrantEntry<P> {
    pub extension: Option<String>,
    pub grant: Option<PersistedPermissionGrant<P>>,
}

/// A file to write in the directory of the store.
#[derive(Debug, PartialEq, Eq)]
pub struct GrantFile {
    pub file_name: String,
    pub contents: String,
}

/// What a `PersistentPermissionContext` stands for.
#[verifier::ext_equal]
pub struct ContextView {
    pub environment_id: Seq<char>,
    pub cwd: Seq<char>,
    pub workspace_roots: Seq<Seq<char>>,
}

impl View for PersistentPermissionContext {
    type V = ContextView;

    open spec fn view(&self) -> ContextView {
        ContextView {
            environment_id: self.environment_id@,
            cwd: self.cwd@,
            workspace_roots: texts(self.workspace_roots@),
        }
    }
}

/// The same execution environment and working directory, and the same
/// workspace roots, in any order and however often each is named.
pub open spec fn same_environment(
    a: TurnEnvironmentSelection,
    b: TurnEnvironmentSelection,
) -> bool {
    &&& a.environment_id@ == b.environment_id@
    &&& a.cwd@ == b.cwd@
    &&& forall|root: Seq<char>|
        texts(a.workspace_roots@).contains(root) <==> #[trigger] texts(
            b.workspace_roots@,
        ).contains(root)
}

/// `context` names the environment, its workspace roots in increasing order.
pub open spec fn is_context_of(
    context: ContextView,
    environment: TurnEnvironmentSelection,
) -> bool {
    &&& context.environment_id == environment.environment_id@
    &&& context.cwd == environment.cwd@
    &&& increasing(context.workspace_roots)
    &&& forall|root: Seq<char>| #[trigger]
        context.workspace_roots.contains(root) <==> texts(
            environment.workspace_roots@,
        ).contains(root)
}

/// The context of an environment. Each has exactly one.
pub open spec fn context_of(environment: TurnEnvironmentSelection) -> ContextView {
    choose|context: ContextView| is_context_of(context, environment)
}

/// A list of texts as JSON.
pub open spec fn text_list(list: Seq<Seq<char>>) -> JsonView {
    JsonView::Array(Seq::new(list.len(), |i: int| JsonView::Text(list[i])))
}

/// The JSON of a context.
pub open spec fn context_content(context: ContextView) -> JsonView {
    JsonView::Object(
        seq![
            ("environment_id"@, JsonView::Text(context.environment_id)),
            ("cwd"@, JsonView::Text(context.cwd)),
            ("workspace_roots"@, text_list(context.workspace_roots)),
        ],
    )
}

/// The JSON of a grant of these permissions, themselves given as JSON.
pub open spec fn grant_content(
    version: u32,
    context: ContextView,
    permissions: JsonView,
) -> JsonView {
    JsonView::Object(
        seq![
            ("version"@, JsonView::Number(json_number(version))),
            ("context"@, context_content(context)),
            ("permissions"@, permissions),
        ],
    )
}

/// The JSON of the grant of these permissions in an environment.
pub open spec fn grant_in(
    environment: TurnEnvironmentSelection,
    permissions: JsonView,
) -> JsonView {
    grant_content(PERSISTED_PERMISSION_VERSION, context_of(environment), permissions)
}

/// The name of the file for a grant: an identifier of its text.
pub open spec fn file_name_of(grant: JsonView) -> Seq<char> {
    uuid_v5_in_oid_namespace(compact_json_text(grant)) + ".json"@
}

/// The text that the file of a grant is named after is that of no grant that is
/// not the same: of other permissions, or in another environment.
pub open spec fn is_named_apart(
    environment: TurnEnvironmentSelection,
    permissions: JsonView,
) -> bool {
    forall|other: TurnEnvironmentSelection, stored: JsonView|
        well_formed(stored) && #[trigger] compact_json_text(grant_in(other, stored))
            == compact_json_text(grant_in(environment, permissions)) ==> same_environment(
            other,
            environment,
        ) && stored == permissions
}

/// The extension of the files that hold grants.
pub open spec fn names_grant_file(extension: Option<String>) -> bool {
    extension matches Some(text) && text@ == "json"@
}

/// The entry is a grant file that was read, is of the version in use and is
/// bound to this context.
pub open spec fn applies<P>(entry: GrantEntry<P>, context: ContextView) -> bool {
    &&& names_grant_file(entry.extension)
    &&& entry.grant matches Some(grant) && grant.version == PERSISTED_PERMISSION_VERSION
        && grant.context@ == context
}

/// The permissions of the entries that apply, in the order of the entries.
pub open spec fn applicable<P>(entries: Seq<GrantEntry<P>>, context: ContextView) -> Seq<P>
    decreases entries.len(),
{
    if entries.len() == 0 {
        seq![]
    } else {
        let rest = applicable(entries.drop_last(), context);
        if applies(entries.last(), context) {
            rest.push(entries.last().grant->0.permissions)
        } else {
            rest
        }
    }
}

/// `merge` may return `result` for what was merged so far and what comes next.
pub open spec fn may_merge_to<P, F: Fn(Option<&P>, Option<&P>) -> Option<P>>(
    merge: F,
    merged: Option<P>,
    next: P,
    result: Option<P>,
) -> bool {
    match merged {
        Some(permissions) => call_ensures(merge, (Some(&permissions), Some(&next)), result),
        None => call_ensures(merge, (None, Some(&next)), result),
    }
}

/// `steps` are the results of merging a list of permissions one after the
/// other, beginning with nothing.
pub open spec fn merged_in_steps<P, F: Fn(Option<&P>, Option<&P>) -> Option<P>>(
    merge: F,
    list: Seq<P>,
    steps: Seq<Option<P>>,
) -> bool {
    &&& steps.len() == list.len() + 1
    &&& steps[0] is None
    &&& forall|i: int|
        0 <= i < list.len() ==> may_merge_to(merge, steps[i], #[trigger] list[i], steps[i + 1])
}

/// An environment has one context.
proof fn lemma_context_is_unique(
    a: ContextView,
    b: ContextView,
    environment: TurnEnvironmentSelection,
)
    requires
        is_context_of(a, environment),
        is_context_of(b, environment),
    ensures
        a == b,
{
    assert forall|root: Seq<char>|
        a.workspace_roots.contains(root) <==> b.workspace_roots.contains(root) by {}
    law_increasing_list_is_unique(a.workspace_roots, b.workspace_roots);
}

proof fn lemma_field_names_are_distinct()
    ensures
        "environment_id"@ != "cwd"@,
        "environment_id"@ != "workspace_roots"@,
        "cwd"@ != "workspace_roots"@,
        "version"@ != "context"@,
        "version"@ != "permissions"@,
        "context"@ != "permissions"@,
{
    reveal_strlit("environment_id");
    reveal_strlit("cwd");
    reveal_strlit("workspace_roots");
    reveal_strlit("version");
    reveal_strlit("context");
    reveal_strlit("permissions");
    assert("environment_id"@.len() == 14);
    assert("cwd"@.len() == 3);
    assert("workspace_roots"@.len() == 15);
    assert("version"@.len() == 7 && "version"@[0] == 'v');
    assert("context"@.len() == 7 && "context"@[0] == 'c');
    assert("permissions"@.len() == 11);
}

proof fn lemma_context_content_is_well_formed(context: ContextView)
    ensures
        well_formed(context_content(context)),
{
    lemma_field_names_are_distinct();
    let roots = text_list(context.workspace_roots);
    let list = roots->Array_0;
    assert forall|i: int| 0 <= i < list.len() implies well_formed(#[trigger] list[i]) by {}
    assert(well_formed(roots));
    let content = context_content(context);
    let fields = content->Object_0;
    assert(fields.len() == 3);
    assert forall|i: int| 0 <= i < fields.len() implies well_formed((#[trigger] fields[i]).1) by {}
    assert(well_formed(content));
}

proof fn lemma_grant_content_is_well_formed(
    version: u32,
    context: ContextView,
    permissions: JsonView,
)
    requires
        well_formed(permissions),
    ensures
        well_formed(grant_content(version, context, permissions)),
{
    lemma_field_names_are_distinct();
    lemma_context_content_is_well_formed(context);
    let content = grant_content(version, context, permissions);
    let fields = content->Object_0;
    assert(fields.len() == 3);
    assert forall|i: int| 0 <= i < fields.len() implies well_formed((#[trigger] fields[i]).1) by {}
    assert(well_formed(content));
}

proof fn lemma_context_content_identifies(a: ContextView, b: ContextView)
    requires
        context_content(a) == context_content(b),
    ensures
        a == b,
{
    let x = context_content(a)->Object_0;
    let y = context_content(b)->Object_0;
    assert(x[0].1 == y[0].1);
    assert(x[1].1 == y[1].1);
    assert(x[2].1 == y[2].1);
    let xs = text_list(a.workspace_roots)->Array_0;
    let ys = text_list(b.workspace_roots)->Array_0;
    assert(xs == ys);
    assert(xs.len() == a.workspace_roots.len() && ys.len() == b.workspace_roots.len());
    assert forall|i: int| 0 <= i < xs.len() implies a.workspace_roots[i]
        == b.workspace_roots[i] by {
        assert(xs[i] == JsonView::Text(a.workspace_roots[i]));
        assert(ys[i] == JsonView::Text(b.workspace_roots[i]));
    }
    assert(a.workspace_roots =~= b.workspace_roots);
}

impl PersistentPermissionContext {
    /// The context of an environment.
    pub fn from_environment(environment: &TurnEnvironmentSelection) -> (context: Self)
        ensures
            context@ == context_of(*environment),
            is_context_of(context@, *environment),
            context.environment_id@ == environment.environment_id@,
            context.cwd@ == environment.cwd@,
            texts(context.workspace_roots@).to_set() == texts(
                environment.workspace_roots@,
            ).to_set(),
    {
        let context: PersistentPermissionContext = PersistentPermissionContext {
            environment_id: environment.environment_id.clone(),
            cwd: environment.cwd.clone(),
            workspace_roots: sorted_unique(&environment.workspace_roots),
        };
        proof {
            assert(is_context_of(context@, *environment));
            lemma_context_is_unique(context@, context_of(*environment), *environment);
            assert(texts(context.workspace_roots@).to_set() =~= texts(
                environment.workspace_roots@,
            ).to_set());
        }
        context
    }

    /// Whether two contexts are the same.
    pub fn same_as(&self, other: &Self) -> (result: bool)
        ensures
            result == (self@ == other@),
    {
        if !text_eq(self.environment_id.as_str(), other.environment_id.as_str()) || !text_eq(
            self.cwd.as_str(),
            other.cwd.as_str(),
        ) || self.workspace_roots.len() != other.workspace_roots.len() {
            assert(self@.workspace_roots == other@.workspace_roots ==> self@.workspace_roots.len()
                == other@.workspace_roots.len());
            return false;
        }
        let mut i: usize = 0;
        while i < self.workspace_roots.len()
            invariant
                self.workspace_roots@.len() == other.workspace_roots@.len(),
                i <= self.workspace_roots@.len(),
                forall|j: int|
                    0 <= j < i ==> #[trigger] self@.workspace_roots[j] == other@.workspace_roots[j],
            decreases self.workspace_roots@.len() - i,
        {
            if !text_eq(self.workspace_roots[i].as_str(), other.workspace_roots[i].as_str()) {
                assert(self@.workspace_roots[i as int] != other@.workspace_roots[i as int]);
                return false;
            }
            i = i + 1;
        }
        assert(self@.workspace_roots =~= other@.workspace_roots);
        true
    }

    /// The context as JSON, its fields in this order.
    pub fn to_json(&self) -> (json: Json)
        ensures
            json@ == context_content(self@),
            well_formed(json@),
    {
        let mut roots: Vec<Json> = Vec::new();
        let mut i: usize = 0;
        while i < self.workspace_roots.len()
            invariant
                i <= self.workspace_roots@.len(),
                roots@.len() == i,
                forall|j: int|
                    0 <= j < i ==> (#[trigger] roots@[j])@ == JsonView::Text(
                        self.workspace_roots@[j]@,
                    ),
            decreases self.workspace_roots@.len() - i,
        {
            roots.push(Json::Text(self.workspace_roots[i].clone()));
            i = i + 1;
        }
        let roots: Json = Json::Array(roots);
        proof {
            lemma_views(roots);
            assert(roots@->Array_0 =~= text_list(self@.workspace_roots)->Array_0);
        }
        let mut entries: Vec<(String, Json)> = Vec::new();
        entries.push(("environment_id".to_string(), Json::Text(self.environment_id.clone())));
        entries.push(("cwd".to_string(), Json::Text(self.cwd.clone())));
        entries.push(("workspace_roots".to_string(), roots));
        let json: Json = Json::Object(entries);
        proof {
            lemma_views(json);
            assert(json@->Object_0 =~= context_content(self@)->Object_0);
            lemma_context_content_is_well_formed(self@);
        }
        json
    }
}

impl<P> PersistedPermissionGrant<P> {
    /// The grant of these permissions in an environment.
    pub fn new(environment: &TurnEnvironmentSelection, permissions: P) -> (grant: Self)
        ensures
            grant.version == PERSISTED_PERMISSION_VERSION,
            grant.context@ == context_of(*environment),
            grant.permissions == permissions,
    {
        PersistedPermissionGrant {
            version: PERSISTED_PERMISSION_VERSION,
            context: PersistentPermissionContext::from_environment(environment),
            permissions,
        }
    }
}

impl PersistedPermissionGrant<Json> {
    /// The grant as JSON, its fields in this order.
    pub fn to_json(&self) -> (json: Json)
        requires
            well_formed(self.permissions@),
        ensures
            json@ == grant_content(self.version, self.context@, self.permissions@),
            well_formed(json@),
    {
        let mut entries: Vec<(String, Json)> = Vec::new();
        entries.push(("version".to_string(), Json::Number(number_from(self.version))));
        entries.push(("context".to_string(), self.context.to_json()));
        entries.push(("permissions".to_string(), copy_json(&self.permissions)));
        let json: Json = Json::Object(entries);
        proof {
            let content = grant_content(self.version, self.context@, self.permissions@);
            lemma_views(json);
            assert(json@->Object_0 =~= content->Object_0);
            lemma_grant_content_is_well_formed(self.version, self.context@, self.permissions@);
        }
        json
    }

    /// What is written to the file. It is the text of no other grant.
    pub fn to_text(&self) -> (text: String)
        requires
            well_formed(self.permissions@),
        ensures
            text@ == pretty_json_text(
                grant_content(self.version, self.context@, self.permissions@),
            ),
            forall|version: u32, context: ContextView, permissions: JsonView|
                well_formed(permissions) && #[trigger] pretty_json_text(
                    grant_content(version, context, permissions),
                ) == text@ ==> version == self.version && context == self.context@ && permissions
                    == self.permissions@,
    {
        let number: serde_json::Number = number_from(self.version);
        let text: String = to_pretty_text(&self.to_json());
        proof {
            let own = grant_content(self.version, self.context@, self.permissions@);
            assert forall|version: u32, context: ContextView, permissions: JsonView|
                well_formed(permissions) && #[trigger] pretty_json_text(
                    grant_content(version, context, permissions),
                ) == text@ implies version == self.version && context == self.context@
                && permissions == self.permissions@ by {
                lemma_grant_content_is_well_formed(version, context, permissions);
                let other = grant_content(version, context, permissions);
                assert(other->Object_0[0].1 == own->Object_0[0].1);
                assert(other->Object_0[0].1 == JsonView::Number(number));
                assert(other->Object_0[1].1 == own->Object_0[1].1);
                assert(other->Object_0[2].1 == own->Object_0[2].1);
                lemma_context_content_identifies(context, self.context@);
            }
        }
        text
    }
}

/// The name of the file that is named after an identifier.
pub fn grant_file_name(id: &str) -> (file_name: String)
    ensures
        file_name@ == id@ + ".json"@,
{
    id.to_string().concat(".json")
}

/// Whether a file with this extension holds a grant.
pub fn is_grant_file(extension: &Option<String>) -> (result: bool)
    ensures
        result == names_grant_file(*extension),
{
    match extension {
        Some(text) => text_eq(text.as_str(), "json"),
        None => false,
    }
}

impl<H> Default for PersistentPermissionStore<H> {
    /// A store that keeps nothing.
    fn default() -> (store: Self)
        ensures
            store.persistence_dir is None,
    {
        PersistentPermissionStore { persistence_dir: None }
    }
}

impl<H> PersistentPermissionStore<H> {
    /// A store whose grants other local sessions can reuse in exactly the same
    /// environment.
    pub fn persistent(codex_home: H) -> (store: Self)
        ensures
            store.persistence_dir matches Some(directory) && directory.home == codex_home && texts(
                directory.segments@,
            ) == seq!["approvals"@, "permissions"@],
    {
        let mut segments: Vec<String> = Vec::new();
        segments.push("approvals".to_string());
        segments.push("permissions".to_string());
        assert(texts(segments@) =~= seq!["approvals"@, "permissions"@]);
        PersistentPermissionStore {
            persistence_dir: Some(StorageDir { home: codex_home, segments }),
        }
    }

    /// The file to write, in the directory of the store, to keep a grant of
    /// these permissions in this environment. A store without a directory keeps
    /// nothing.
    pub fn grant(&self, environment: &TurnEnvironmentSelection, permissions: Json) -> (file:
        Option<GrantFile>)
        requires
            well_formed(permissions@),
        ensures
            match file {
                Some(written) => {
                    let grant = grant_in(*environment, permissions@);
                    &&& self.persistence_dir is Some
                    &&& written.file_name@ == file_name_of(grant)
                    &&& written.file_name@ == uuid_v5_in_oid_namespace(
                        compact_json_text(
                            JsonView::Object(
                                seq![
                                    ("version"@, JsonView::Number(json_number(1))),
                                    ("context"@, context_content(context_of(*environment))),
                                    ("permissions"@, permissions@),
                                ],
                            ),
                        ),
                    ) + ".json"@
                    &&& is_named_apart(*environment, permissions@)
                    &&& is_plain_name(written.file_name@)
                    &&& written.contents@ == pretty_json_text(grant)
                    &&& forall|version: u32, context: ContextView, stored: JsonView|
                        well_formed(stored) && #[trigger] pretty_json_text(
                            grant_content(version, context, stored),
                        ) == written.contents@ ==> version == PERSISTED_PERMISSION_VERSION
                            && context == context_of(*environment) && stored == permissions@
                },
                None => self.persistence_dir is None,
            },
    {
        if self.persistence_dir.is_none() {
            return None;
        }
        let grant: PersistedPermissionGrant<Json> = PersistedPermissionGrant::new(
            environment,
            permissions,
        );
        let serialized_grant: String = to_compact_text(&grant.to_json());
        let id: String = uuid_of(serialized_grant.as_str());
        proof {
            lemma_json_file_name_is_plain(id@);
            assert forall|other: TurnEnvironmentSelection, stored: JsonView|
                well_formed(stored) && #[trigger] compact_json_text(grant_in(other, stored))
                    == compact_json_text(grant_in(*environment, permissions@)) implies
                same_environment(other, *environment) && stored == permissions@ by {
                let own = grant_in(*environment, permissions@)->Object_0;
                let theirs = grant_in(other, stored)->Object_0;
                lemma_grant_content_is_well_formed(
                    PERSISTED_PERMISSION_VERSION,
                    context_of(other),
                    stored,
                );
                assert(theirs[1].1 == own[1].1);
                assert(theirs[2].1 == own[2].1);
                lemma_context_content_identifies(context_of(other), context_of(*environment));
                law_context_identifies_environment(other, *environment);
            }
        }
        Some(GrantFile { file_name: grant_file_name(id.as_str()), contents: grant.to_text() })
    }

    /// The permissions that were granted in this environment, merged one after
    /// the other; `None` if there are none. `entries` is what the directory of
    /// the store holds, `merge` merges permissions with what was merged before.
    pub fn granted<P, F: Fn(Option<&P>, Option<&P>) -> Option<P>>(
        &self,
        environment: &TurnEnvironmentSelection,
        entries: &Vec<GrantEntry<P>>,
        merge: F,
    ) -> (permissions: Option<P>)
        requires
            forall|merged: Option<&P>, next: Option<&P>| call_requires(merge, (merged, next)),
        ensures
            self.persistence_dir is None ==> permissions is None,
            self.persistence_dir is Some ==> exists|steps: Seq<Option<P>>| #[trigger]
                merged_in_steps(
                    merge,
                    applicable(entries@, context_of(*environment)),
                    steps,
                ) && permissions == steps.last(),
    {
        if self.persistence_dir.is_none() {
            return None;
        }
        let expected: PersistentPermissionContext = PersistentPermissionContext::from_environment(
            environment,
        );
        let mut permissions: Option<P> = None;
        let ghost mut steps: Seq<Option<P>> = seq![None];
        let mut i: usize = 0;
        assert(entries@.take(0) =~= seq![]);
        while i < entries.len()
            invariant
                forall|merged: Option<&P>, next: Option<&P>| call_requires(merge, (merged, next)),
                i <= entries@.len(),
                merged_in_steps(merge, applicable(entries@.take(i as int), expected@), steps),
                permissions == steps.last(),
            decreases entries@.len() - i,
        {
            let entry: &GrantEntry<P> = &entries[i];
            let ghost list = applicable(entries@.take(i as int), expected@);
            assert(entries@.take(i + 1).drop_last() =~= entries@.take(i as int));
            assert(entries@.take(i + 1).last() == *entry);
            if is_grant_file(&entry.extension) {
                match &entry.grant {
                    Some(grant) => {
                        if grant.version == PERSISTED_PERMISSION_VERSION && grant.context.same_as(
                            &expected,
                        ) {
                            let merged: Option<P> = merge(
                                permissions.as_ref(),
                                Some(&grant.permissions),
                            );
                            proof {
                                let longer = list.push(grant.permissions);
                                let more = steps.push(merged);
                                assert forall|j: int| 0 <= j < longer.len() implies may_merge_to(
                                    merge,
                                    more[j],
                                    #[trigger] longer[j],
                                    more[j + 1],
                                ) by {
                                    if j < list.len() {
                                        assert(longer[j] == list[j]);
                                        assert(more[j] == steps[j]);
                                        assert(more[j + 1] == steps[j + 1]);
                                    }
                                }
                                steps = more;
                            }
                            permissions = merged;
                        }
                    },
                    None => {},
                }
            }
            i = i + 1;
        }
        assert(entries@.take(entries@.len() as int) =~= entries@);
        permissions
    }
}

proof fn lemma_context_exists(environment: TurnEnvironmentSelection)
    ensures
        is_context_of(context_of(environment), environment),
{
    let roots = law_increasing_list_exists(texts(environment.workspace_roots@));
    let context = ContextView {
        environment_id: environment.environment_id@,
        cwd: environment.cwd@,
        workspace_roots: roots,
    };
    assert(is_context_of(context, environment));
}

/// Two environments have the same context if and only if they are the same:
/// the order of the workspace roots and repetitions among them make no
/// difference, and anything else does.
pub proof fn law_context_identifies_environment(
    a: TurnEnvironmentSelection,
    b: TurnEnvironmentSelection,
)
    ensures
        context_of(a) == context_of(b) <==> same_environment(a, b),
{
    lemma_context_exists(a);
    lemma_context_exists(b);
    let x = context_of(a);
    let y = context_of(b);
    if x == y {
        assert forall|root: Seq<char>|
            texts(a.workspace_roots@).contains(root) <==> #[trigger] texts(
                b.workspace_roots@,
            ).contains(root) by {
            assert(x.workspace_roots.contains(root) <==> texts(a.workspace_roots@).contains(root));
            assert(y.workspace_roots.contains(root) <==> texts(b.workspace_roots@).contains(root));
        }
    }
    if same_environment(a, b) {
        assert(is_context_of(x, b)) by {
            assert forall|root: Seq<char>| #[trigger]
                x.workspace_roots.contains(root) <==> texts(
                    b.workspace_roots@,
                ).contains(root) by {
                assert(texts(a.workspace_roots@).contains(root) <==> texts(
                    b.workspace_roots@,
                ).contains(root));
            }
        }
        lemma_context_is_unique(x, y, b);
    }
}

/// A grant that was made in one environment applies in another if and only if
/// the two are the same.
pub proof fn law_grant_is_bound_to_environment<P>(
    entry: GrantEntry<P>,
    made_in: TurnEnvironmentSelection,
    asked_in: TurnEnvironmentSelection,
)
    requires
        names_grant_file(entry.extension),
        entry.grant matches Some(grant) && grant.version == PERSISTED_PERMISSION_VERSION
            && grant.context@ == context_of(made_in),
    ensures
        applies(entry, context_of(asked_in)) <==> same_environment(made_in, asked_in),
{
    law_context_identifies_environment(made_in, asked_in);
}

/// A grant that was kept in one environment is among those that are merged in
/// another if the two are the same. Where it is the only one, it is merged
/// alone, and nothing is merged in any other environment.
pub proof fn law_kept_grant_is_found_again<P>(
    entries: Seq<GrantEntry<P>>,
    i: int,
    made_in: TurnEnvironmentSelection,
    asked_in: TurnEnvironmentSelection,
    permissions: P,
)
    requires
        0 <= i < entries.len(),
        names_grant_file(entries[i].extension),
        entries[i].grant matches Some(grant) && grant.version == PERSISTED_PERMISSION_VERSION
            && grant.context@ == context_of(made_in) && grant.permissions == permissions,
    ensures
        same_environment(made_in, asked_in) ==> applicable(
            entries,
            context_of(asked_in),
        ).contains(permissions),
        entries.len() == 1 && same_environment(made_in, asked_in) ==> applicable(
            entries,
            context_of(asked_in),
        ) == seq![permissions],
        entries.len() == 1 && !same_environment(made_in, asked_in) ==> applicable(
            entries,
            context_of(asked_in),
        ) == Seq::<P>::empty(),
{
    law_grant_is_bound_to_environment(entries[i], made_in, asked_in);
    law_applicable_is_exact(entries, context_of(asked_in), permissions);
    if same_environment(made_in, asked_in) {
        assert(applies(entries[i], context_of(asked_in)));
    }
    assert(entries.drop_last().len() == entries.len() - 1);
    reveal_with_fuel(applicable, 2);
}

/// The same permissions granted in the same environment go to the same file
/// with the same contents: to grant again changes nothing.
pub proof fn law_same_grant_has_same_file(
    a: TurnEnvironmentSelection,
    b: TurnEnvironmentSelection,
    permissions: JsonView,
)
    requires
        same_environment(a, b),
    ensures
        grant_in(a, permissions) == grant_in(b, permissions),
        file_name_of(grant_in(a, permissions)) == file_name_of(grant_in(b, permissions)),
        pretty_json_text(grant_in(a, permissions)) == pretty_json_text(grant_in(b, permissions)),
{
    law_context_identifies_environment(a, b);
}

/// The permissions of every entry that applies are among those that are
/// merged, and nothing else is.
pub proof fn law_applicable_is_exact<P>(
    entries: Seq<GrantEntry<P>>,
    context: ContextView,
    permissions: P,
)
    ensures
        applicable(entries, context).contains(permissions) <==> exists|i: int|
            0 <= i < entries.len() && applies(#[trigger] entries[i], context)
                && entries[i].grant->0.permissions == permissions,
    decreases entries.len(),
{
    if entries.len() > 0 {
        let front = entries.drop_last();
        let last = entries.last();
        law_applicable_is_exact(front, context, permissions);
        let rest = applicable(front, context);
        let all = applicable(entries, context);
        if all.contains(permissions) {
            let p = choose|p: int| 0 <= p < all.len() && all[p] == permissions;
            if p < rest.len() {
                assert(rest[p] == permissions);
                let i = choose|i: int|
                    0 <= i < front.len() && applies(#[trigger] front[i], context)
                        && front[i].grant->0.permissions == permissions;
                assert(applies(entries[i], context));
            } else {
                assert(applies(entries[entries.len() - 1], context));
            }
        }
        if exists|i: int|
            0 <= i < entries.len() && applies(#[trigger] entries[i], context)
                && entries[i].grant->0.permissions == permissions {
            let i = choose|i: int|
                0 <= i < entries.len() && applies(#[trigger] entries[i], context)
                    && entries[i].grant->0.permissions == permissions;
            if i < front.len() {
                assert(applies(front[i], context));
                let p = choose|p: int| 0 <= p < rest.len() && rest[p] == permissions;
                assert(all[p] == permissions);
            } else {
                assert(all[rest.len() as int] == permissions);
            }
        }
    }
}

/// An entry that does not apply makes no difference, wherever in the directory
/// it is listed.
pub proof fn law_other_entries_change_nothing<P>(
    entries: Seq<GrantEntry<P>>,
    k: int,
    entry: GrantEntry<P>,
    context: ContextView,
)
    requires
        0 <= k <= entries.len(),
        !applies(entry, context),
    ensures
        applicable(entries.insert(k, entry), context) == applicable(entries, context),
    decreases entries.len(),
{
    let more = entries.insert(k, entry);
    if k == entries.len() {
        assert(more.drop_last() =~= entries);
        assert(more.last() == entry);
    } else {
        assert(more.drop_last() =~= entries.drop_last().insert(k, entry));
        assert(more.last() == entries.last());
        law_other_entries_change_nothing(entries.drop_last(), k, entry, context);
    }
}

/// Where no entry applies, nothing is granted; where one does, what is granted
/// is that grant merged with nothing.
pub proof fn law_merging_begins_with_nothing<P, F: Fn(Option<&P>, Option<&P>) -> Option<P>>(
    merge: F,
    list: Seq<P>,
    steps: Seq<Option<P>>,
)
    requires
        merged_in_steps(merge, list, steps),
    ensures
        list.len() == 0 ==> steps.last() is None,
        list.len() == 1 ==> may_merge_to(merge, None, list[0], steps.last()),
{
    if list.len() == 1 {
        let first = list[0];
        assert(steps[0] is None);
    }
}

/// Where merging is a function of what was merged and what comes next, what is
/// granted is that function folded over the grants that apply, in the order of
/// the entries.
pub proof fn law_merging_is_a_fold<P, F: Fn(Option<&P>, Option<&P>) -> Option<P>>(
    merge: F,
    function: spec_fn(Option<P>, P) -> Option<P>,
    list: Seq<P>,
    steps: Seq<Option<P>>,
)
    requires
        merged_in_steps(merge, list, steps),
        forall|merged: Option<P>, next: P, result: Option<P>| #[trigger]
            may_merge_to(merge, merged, next, result) ==> result == function(merged, next),
    ensures
        steps.last() == list.fold_left(None, function),
    decreases list.len(),
{
    if list.len() > 0 {
        let front = list.drop_last();
        let front_steps = steps.drop_last();
        assert forall|i: int| 0 <= i < front.len() implies may_merge_to(
            merge,
            front_steps[i],
            #[trigger] front[i],
            front_steps[i + 1],
        ) by {
            assert(front[i] == list[i]);
            assert(front_steps[i] == steps[i]);
            assert(front_steps[i + 1] == steps[i + 1]);
        }
        law_merging_is_a_fold(merge, function, front, front_steps);
        let n = list.len() - 1;
        assert(steps[n] == front_steps.last());
        let next = list[n];
        assert(steps[n + 1] == function(steps[n], next));
    }
}

/// Permissions that merging passes over, such as empty ones, give nothing:
/// wherever they come among the others, what is granted is the same without
/// them.
pub proof fn law_empty_permissions_grant_nothing<P>(
    function: spec_fn(Option<P>, P) -> Option<P>,
    list: Seq<P>,
    k: int,
    empty: P,
)
    requires
        0 <= k <= list.len(),
        forall|merged: Option<P>| #[trigger] function(merged, empty) == merged,
    ensures
        list.insert(k, empty).fold_left(None, function) == list.fold_left(None, function),
    decreases list.len(),
{
    let more = list.insert(k, empty);
    if k == list.len() {
        assert(more.drop_last() =~= list);
        assert(more.last() == empty);
    } else {
        assert(more.drop_last() =~= list.drop_last().insert(k, empty));
        assert(more.last() == list.last());
        law_empty_permissions_grant_nothing(function, list.drop_last(), k, empty);
    }
}

/// A file with a grant of such permissions gives nothing either, wherever in
/// the directory it is listed and whether or not it applies.
pub proof fn law_empty_grant_changes_nothing<P>(
    function: spec_fn(Option<P>, P) -> Option<P>,
    entries: Seq<GrantEntry<P>>,
    k: int,
    entry: GrantEntry<P>,
    context: ContextView,
)
    requires
        0 <= k <= entries.len(),
        entry.grant matches Some(grant) && forall|merged: Option<P>| #[trigger]
            function(merged, grant.permissions) == merged,
    ensures
        applicable(entries.insert(k, entry), context).fold_left(None, function) == applicable(
            entries,
            context,
        ).fold_left(None, function),
{
    if applies(entry, context) {
        let at = lemma_applicable_of_insert(entries, k, entry, context);
        law_empty_permissions_grant_nothing(
            function,
            applicable(entries, context),
            at,
            entry.grant->0.permissions,
        );
    } else {
        law_other_entries_change_nothing(entries, k, entry, context);
    }
}

/// The permissions of an entry that applies come at one place among those of
/// the others.
proof fn lemma_applicable_of_insert<P>(
    entries: Seq<GrantEntry<P>>,
    k: int,
    entry: GrantEntry<P>,
    context: ContextView,
) -> (at: int)
    requires
        0 <= k <= entries.len(),
        applies(entry, context),
    ensures
        0 <= at <= applicable(entries, context).len(),
        applicable(entries.insert(k, entry), context) == applicable(entries, context).insert(
            at,
            entry.grant->0.permissions,
        ),
    decreases entries.len(),
{
    let more = entries.insert(k, entry);
    let list = applicable(entries, context);
    let permissions = entry.grant->0.permissions;
    if k == entries.len() {
        assert(more.drop_last() =~= entries);
        assert(more.last() == entry);
        assert(list.push(permissions) =~= list.insert(list.len() as int, permissions));
        list.len() as int
    } else {
        let front = entries.drop_last();
        assert(more.drop_last() =~= front.insert(k, entry));
        assert(more.last() == entries.last());
        let at = lemma_applicable_of_insert(front, k, entry, context);
        assert(applicable(more, context) =~= list.insert(at, permissions));
        at
    }
}

/// The file of a grant is named after the whole of it: two grants share a file
/// only if their texts have the same identifier, whatever the permissions.
pub proof fn law_grants_share_a_file_only_with_the_identifier(grant: JsonView, other: JsonView)
    ensures
        file_name_of(grant) == uuid_v5_in_oid_namespace(compact_json_text(grant)) + ".json"@,
        file_name_of(grant) == file_name_of(other) <==> uuid_v5_in_oid_namespace(
            compact_json_text(grant),
        ) == uuid_v5_in_oid_namespace(compact_json_text(other)),
{
    let id = uuid_v5_in_oid_namespace(compact_json_text(grant));
    let other_id = uuid_v5_in_oid_namespace(compact_json_text(other));
    if file_name_of(grant) == file_name_of(other) {
        let n = id.len();
        assert(file_name_of(grant).len() == file_name_of(other).len());
        assert(file_name_of(grant).take(n as int) =~= id);
        assert(file_name_of(other).take(n as int) =~= other_id);
    }
}

/// Of two grants in the same environment with different permissions, the texts
/// that their files are named after are those of different objects, and so are
/// those of two grants in different environments.
pub proof fn law_different_grants_are_named_after_different_objects(
    a: TurnEnvironmentSelection,
    permissions: JsonView,
    b: TurnEnvironmentSelection,
    others: JsonView,
)
    ensures
        grant_in(a, permissions) == grant_in(b, others) <==> same_environment(a, b) && permissions
            == others,
{
    let x = grant_in(a, permissions)->Object_0;
    let y = grant_in(b, others)->Object_0;
    law_context_identifies_environment(a, b);
    if grant_in(a, permissions) == grant_in(b, others) {
        assert(x[1].1 == y[1].1);
        assert(x[2].1 == y[2].1);
        lemma_context_content_identifies(context_of(a), context_of(b));
    }
}

/// A grant says its version, the environment it is bound to and its
/// permissions, in this order, and nothing else.
pub proof fn law_grant_says_all(environment: TurnEnvironmentSelection, permissions: JsonView)
    ensures
        grant_in(environment, permissions) == JsonView::Object(
            seq![
                ("version"@, JsonView::Number(json_number(1))),
                (
                    "context"@,
                    JsonView::Object(
                        seq![
                            ("environment_id"@, JsonView::Text(environment.environment_id@)),
                            ("cwd"@, JsonView::Text(environment.cwd@)),
                            (
                                "workspace_roots"@,
                                JsonView::Array(
                                    context_of(environment).workspace_roots.map_values(
                                        |root: Seq<char>| JsonView::Text(root),
                                    ),
                                ),
                            ),
                        ],
                    ),
                ),
                ("permissions"@, permissions),
            ],
        ),
{
    lemma_context_exists(environment);
    let roots = context_of(environment).workspace_roots;
    assert(text_list(roots)->Array_0 =~= roots.map_values(
        |root: Seq<char>| JsonView::Text(root),
    ));
}

/// The text of a grant of any version and context tells all of them.
pub proof fn law_grant_content_says_all(version: u32, context: ContextView, permissions: JsonView)
    ensures
        grant_content(version, context, permissions) is Object,
        grant_content(version, context, permissions)->Object_0 == seq![
            ("version"@, JsonView::Number(json_number(version))),
            (
                "context"@,
                JsonView::Object(
                    seq![
                        ("environment_id"@, JsonView::Text(context.environment_id)),
                        ("cwd"@, JsonView::Text(context.cwd)),
                        (
                            "workspace_roots"@,
                            JsonView::Array(
                                context.workspace_roots.map_values(
                                    |root: Seq<char>| JsonView::Text(root),
                                ),
                            ),
                        ),
                    ],
                ),
            ),
            ("permissions"@, permissions),
        ],
{
    let roots = context.workspace_roots;
    assert(text_list(roots)->Array_0 =~= roots.map_values(
        |root: Seq<char>| JsonView::Text(root),
    ));
}

/// The context of an environment names it, with the set of its workspace roots
/// in increasing order.
pub proof fn law_context_names_its_environment(environment: TurnEnvironmentSelection)
    ensures
        context_of(environment).environment_id == environment.environment_id@,
        context_of(environment).cwd == environment.cwd@,
        increasing(context_of(environment).workspace_roots),
        context_of(environment).workspace_roots.to_set() == texts(
            environment.workspace_roots@,
        ).to_set(),
{
    lemma_context_exists(environment);
    assert(context_of(environment).workspace_roots.to_set() =~= texts(
        environment.workspace_roots@,
    ).to_set());
}

/// Two environments are the same if and only if they have the same identifier,
/// working directory and set of workspace roots.
pub proof fn law_every_part_of_an_environment_counts(
    a: TurnEnvironmentSelection,
    b: TurnEnvironmentSelection,
)
    ensures
        same_environment(a, b) <==> a.environment_id@ == b.environment_id@ && a.cwd@ == b.cwd@
            && texts(a.workspace_roots@).to_set() == texts(b.workspace_roots@).to_set(),
{
    let x = texts(a.workspace_roots@);
    let y = texts(b.workspace_roots@);
    if same_environment(a, b) {
        assert(x.to_set() =~= y.to_set());
    }
    if x.to_set() == y.to_set() {
        assert forall|root: Seq<char>| x.contains(root) <==> #[trigger] y.contains(root) by {
            assert(x.to_set().contains(root) <==> y.to_set().contains(root));
        }
    }
}

/// A context stands for its identifier, working directory and workspace roots.
pub proof fn law_context_view_shows_all(context: PersistentPermissionContext)
    ensures
        context@.environment_id == context.environment_id@,
        context@.cwd == context.cwd@,
        context@.workspace_roots == texts(context.workspace_roots@),
{
}

/// A file counts if its extension is "json", it could be read, its version is
/// the one in use and it is bound to this context; any one of these missing,
/// it does not.
pub proof fn law_every_condition_on_an_entry_counts<P>(entry: GrantEntry<P>, context: ContextView)
    ensures
        entry.extension is None ==> !applies(entry, context),
        entry.extension is Some && entry.extension->0@ != "json"@ ==> !applies(entry, context),
        entry.grant is None ==> !applies(entry, context),
        entry.grant is Some && entry.grant->0.version != 1 ==> !applies(entry, context),
        entry.grant is Some && entry.grant->0.context@ != context ==> !applies(entry, context),
        entry.extension is Some && entry.extension->0@ == "json"@ && entry.grant is Some
            && entry.grant->0.version == 1 && entry.grant->0.context@ == context ==> applies(
            entry,
            context,
        ),
{
}

/// A file may hold a grant if and only if its extension is "json".
pub proof fn law_grant_files_have_one_extension(extension: Option<String>)
    ensures
        names_grant_file(extension) <==> extension is Some && extension->0@ == "json"@,
{
}

/// The permissions of two directories taken together are those of the first,
/// then those of the second.
pub proof fn law_applicable_of_both<P>(
    first: Seq<GrantEntry<P>>,
    second: Seq<GrantEntry<P>>,
    context: ContextView,
)
    ensures
        applicable(first + second, context) == applicable(first, context) + applicable(
            second,
            context,
        ),
    decreases second.len(),
{
    let all = first + second;
    if second.len() == 0 {
        assert(all =~= first);
        assert(applicable(first, context) + applicable(second, context) =~= applicable(
            first,
            context,
        ));
    } else {
        assert(all.drop_last() =~= first + second.drop_last());
        assert(all.last() == second.last());
        law_applicable_of_both(first, second.drop_last(), context);
        assert(applicable(all, context) =~= applicable(first, context) + applicable(
            second,
            context,
        ));
    }
}

/// A directory with a single file gives the permissions in it, if it counts.
pub proof fn law_applicable_of_one<P>(entry: GrantEntry<P>, context: ContextView)
    ensures
        applies(entry, context) ==> applicable(seq![entry], context) == seq![
            entry.grant->0.permissions,
        ],
        !applies(entry, context) ==> applicable(seq![entry], context) == Seq::<P>::empty(),
        applicable(Seq::<GrantEntry<P>>::empty(), context) == Seq::<P>::empty(),
{
    let one = seq![entry];
    assert(one.drop_last() =~= Seq::<GrantEntry<P>>::empty());
    assert(one.last() == entry);
    assert(applicable(one.drop_last(), context) =~= Seq::<P>::empty());
}

/// Two grants that were kept in the same environment are both merged there, in
/// the order in which they are listed.
pub proof fn law_grants_of_an_environment_add_up<P>(
    first: GrantEntry<P>,
    second: GrantEntry<P>,
    context: ContextView,
)
    requires
        applies(first, context),
        applies(second, context),
    ensures
        applicable(seq![first, second], context) == seq![
            first.grant->0.permissions,
            second.grant->0.permissions,
        ],
{
    law_applicable_of_one(first, context);
    law_applicable_of_one(second, context);
    law_applicable_of_both(seq![first], seq![second], context);
    assert(seq![first] + seq![second] =~= seq![first, second]);
    assert(seq![first.grant->0.permissions] + seq![second.grant->0.permissions] =~= seq![
        first.grant->0.permissions,
        second.grant->0.permissions,
    ]);
}

/// Each call of `merge` gets what was merged so far and then the next
/// permissions: where such calls compute a function, what is granted is its
/// fold.
pub proof fn law_granted_is_the_fold_of_calls<P, F: Fn(Option<&P>, Option<&P>) -> Option<P>>(
    merge: F,
    function: spec_fn(Option<P>, P) -> Option<P>,
    list: Seq<P>,
    steps: Seq<Option<P>>,
)
    requires
        merged_in_steps(merge, list, steps),
        forall|merged: P, next: P, result: Option<P>| #[trigger]
            call_ensures(merge, (Some(&merged), Some(&next)), result) ==> result == function(
                Some(merged),
                next,
            ),
        forall|next: P, result: Option<P>| #[trigger]
            call_ensures(merge, (None, Some(&next)), result) ==> result == function(None, next),
    ensures
        steps.last() == list.fold_left(None, function),
{
    assert forall|merged: Option<P>, next: P, result: Option<P>| #[trigger]
        may_merge_to(merge, merged, next, result) implies result == function(merged, next) by {}
    law_merging_is_a_fold(merge, function, list, steps);
}

/// A step of merging is a call of `merge` with what was merged so far first.
pub proof fn law_merging_is_calling<P, F: Fn(Option<&P>, Option<&P>) -> Option<P>>(
    merge: F,
    merged: P,
    next: P,
    result: Option<P>,
)
    ensures
        may_merge_to(merge, Some(merged), next, result) <==> call_ensures(
            merge,
            (Some(&merged), Some(&next)),
            result,
        ),
        may_merge_to(merge, None, next, result) <==> call_ensures(
            merge,
            (None, Some(&next)),
            result,
        ),
{
}

} // verus!
