//! The configuration that local actors run under: which plugin a server comes
//! from, and what the administrator demands.

use vstd::prelude::*;

use crate::text::text_eq;

verus! {

/// What is demanded of one origin, or of those without a policy of their own.
#[derive(Clone, Copy, Debug, PartialEq, Eq)]
pub struct BrowserUseOriginPolicy {
    pub persistent_approval: Option<bool>,
}

/// What is demanded of browser use. Origins are listed with their policies.
#[derive(Debug, PartialEq, Eq)]
pub struct BrowserUseRequirementsToml {
    pub allow_global_persistent_approval: Option<bool>,
    pub default_origin_policy: Option<BrowserUseOriginPolicy>,
    pub origins: Option<Vec<(String, BrowserUseOriginPolicy)>>,
}

/// What is demanded of computer use.
#[derive(Clone, Copy, Debug, PartialEq, Eq)]
pub struct ComputerUseRequirementsToml {
    pub allow_persistent_approval: Option<bool>,
}

/// What the administrator demands.
#[derive(Debug, PartialEq, Eq)]
pub struct ConfigRequirementsToml {
    pub browser_use: Option<BrowserUseRequirementsToml>,
    pub computer_use: Option<ComputerUseRequirementsToml>,
}

/// The plugin that a server was registered by.
#[derive(Debug, PartialEq, Eq)]
pub struct McpPluginAttribution {
    pub plugin_id: String,
}

/// Where a server was registered from.
#[derive(Debug, PartialEq, Eq)]
pub enum McpServerSource {
    Plugin(McpPluginAttribution),
    SelectedPlugin(McpPluginAttribution),
    Config,
    Compatibility,
    Extension,
}

/// The servers that are known, by name. Where a name comes twice, the first
/// one counts.
#[derive(Debug, PartialEq, Eq)]
pub struct ResolvedMcpCatalog {
    pub servers: Vec<(String, McpServerSource)>,
}

/// The configuration. `H` is how the caller names its home directory.
#[derive(Debug, PartialEq, Eq)]
pub struct McpConfig<H> {
    pub codex_home: H,
    pub mcp_server_catalog: ResolvedMcpCatalog,
    pub requirements_toml: ConfigRequirementsToml,
}

/// The bundled browser plugin.
pub const BROWSER_PLUGIN: &'static str = "browser@openai-bundled";

/// The bundled plugin for Chrome.
pub const CHROME_PLUGIN: &'static str = "chrome@openai-bundled";

/// The bundled plugin for computer use.
pub const COMPUTER_USE_PLUGIN: &'static str = "computer-use@openai-bundled";

/// The first server with this name is at `i`.
pub open spec fn is_server_at(
    catalog: ResolvedMcpCatalog,
    server_name: Seq<char>,
    i: int,
) -> bool {
    &&& 0 <= i < catalog.servers@.len()
    &&& catalog.servers@[i].0@ == server_name
    &&& forall|j: int| 0 <= j < i ==> (#[trigger] catalog.servers@[j]).0@ != server_name
}

/// Where the server with this name comes from, if there is one.
pub open spec fn source_of(catalog: ResolvedMcpCatalog, server_name: Seq<char>) -> Option<
    McpServerSource,
> {
    if exists|i: int| is_server_at(catalog, server_name, i) {
        Some(catalog.servers@[choose|i: int| is_server_at(catalog, server_name, i)].1)
    } else {
        None
    }
}

/// The plugin that a source names, if it names one.
pub open spec fn plugin_of(source: McpServerSource) -> Option<Seq<char>> {
    match source {
        McpServerSource::Plugin(attribution) => Some(attribution.plugin_id@),
        McpServerSource::SelectedPlugin(attribution) => Some(attribution.plugin_id@),
        _ => None,
    }
}

/// Nothing is said, or it is not a no.
pub open spec fn not_denied(setting: Option<bool>) -> bool {
    setting != Some(false)
}

/// No setting for browser use denies that approvals are kept: neither the
/// global one, nor the default for origins, nor that of any origin.
pub open spec fn browser_use_allows(requirements: BrowserUseRequirementsToml) -> bool {
    &&& not_denied(requirements.allow_global_persistent_approval)
    &&& requirements.default_origin_policy matches Some(policy) ==> not_denied(
        policy.persistent_approval,
    )
    &&& requirements.origins matches Some(origins) ==> forall|i: int|
        0 <= i < origins@.len() ==> not_denied((#[trigger] origins@[i]).1.persistent_approval)
}

/// The plugin is one that is trusted to keep approvals, and the administrator
/// does not deny it.
pub open spec fn persistence_allowed(
    requirements: ConfigRequirementsToml,
    plugin_id: Seq<char>,
) -> bool {
    if plugin_id == BROWSER_PLUGIN@ || plugin_id == CHROME_PLUGIN@ {
        requirements.browser_use matches Some(browser) ==> browser_use_allows(browser)
    } else if plugin_id == COMPUTER_USE_PLUGIN@ {
        requirements.computer_use matches Some(computer) ==> not_denied(
            computer.allow_persistent_approval,
        )
    } else {
        false
    }
}

impl ResolvedMcpCatalog {
    /// Where the server with this name comes from, if there is one.
    pub fn server(&self, server_name: &str) -> (source: Option<&McpServerSource>)
        ensures
            match source {
                Some(found) => source_of(*self, server_name@) == Some(*found),
                None => source_of(*self, server_name@) is None,
            },
    {
        let mut i: usize = 0;
        while i < self.servers.len()
            invariant
                i <= self.servers@.len(),
                forall|j: int| 0 <= j < i ==> (#[trigger] self.servers@[j]).0@ != server_name@,
            decreases self.servers@.len() - i,
        {
            if text_eq(self.servers[i].0.as_str(), server_name) {
                proof {
                    assert(is_server_at(*self, server_name@, i as int));
                    let p = choose|p: int| is_server_at(*self, server_name@, p);
                    assert(is_server_at(*self, server_name@, p));
                    assert(p == i);
                }
                return Some(&self.servers[i].1);
            }
            i = i + 1;
        }
        None
    }
}

fn is_not_denied(setting: Option<bool>) -> (result: bool)
    ensures
        result == not_denied(setting),
{
    match setting {
        Some(value) => value,
        None => true,
    }
}

fn browser_use_is_allowed(requirements: &BrowserUseRequirementsToml) -> (result: bool)
    ensures
        result == browser_use_allows(*requirements),
{
    if !is_not_denied(requirements.allow_global_persistent_approval) {
        return false;
    }
    match &requirements.default_origin_policy {
        Some(policy) => {
            if !is_not_denied(policy.persistent_approval) {
                return false;
            }
        },
        None => {},
    }
    match &requirements.origins {
        Some(origins) => {
            let mut i: usize = 0;
            while i < origins.len()
                invariant
                    requirements.origins == Some(*origins),
                    i <= origins@.len(),
                    forall|j: int|
                        0 <= j < i ==> not_denied((#[trigger] origins@[j]).1.persistent_approval),
                decreases origins@.len() - i,
            {
                if !is_not_denied(origins[i].1.persistent_approval) {
                    assert(!not_denied(origins@[i as int].1.persistent_approval));
                    return false;
                }
                i = i + 1;
            }
            true
        },
        None => true,
    }
}

/// Whether approvals of what a plugin does may be kept: only for the bundled
/// plugins for browser and computer use, and only where the administrator does
/// not deny it.
pub fn managed_requirements_allow_persistence<H>(
    config: &McpConfig<H>,
    plugin_id: &str,
) -> (result: bool)
    ensures
        result == persistence_allowed(config.requirements_toml, plugin_id@),
{
    if text_eq(plugin_id, BROWSER_PLUGIN) || text_eq(plugin_id, CHROME_PLUGIN) {
        match &config.requirements_toml.browser_use {
            Some(browser) => browser_use_is_allowed(browser),
            None => true,
        }
    } else if text_eq(plugin_id, COMPUTER_USE_PLUGIN) {
        match &config.requirements_toml.computer_use {
            Some(computer) => is_not_denied(computer.allow_persistent_approval),
            None => true,
        }
    } else {
        false
    }
}

/// One denial among the settings for browser use is enough, whatever the
/// others say: no approval is then kept for either browser plugin.
pub proof fn law_browser_denial_is_final(
    requirements: ConfigRequirementsToml,
    browser: BrowserUseRequirementsToml,
)
    requires
        requirements.browser_use == Some(browser),
        ({
            ||| browser.allow_global_persistent_approval == Some(false)
            ||| browser.default_origin_policy matches Some(policy) && policy.persistent_approval
                == Some(false)
            ||| browser.origins matches Some(origins) && exists|i: int|
                0 <= i < origins@.len() && (#[trigger] origins@[i]).1.persistent_approval == Some(
                    false,
                )
        }),
    ensures
        !persistence_allowed(requirements, BROWSER_PLUGIN@),
        !persistence_allowed(requirements, CHROME_PLUGIN@),
{
    if browser.origins is Some {
        let origins = browser.origins->0;
        if browser_use_allows(browser) {
            assert forall|i: int| 0 <= i < origins@.len() implies (
            #[trigger] origins@[i]).1.persistent_approval != Some(false) by {
                assert(not_denied(origins@[i].1.persistent_approval));
            }
        }
    }
}

/// A denial for computer use is final too.
pub proof fn law_computer_denial_is_final(
    requirements: ConfigRequirementsToml,
    computer: ComputerUseRequirementsToml,
)
    requires
        requirements.computer_use == Some(computer),
        computer.allow_persistent_approval == Some(false),
    ensures
        !persistence_allowed(requirements, COMPUTER_USE_PLUGIN@),
{
    reveal_strlit("browser@openai-bundled");
    reveal_strlit("chrome@openai-bundled");
    reveal_strlit("computer-use@openai-bundled");
    assert(COMPUTER_USE_PLUGIN@.len() == 27);
    assert(BROWSER_PLUGIN@.len() == 22);
    assert(CHROME_PLUGIN@.len() == 21);
}

/// Approvals of what any other plugin does are never kept.
pub proof fn law_other_plugins_are_not_trusted(
    requirements: ConfigRequirementsToml,
    plugin_id: Seq<char>,
)
    requires
        plugin_id != BROWSER_PLUGIN@,
        plugin_id != CHROME_PLUGIN@,
        plugin_id != COMPUTER_USE_PLUGIN@,
    ensures
        !persistence_allowed(requirements, plugin_id),
{
}

/// What nobody denies is allowed: a bundled browser plugin may keep approvals
/// where no setting for browser use is a no, whether it is a yes or absent.
pub proof fn law_browser_use_is_allowed_unless_denied(
    requirements: ConfigRequirementsToml,
    plugin_id: Seq<char>,
)
    requires
        plugin_id == "browser@openai-bundled"@ || plugin_id == "chrome@openai-bundled"@,
        requirements.browser_use is Some ==> ({
            let browser = requirements.browser_use->0;
            &&& browser.allow_global_persistent_approval != Some(false)
            &&& browser.default_origin_policy is Some
                ==> browser.default_origin_policy->0.persistent_approval != Some(false)
            &&& browser.origins is Some ==> forall|i: int|
                0 <= i < browser.origins->0@.len() ==> (
                #[trigger] browser.origins->0@[i]).1.persistent_approval != Some(false)
        }),
    ensures
        persistence_allowed(requirements, plugin_id),
{
}

/// The plugin for computer use may keep approvals unless its own setting is a
/// no; what is demanded of browser use does not matter.
pub proof fn law_computer_use_is_allowed_unless_denied(requirements: ConfigRequirementsToml)
    ensures
        persistence_allowed(requirements, "computer-use@openai-bundled"@) <==> !(
        requirements.computer_use is Some
            && requirements.computer_use->0.allow_persistent_approval == Some(false)),
{
    reveal_strlit("browser@openai-bundled");
    reveal_strlit("chrome@openai-bundled");
    reveal_strlit("computer-use@openai-bundled");
    assert("computer-use@openai-bundled"@.len() == 27);
    assert("browser@openai-bundled"@.len() == 22);
    assert("chrome@openai-bundled"@.len() == 21);
}

/// The two browser plugins are treated alike, and only what is demanded of
/// browser use matters to them.
pub proof fn law_browser_plugins_are_treated_alike(
    requirements: ConfigRequirementsToml,
    other: ConfigRequirementsToml,
)
    requires
        requirements.browser_use == other.browser_use,
    ensures
        persistence_allowed(requirements, "browser@openai-bundled"@) == persistence_allowed(
            other,
            "chrome@openai-bundled"@,
        ),
{
}

/// Besides the three bundled plugins none may keep approvals.
pub proof fn law_three_plugins_are_trusted(
    requirements: ConfigRequirementsToml,
    plugin_id: Seq<char>,
)
    requires
        persistence_allowed(requirements, plugin_id),
    ensures
        plugin_id == "browser@openai-bundled"@ || plugin_id == "chrome@openai-bundled"@
            || plugin_id == "computer-use@openai-bundled"@,
{
}

/// No browser plugin may keep approvals where the setting for all origins, for
/// those without a policy or for some origin is a no.
pub proof fn law_browser_use_is_denied_by_one_no(
    requirements: ConfigRequirementsToml,
    browser: BrowserUseRequirementsToml,
    plugin_id: Seq<char>,
    i: int,
)
    requires
        plugin_id == "browser@openai-bundled"@ || plugin_id == "chrome@openai-bundled"@,
        requirements.browser_use == Some(browser),
        ({
            ||| browser.allow_global_persistent_approval == Some(false)
            ||| browser.default_origin_policy is Some
                && browser.default_origin_policy->0.persistent_approval == Some(false)
            ||| browser.origins is Some && 0 <= i < browser.origins->0@.len()
                && browser.origins->0@[i].1.persistent_approval == Some(false)
        }),
    ensures
        !persistence_allowed(requirements, plugin_id),
{
    if browser.origins is Some && 0 <= i < browser.origins->0@.len() {
        let origins = browser.origins->0;
        if browser_use_allows(browser) {
            assert(not_denied(origins@[i].1.persistent_approval));
        }
    }
}

/// A server is found under its name, the first of those that have it, and no
/// server is found under a name that none has.
pub proof fn law_first_server_with_the_name_counts(
    catalog: ResolvedMcpCatalog,
    server_name: Seq<char>,
    i: int,
)
    ensures
        0 <= i < catalog.servers@.len() && catalog.servers@[i].0@ == server_name && (forall|j: int|
            0 <= j < i ==> (#[trigger] catalog.servers@[j]).0@ != server_name) ==> source_of(
            catalog,
            server_name,
        ) == Some(catalog.servers@[i].1),
        (forall|j: int|
            0 <= j < catalog.servers@.len() ==> (#[trigger] catalog.servers@[j]).0@ != server_name)
            ==> source_of(catalog, server_name) is None,
{
    if 0 <= i < catalog.servers@.len() && catalog.servers@[i].0@ == server_name && (forall|j: int|
        0 <= j < i ==> (#[trigger] catalog.servers@[j]).0@ != server_name) {
        assert(is_server_at(catalog, server_name, i));
        let p = choose|p: int| is_server_at(catalog, server_name, p);
        assert(is_server_at(catalog, server_name, p));
        assert(p == i);
    }
}

/// A server that a plugin registered, selected or not, is that plugin's; no
/// other server is a plugin's.
pub proof fn law_plugin_servers_name_their_plugin(attribution: McpPluginAttribution)
    ensures
        plugin_of(McpServerSource::Plugin(attribution)) == Some(attribution.plugin_id@),
        plugin_of(McpServerSource::SelectedPlugin(attribution)) == Some(attribution.plugin_id@),
        plugin_of(McpServerSource::Config) is None,
        plugin_of(McpServerSource::Compatibility) is None,
        plugin_of(McpServerSource::Extension) is None,
{
}

} // verus!
