//! The plugin manifest (`plugin.json`) and its validation.
use vstd::prelude::*;
use vstd::string::*;

use crate::error::{err_view, ErrorCode, ErrorView, PluginError};
use crate::ids::{
    contains_key, keys_of, version_lt, version_text, Capability, CommandId, EventType, PluginId,
    Version,
};
use crate::plugin::SettingSpec;
use crate::text::{concat3, decimal, decimal_string};

verus! {

/// The manifest schema this host understands.
pub const SCHEMA_VERSION: u32 = 2;

/// Where a plugin comes from.
#[derive(Clone, Copy, PartialEq, Eq, Hash, Debug, Structural)]
pub enum PluginSource {
    Builtin,
    Packaged,
    User,
}

pub open spec fn source_name(s: PluginSource) -> Seq<char> {
    match s {
        PluginSource::Builtin => "builtin"@,
        PluginSource::Packaged => "packaged"@,
        PluginSource::User => "user"@,
    }
}

impl PluginSource {
    /// Only plugins that did not ship with the host can be removed.
    pub fn is_removable(self) -> (r: bool)
        ensures
            r == (self != PluginSource::Builtin),
    {
        !matches!(self, PluginSource::Builtin)
    }

    pub fn as_str(self) -> (r: &'static str)
        ensures
            r@ == source_name(self),
    {
        match self {
            PluginSource::Builtin => "builtin",
            PluginSource::Packaged => "packaged",
            PluginSource::User => "user",
        }
    }
}

/// Whether the user may switch a plugin off.
#[derive(Clone, Copy, PartialEq, Eq, Hash, Debug, Structural)]
pub enum PluginTier {
    Feature,
    Core,
}

pub open spec fn tier_name(t: PluginTier) -> Seq<char> {
    match t {
        PluginTier::Core => "core"@,
        PluginTier::Feature => "feature"@,
    }
}

impl PluginTier {
    /// `Feature`, the tier a manifest has when it names none.
    pub fn default_tier() -> (r: PluginTier)
        ensures
            r == PluginTier::Feature,
    {
        PluginTier::Feature
    }

    pub fn is_core(self) -> (r: bool)
        ensures
            r == (self == PluginTier::Core),
    {
        matches!(self, PluginTier::Core)
    }

    pub fn is_user_disableable(self) -> (r: bool)
        ensures
            r == (self != PluginTier::Core),
    {
        !self.is_core()
    }

    pub fn as_str(self) -> (r: &'static str)
        ensures
            r@ == tier_name(self),
    {
        match self {
            PluginTier::Core => "core",
            PluginTier::Feature => "feature",
        }
    }
}

/// A dependency on another plugin.
#[derive(Debug, Clone)]
pub struct DependencySpec {
    pub plugin: PluginId,
    pub min_version: Option<Version>,
    pub optional: bool,
}

impl DependencySpec {
    pub fn required(plugin: PluginId) -> (r: DependencySpec)
        ensures
            r.plugin@ == plugin@,
            r.min_version is None,
            !r.optional,
    {
        DependencySpec { plugin, min_version: None, optional: false }
    }

    pub fn optional(plugin: PluginId) -> (r: DependencySpec)
        ensures
            r.plugin@ == plugin@,
            r.min_version is None,
            r.optional,
    {
        DependencySpec { plugin, min_version: None, optional: true }
    }

    pub fn duplicate(&self) -> (r: DependencySpec)
        ensures
            r == *self,
    {
        DependencySpec {
            plugin: self.plugin.duplicate(),
            min_version: self.min_version,
            optional: self.optional,
        }
    }
}

/// When a plugin is activated: at start (`eager`), or on the first of the
/// listed events or commands.
#[derive(Debug, Clone)]
pub struct ActivationSpec {
    pub eager: bool,
    pub events: Vec<EventType>,
    pub commands: Vec<CommandId>,
}

impl ActivationSpec {
    pub fn eager() -> (r: ActivationSpec)
        ensures
            r.eager,
            r.events@.len() == 0,
            r.commands@.len() == 0,
    {
        ActivationSpec { eager: true, events: Vec::new(), commands: Vec::new() }
    }

    /// Activation on demand only (the default).
    pub fn lazy() -> (r: ActivationSpec)
        ensures
            !r.eager,
            r.events@.len() == 0,
            r.commands@.len() == 0,
    {
        ActivationSpec { eager: false, events: Vec::new(), commands: Vec::new() }
    }

    pub fn on_event(self, kind: EventType) -> (r: ActivationSpec)
        ensures
            r.eager == self.eager,
            r.events@ == self.events@.push(kind),
            r.commands@ == self.commands@,
    {
        let mut s = self;
        s.events.push(kind);
        s
    }

    pub fn on_command(self, command: CommandId) -> (r: ActivationSpec)
        ensures
            r.eager == self.eager,
            r.events@ == self.events@,
            r.commands@ == self.commands@.push(command),
    {
        let mut s = self;
        s.commands.push(command);
        s
    }

    pub fn triggered_by_event(&self, kind: &EventType) -> (r: bool)
        ensures
            r == (self.eager || keys_of(self.events@).contains(kind@)),
    {
        self.eager || contains_key(&self.events, kind)
    }

    pub fn triggered_by_command(&self, command: &CommandId) -> (r: bool)
        ensures
            r == (self.eager || keys_of(self.commands@).contains(command@)),
    {
        self.eager || contains_key(&self.commands, command)
    }
}

/// A digest the plugin's code must match.
#[derive(Debug, Clone)]
pub struct IntegritySpec {
    pub algorithm: String,
    pub digest: String,
}

impl IntegritySpec {
    pub fn sha256(digest: String) -> (r: IntegritySpec)
        ensures
            r.algorithm@ == "sha256"@,
            r.digest == digest,
    {
        IntegritySpec { algorithm: String::from_str("sha256"), digest }
    }
}

/// Limits the supervisor enforces on a plugin's calls.
#[derive(Clone, Copy, PartialEq, Eq, Debug, Structural)]
pub struct ResourceBudget {
    pub call_timeout_ms: u64,
    pub max_consecutive_failures: u32,
    pub cooldown_ms: u64,
    pub audio_budget_us: Option<u32>,
}

impl ResourceBudget {
    /// The budget of an ordinary plugin: 2 s per call, 3 failures, 30 s cool-down.
    pub fn standard() -> (r: ResourceBudget)
        ensures
            r == (ResourceBudget {
                call_timeout_ms: 2000,
                max_consecutive_failures: 3,
                cooldown_ms: 30000,
                audio_budget_us: None,
            }),
    {
        ResourceBudget {
            call_timeout_ms: 2_000,
            max_consecutive_failures: 3,
            cooldown_ms: 30_000,
            audio_budget_us: None,
        }
    }

    /// The budget of an audio plugin: 200 ms per call, 5 failures, 5 s
    /// cool-down, 500 µs per audio block.
    pub fn realtime() -> (r: ResourceBudget)
        ensures
            r == (ResourceBudget {
                call_timeout_ms: 200,
                max_consecutive_failures: 5,
                cooldown_ms: 5000,
                audio_budget_us: Some(500),
            }),
    {
        ResourceBudget {
            call_timeout_ms: 200,
            max_consecutive_failures: 5,
            cooldown_ms: 5_000,
            audio_budget_us: Some(500),
        }
    }
}

impl Default for ResourceBudget {
    fn default() -> (r: ResourceBudget)
        ensures
            r == (ResourceBudget {
                call_timeout_ms: 2000,
                max_consecutive_failures: 3,
                cooldown_ms: 30000,
                audio_budget_us: None,
            }),
    {
        ResourceBudget::standard()
    }
}

/// A plugin's manifest.
#[derive(Debug, Clone)]
pub struct Manifest {
    pub schema: u32,
    pub id: PluginId,
    pub name: String,
    pub display_name: String,
    pub version: Version,
    pub min_host: Version,
    pub abi: u32,
    pub author: String,
    pub description: String,
    pub entry: String,
    pub source: PluginSource,
    pub tier: PluginTier,
    pub capabilities: Vec<Capability>,
    pub activation: ActivationSpec,
    pub dependencies: Vec<DependencySpec>,
    pub settings: Vec<SettingSpec>,
    pub integrity: Option<IntegritySpec>,
    pub budget: ResourceBudget,
}

/// The fields every built-in manifest starts with.
pub open spec fn is_builtin_base(
    m: Manifest,
    id: Seq<char>,
    version: Version,
    min_host: Version,
) -> bool {
    &&& m.schema == SCHEMA_VERSION
    &&& m.id@ == id
    &&& m.name@.len() == 0
    &&& m.display_name@.len() == 0
    &&& m.version == version
    &&& m.min_host == min_host
    &&& m.abi == crate::ABI_VERSION
    &&& m.author@.len() == 0
    &&& m.description@.len() == 0
    &&& m.entry@.len() == 0
    &&& m.source == PluginSource::Builtin
    &&& m.capabilities@.len() == 0
    &&& m.activation.eager
    &&& m.activation.events@.len() == 0
    &&& m.activation.commands@.len() == 0
    &&& m.dependencies@.len() == 0
    &&& m.settings@.len() == 0
    &&& m.integrity is None
    &&& m.budget == ResourceBudget::standard_spec()
}

impl ResourceBudget {
    pub open spec fn standard_spec() -> ResourceBudget {
        ResourceBudget {
            call_timeout_ms: 2000,
            max_consecutive_failures: 3,
            cooldown_ms: 30000,
            audio_budget_us: None,
        }
    }
}

impl Manifest {
    /// The manifest of a plugin compiled into the host: feature tier, eager.
    pub fn builtin(id: PluginId, version: Version, min_host: Version) -> (r: Manifest)
        ensures
            is_builtin_base(r, id@, version, min_host),
            r.tier == PluginTier::Feature,
    {
        Manifest {
            schema: SCHEMA_VERSION,
            id,
            name: String::new(),
            display_name: String::new(),
            version,
            min_host,
            abi: crate::ABI_VERSION,
            author: String::new(),
            description: String::new(),
            entry: String::new(),
            source: PluginSource::Builtin,
            tier: PluginTier::Feature,
            capabilities: Vec::new(),
            activation: ActivationSpec::eager(),
            dependencies: Vec::new(),
            settings: Vec::new(),
            integrity: None,
            budget: ResourceBudget::standard(),
        }
    }

    /// A built-in manifest of the core tier, which the user cannot disable.
    pub fn core_builtin(id: PluginId, version: Version, min_host: Version) -> (r: Manifest)
        ensures
            is_builtin_base(r, id@, version, min_host),
            r.tier == PluginTier::Core,
    {
        let mut manifest = Manifest::builtin(id, version, min_host);
        manifest.tier = PluginTier::Core;
        manifest
    }

    pub fn is_user_disableable(&self) -> (r: bool)
        ensures
            r == (self.tier != PluginTier::Core),
    {
        self.tier.is_user_disableable()
    }
}

/// Two manifests that hold the same values (settings compared by
/// `same_setting`).
pub open spec fn same_manifest(a: Manifest, b: Manifest) -> bool {
    &&& a.schema == b.schema
    &&& a.id == b.id
    &&& a.name == b.name
    &&& a.display_name == b.display_name
    &&& a.version == b.version
    &&& a.min_host == b.min_host
    &&& a.abi == b.abi
    &&& a.author == b.author
    &&& a.description == b.description
    &&& a.entry == b.entry
    &&& a.source == b.source
    &&& a.tier == b.tier
    &&& a.capabilities@ == b.capabilities@
    &&& a.activation.eager == b.activation.eager
    &&& a.activation.events@ == b.activation.events@
    &&& a.activation.commands@ == b.activation.commands@
    &&& a.dependencies@ == b.dependencies@
    &&& a.settings@.len() == b.settings@.len()
    &&& forall|i: int|
        0 <= i < a.settings@.len() ==> crate::plugin::same_setting(
            #[trigger] a.settings@[i],
            b.settings@[i],
        )
    &&& a.integrity == b.integrity
    &&& a.budget == b.budget
}

/// Manifests that hold the same values are judged alike by validation.
pub proof fn lemma_same_manifest_error(a: Manifest, b: Manifest, host: (u32, u32, u32))
    requires
        same_manifest(a, b),
    ensures
        manifest_error(a, host) == manifest_error(b, host),
{
    assert(keys_of(a.capabilities@) =~= keys_of(b.capabilities@));
}

fn copy_capability_list(v: &Vec<Capability>) -> (r: Vec<Capability>)
    ensures
        r@ == v@,
{
    let mut out: Vec<Capability> = Vec::new();
    let mut i: usize = 0;
    while i < v.len()
        invariant
            i <= v@.len(),
            out@ == v@.take(i as int),
        decreases v@.len() - i,
    {
        out.push(v[i].duplicate());
        assert(v@.take(i + 1) =~= v@.take(i as int).push(v@[i as int]));
        i = i + 1;
    }
    assert(v@.take(i as int) =~= v@);
    out
}

fn copy_event_list(v: &Vec<EventType>) -> (r: Vec<EventType>)
    ensures
        r@ == v@,
{
    let mut out: Vec<EventType> = Vec::new();
    let mut i: usize = 0;
    while i < v.len()
        invariant
            i <= v@.len(),
            out@ == v@.take(i as int),
        decreases v@.len() - i,
    {
        out.push(v[i].duplicate());
        assert(v@.take(i + 1) =~= v@.take(i as int).push(v@[i as int]));
        i = i + 1;
    }
    assert(v@.take(i as int) =~= v@);
    out
}

fn copy_command_list(v: &Vec<CommandId>) -> (r: Vec<CommandId>)
    ensures
        r@ == v@,
{
    let mut out: Vec<CommandId> = Vec::new();
    let mut i: usize = 0;
    while i < v.len()
        invariant
            i <= v@.len(),
            out@ == v@.take(i as int),
        decreases v@.len() - i,
    {
        out.push(v[i].duplicate());
        assert(v@.take(i + 1) =~= v@.take(i as int).push(v@[i as int]));
        i = i + 1;
    }
    assert(v@.take(i as int) =~= v@);
    out
}

fn copy_dependency_list(v: &Vec<DependencySpec>) -> (r: Vec<DependencySpec>)
    ensures
        r@ == v@,
{
    let mut out: Vec<DependencySpec> = Vec::new();
    let mut i: usize = 0;
    while i < v.len()
        invariant
            i <= v@.len(),
            out@ == v@.take(i as int),
        decreases v@.len() - i,
    {
        out.push(v[i].duplicate());
        assert(v@.take(i + 1) =~= v@.take(i as int).push(v@[i as int]));
        i = i + 1;
    }
    assert(v@.take(i as int) =~= v@);
    out
}

fn copy_setting_list(v: &Vec<SettingSpec>) -> (r: Vec<SettingSpec>)
    ensures
        r@.len() == v@.len(),
        forall|i: int| 0 <= i < v@.len() ==> crate::plugin::same_setting(#[trigger] r@[i], v@[i]),
{
    let mut out: Vec<SettingSpec> = Vec::new();
    let mut i: usize = 0;
    while i < v.len()
        invariant
            i <= v@.len(),
            out@.len() == i,
            forall|k: int| 0 <= k < i ==> crate::plugin::same_setting(#[trigger] out@[k], v@[k]),
        decreases v@.len() - i,
    {
        out.push(v[i].duplicate());
        i = i + 1;
    }
    out
}

impl Manifest {
    /// A copy holding the same values.
    pub fn duplicate(&self) -> (r: Manifest)
        ensures
            same_manifest(r, *self),
    {
        let integrity = match &self.integrity {
            Some(i) => Some(IntegritySpec { algorithm: i.algorithm.clone(), digest: i.digest.clone() }),
            None => None,
        };
        Manifest {
            schema: self.schema,
            id: self.id.duplicate(),
            name: self.name.clone(),
            display_name: self.display_name.clone(),
            version: self.version,
            min_host: self.min_host,
            abi: self.abi,
            author: self.author.clone(),
            description: self.description.clone(),
            entry: self.entry.clone(),
            source: self.source,
            tier: self.tier,
            capabilities: copy_capability_list(&self.capabilities),
            activation: ActivationSpec {
                eager: self.activation.eager,
                events: copy_event_list(&self.activation.events),
                commands: copy_command_list(&self.activation.commands),
            },
            dependencies: copy_dependency_list(&self.dependencies),
            settings: copy_setting_list(&self.settings),
            integrity,
            budget: self.budget,
        }
    }
}

#[verifier::external_type_specification]
#[verifier::external_body]
pub struct ExPathBuf(std::path::PathBuf);

/// `PathBuf::clone`: the clone is the same path.
pub assume_specification[ <std::path::PathBuf as Clone>::clone ](
    p: &std::path::PathBuf,
) -> (r: std::path::PathBuf)
    ensures
        r == *p,
;

/// A plugin found by discovery: its manifest and the directory it lives in.
#[derive(Debug, Clone)]
pub struct DiscoveredPlugin {
    pub manifest: Manifest,
    pub root: std::path::PathBuf,
}

/// The position of the first value that already occurred earlier, searching
/// from `j` on.
pub open spec fn first_repeat_from(s: Seq<Seq<char>>, j: int) -> Option<int>
    decreases s.len() - j,
{
    if j < 0 || j >= s.len() {
        None
    } else if s.take(j).contains(s[j]) {
        Some(j)
    } else {
        first_repeat_from(s, j + 1)
    }
}

/// `"plugin '" + id + "'" + rest`.
pub open spec fn about_plugin(id: Seq<char>, rest: Seq<char>) -> Seq<char> {
    "plugin '"@ + id + "'"@ + rest
}

/// The error `validate_manifest` reports for `m` on host `host`, if any.
pub open spec fn manifest_error(m: Manifest, host: (u32, u32, u32)) -> Option<ErrorView> {
    let id = m.id@;
    if m.schema != SCHEMA_VERSION {
        Some(
            err_view(
                ErrorCode::Incompatible,
                about_plugin(
                    id,
                    " declares schema "@ + decimal(m.schema as nat) + " but host understands "@
                        + decimal(SCHEMA_VERSION as nat),
                ),
            ),
        )
    } else if m.abi != crate::ABI_VERSION {
        Some(
            err_view(
                ErrorCode::Incompatible,
                about_plugin(
                    id,
                    " was built against ABI "@ + decimal(m.abi as nat) + " but host is ABI "@
                        + decimal(crate::ABI_VERSION as nat),
                ),
            ),
        )
    } else if !(m.min_host@.0 == host.0 && !version_lt(host, m.min_host@)) {
        Some(
            err_view(
                ErrorCode::Incompatible,
                about_plugin(
                    id,
                    " requires host >= "@ + version_text(m.min_host@) + " but host is "@
                        + version_text(host),
                ),
            ),
        )
    } else if m.tier == PluginTier::Core && m.source != PluginSource::Builtin {
        Some(
            err_view(
                ErrorCode::PermissionDenied,
                about_plugin(
                    id,
                    " declares tier=core but is loaded from '"@ + source_name(m.source)
                        + "'; only builtin plugins may be core"@,
                ),
            ),
        )
    } else if m.entry@.len() == 0 && m.source != PluginSource::Builtin {
        Some(
            err_view(
                ErrorCode::InvalidArgument,
                about_plugin(
                    id,
                    " has an empty 'entry'; dynamic plugins need a library base name"@,
                ),
            ),
        )
    } else if exists|i: int|
        0 <= i < m.dependencies@.len() && #[trigger] m.dependencies@[i].plugin@ == id {
        Some(err_view(ErrorCode::InvalidArgument, about_plugin(id, " depends on itself"@)))
    } else if first_repeat_from(keys_of(m.capabilities@), 0) is Some {
        let j = first_repeat_from(keys_of(m.capabilities@), 0)->0;
        Some(
            err_view(
                ErrorCode::InvalidArgument,
                about_plugin(
                    id,
                    " declares duplicate capability '"@ + m.capabilities@[j]@ + "'"@,
                ),
            ),
        )
    } else {
        None
    }
}

/// `"plugin '" + id + "'" + rest` as a string.
pub fn plugin_message(id: &PluginId, rest: &str) -> (r: String)
    ensures
        r@ == about_plugin(id@, rest@),
{
    concat3("plugin '", id.as_str(), "'").concat(rest)
}

/// Index of the first capability that repeats an earlier one.
fn first_repeated(caps: &Vec<Capability>) -> (r: Option<usize>)
    ensures
        r matches Some(j) ==> j < caps.len() && first_repeat_from(keys_of(caps@), 0) == Some(
            j as int,
        ),
        r is None ==> first_repeat_from(keys_of(caps@), 0) is None,
{
    let ghost keys = keys_of(caps@);
    let mut j: usize = 0;
    while j < caps.len()
        invariant
            j <= caps.len(),
            keys == keys_of(caps@),
            first_repeat_from(keys, j as int) == first_repeat_from(keys, 0),
        decreases caps.len() - j,
    {
        let mut i: usize = 0;
        let mut seen = false;
        while i < j
            invariant
                i <= j < caps.len(),
                keys == keys_of(caps@),
                seen == keys.take(i as int).contains(keys[j as int]),
            decreases j - i,
        {
            if caps[i].same(&caps[j]) {
                assert(keys.take(i + 1)[i as int] == keys[j as int]);
                seen = true;
            }
            assert(keys.take(i + 1) == keys.take(i as int).push(keys[i as int]));
            i = i + 1;
        }
        if seen {
            assert(first_repeat_from(keys, j as int) == Some(j as int));
            return Some(j);
        }
        j = j + 1;
    }
    None
}

/// Whether some dependency names `id`.
fn depends_on(deps: &Vec<DependencySpec>, id: &PluginId) -> (r: bool)
    ensures
        r == exists|i: int| 0 <= i < deps@.len() && #[trigger] deps@[i].plugin@ == id@,
{
    let mut k: usize = 0;
    while k < deps.len()
        invariant
            k <= deps@.len(),
            forall|i: int| 0 <= i < k ==> #[trigger] deps@[i].plugin@ != id@,
        decreases deps@.len() - k,
    {
        if deps[k].plugin.same(id) {
            return true;
        }
        k = k + 1;
    }
    false
}

/// Checks a manifest against the host: schema, ABI and host version must
/// match, only built-in plugins may be core, dynamic plugins need an entry,
/// no plugin may depend on itself and no capability may repeat.
pub fn validate_manifest(manifest: &Manifest, host_version: &Version) -> (r: Result<
    (),
    PluginError,
>)
    ensures
        r is Ok <==> manifest_error(*manifest, host_version@) is None,
        r matches Err(e) ==> Some(e@) == manifest_error(*manifest, host_version@),
{
    let id = &manifest.id;
    if manifest.schema != SCHEMA_VERSION {
        let mut rest = String::from_str(" declares schema ");
        rest.append(decimal_string(manifest.schema as u64).as_str());
        rest.append(" but host understands ");
        rest.append(decimal_string(SCHEMA_VERSION as u64).as_str());
        return Err(PluginError::incompatible(plugin_message(id, rest.as_str())));
    }
    if manifest.abi != crate::ABI_VERSION {
        let mut rest = String::from_str(" was built against ABI ");
        rest.append(decimal_string(manifest.abi as u64).as_str());
        rest.append(" but host is ABI ");
        rest.append(decimal_string(crate::ABI_VERSION as u64).as_str());
        return Err(PluginError::incompatible(plugin_message(id, rest.as_str())));
    }
    if !manifest.min_host.is_compatible_with(host_version) {
        let mut rest = String::from_str(" requires host >= ");
        rest.append(manifest.min_host.to_string().as_str());
        rest.append(" but host is ");
        rest.append(host_version.to_string().as_str());
        return Err(PluginError::incompatible(plugin_message(id, rest.as_str())));
    }
    if manifest.tier.is_core() && manifest.source != PluginSource::Builtin {
        let mut rest = String::from_str(" declares tier=core but is loaded from '");
        rest.append(manifest.source.as_str());
        rest.append("'; only builtin plugins may be core");
        return Err(PluginError::permission_denied(plugin_message(id, rest.as_str())));
    }
    if manifest.entry.as_str().unicode_len() == 0 && manifest.source != PluginSource::Builtin {
        return Err(
            PluginError::invalid_argument(
                plugin_message(
                    id,
                    " has an empty 'entry'; dynamic plugins need a library base name",
                ),
            ),
        );
    }
    if depends_on(&manifest.dependencies, id) {
        return Err(PluginError::invalid_argument(plugin_message(id, " depends on itself")));
    }
    match first_repeated(&manifest.capabilities) {
        Some(j) => {
            let rest = concat3(
                " declares duplicate capability '",
                manifest.capabilities[j].as_str(),
                "'",
            );
            assert(keys_of(manifest.capabilities@)[j as int] == manifest.capabilities@[j as int]@);
            return Err(PluginError::invalid_argument(plugin_message(id, rest.as_str())));
        },
        None => {},
    }
    Ok(())
}

/// A plugin that is not built in is loaded from a library, so it must name
/// one: whatever its source, a manifest with an empty `entry` that passes
/// the schema, interface, host and tier checks is refused as an invalid
/// argument for it.
pub proof fn lemma_loaded_plugin_needs_entry(m: Manifest, host: (u32, u32, u32))
    requires
        m.schema == SCHEMA_VERSION,
        m.abi == crate::ABI_VERSION,
        m.min_host@.0 == host.0 && !version_lt(host, m.min_host@),
        !(m.tier == PluginTier::Core && m.source != PluginSource::Builtin),
        m.entry@.len() == 0,
    ensures
        m.source != PluginSource::Builtin ==> manifest_error(m, host) == Some(
            err_view(
                ErrorCode::InvalidArgument,
                about_plugin(m.id@, " has an empty 'entry'; dynamic plugins need a library base name"@),
            ),
        ),
{
}

} // verus!
