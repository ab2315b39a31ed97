//! What a plugin declares about itself and what it contributes to the host.
use vstd::prelude::*;
use vstd::string::*;

use crate::ids::{
    keys_of, lemma_one_dot_valid, Capability, CommandId, ContributionPointId, PluginId, Version,
};
use crate::text::{concat3, join, seq_lt, str_eq};

verus! {

/// Health a plugin reports about itself.
#[derive(Clone, Copy, PartialEq, Eq, Debug, Structural)]
pub enum HealthStatus {
    Healthy,
    Degraded,
    Unhealthy,
}

/// The name of a health status, as its `Debug` form writes it.
pub open spec fn health_name(h: HealthStatus) -> Seq<char> {
    match h {
        HealthStatus::Healthy => "Healthy"@,
        HealthStatus::Degraded => "Degraded"@,
        HealthStatus::Unhealthy => "Unhealthy"@,
    }
}

impl HealthStatus {
    /// The name of the status, as its `Debug` form writes it.
    pub fn name(self) -> (r: &'static str)
        ensures
            r@ == health_name(self),
    {
        proof {
            reveal_strlit("Healthy");
            reveal_strlit("Degraded");
            reveal_strlit("Unhealthy");
        }
        match self {
            HealthStatus::Healthy => "Healthy",
            HealthStatus::Degraded => "Degraded",
            HealthStatus::Unhealthy => "Unhealthy",
        }
    }
}

/// Identity and requirements a plugin reports at run time.
#[derive(Debug, Clone)]
pub struct PluginDescriptor {
    pub id: PluginId,
    pub version: Version,
    pub min_host: Version,
    pub abi: u32,
    pub display_name: String,
    pub summary: String,
    pub capabilities: Vec<Capability>,
    pub depends_on: Vec<PluginId>,
    pub optional_depends_on: Vec<PluginId>,
}

impl PluginDescriptor {
    /// A descriptor for the current ABI with nothing else declared.
    pub fn new(id: PluginId, version: Version, min_host: Version) -> (r: PluginDescriptor)
        ensures
            r.id@ == id@,
            r.version == version,
            r.min_host == min_host,
            r.abi == crate::ABI_VERSION,
            r.display_name@ == Seq::<char>::empty(),
            r.summary@ == Seq::<char>::empty(),
            r.capabilities@.len() == 0,
            r.depends_on@.len() == 0,
            r.optional_depends_on@.len() == 0,
    {
        PluginDescriptor {
            id,
            version,
            min_host,
            abi: crate::ABI_VERSION,
            display_name: String::new(),
            summary: String::new(),
            capabilities: Vec::new(),
            depends_on: Vec::new(),
            optional_depends_on: Vec::new(),
        }
    }

    pub fn with_display_name(self, name: String) -> (r: PluginDescriptor)
        ensures
            r == (PluginDescriptor { display_name: name, ..self }),
    {
        let mut d = self;
        d.display_name = name;
        d
    }

    pub fn requiring(self, capability: Capability) -> (r: PluginDescriptor)
        ensures
            r.capabilities@ == self.capabilities@.push(capability),
            r == (PluginDescriptor { capabilities: r.capabilities, ..self }),
    {
        let mut d = self;
        d.capabilities.push(capability);
        d
    }

    pub fn depends_on(self, plugin: PluginId) -> (r: PluginDescriptor)
        ensures
            r.depends_on@ == self.depends_on@.push(plugin),
            r == (PluginDescriptor { depends_on: r.depends_on, ..self }),
    {
        let mut d = self;
        d.depends_on.push(plugin);
        d
    }

    pub fn optionally_depends_on(self, plugin: PluginId) -> (r: PluginDescriptor)
        ensures
            r.optional_depends_on@ == self.optional_depends_on@.push(plugin),
            r == (PluginDescriptor { optional_depends_on: r.optional_depends_on, ..self }),
    {
        let mut d = self;
        d.optional_depends_on.push(plugin);
        d
    }
}

/// A command the plugin handles.
#[derive(Debug, Clone)]
pub struct CommandSpec {
    pub id: CommandId,
    pub title: String,
    pub category: Option<String>,
    pub input_schema: Option<serde_json::Value>,
}

/// A menu entry that runs a command.
#[derive(Debug, Clone)]
pub struct MenuSpec {
    pub command: CommandId,
    pub title: String,
    pub location: String,
    pub group: Option<String>,
    pub order: Option<i32>,
}

/// An entry of the side bar.
#[derive(Debug, Clone)]
pub struct SidebarSpec {
    pub id: String,
    pub title: String,
    pub icon: String,
    pub target: String,
}

/// A web view the plugin ships.
#[derive(Debug, Clone)]
pub struct ViewSpec {
    pub id: String,
    pub title: String,
    pub entry: String,
    pub icon: Option<String>,
}

/// A view the host renders natively, named by a token.
#[derive(Debug, Clone)]
pub struct NativeViewSpec {
    pub id: String,
    pub title: String,
    pub token: String,
    pub icon: Option<String>,
}

/// An audio processor inserted into the playback chain.
#[derive(Debug, Clone)]
pub struct AudioProcessorSpec {
    pub id: String,
    pub order: i32,
    pub budget_us: u32,
}

/// A setting the plugin exposes, with its default value.
#[derive(Debug, Clone)]
pub struct SettingSpec {
    pub key: String,
    pub title: String,
    pub default_value: serde_json::Value,
    pub control: String,
    pub options: Option<Vec<String>>,
}

/// Why a plugin is being deactivated.
#[derive(Clone, Copy, PartialEq, Eq, Debug, Structural)]
pub enum DeactivateReason {
    UserDisabled,
    Uninstall,
    Reload,
    CircuitBroken,
    DependencyRemoved,
    Shutdown,
}

impl DeactivateReason {
    /// Only an uninstall discards the plugin's stored state.
    pub fn preserves_state(self) -> (r: bool)
        ensures
            r == (self != DeactivateReason::Uninstall),
    {
        !matches!(self, DeactivateReason::Uninstall)
    }
}

/// What a plugin is told when it is torn down.
pub struct TeardownContext {
    plugin: PluginId,
    reason: DeactivateReason,
}

impl TeardownContext {
    pub fn new(plugin: PluginId, reason: DeactivateReason) -> (r: TeardownContext)
        ensures
            r.plugin_view() == plugin@,
            r.reason_view() == reason,
    {
        TeardownContext { plugin, reason }
    }

    pub closed spec fn plugin_view(&self) -> Seq<char> {
        self.plugin@
    }

    pub closed spec fn reason_view(&self) -> DeactivateReason {
        self.reason
    }

    pub fn plugin_id(&self) -> (r: &PluginId)
        ensures
            r@ == self.plugin_view(),
    {
        &self.plugin
    }

    pub fn reason(&self) -> (r: DeactivateReason)
        ensures
            r == self.reason_view(),
    {
        self.reason
    }
}

/// What a plugin adds to one of the host's contribution points.
#[derive(Debug, Clone)]
pub enum Contribution {
    Command(CommandSpec),
    MenuItem(MenuSpec),
    SidebarItem(SidebarSpec),
    View(ViewSpec),
    NativeView(NativeViewSpec),
    AudioProcessor(AudioProcessorSpec),
    Setting(SettingSpec),
    /// A contribution to a point another plugin defines.
    Extension { point: ContributionPointId, payload: serde_json::Value },
}

/// The contribution point a contribution goes to.
pub open spec fn point_of(c: Contribution) -> Seq<char> {
    match c {
        Contribution::Command(_) => "ui.command"@,
        Contribution::MenuItem(_) => "ui.menuItem"@,
        Contribution::SidebarItem(_) => "ui.sidebar"@,
        Contribution::View(_) => "ui.view"@,
        Contribution::NativeView(_) => "ui.nativeView"@,
        Contribution::AudioProcessor(_) => "audio.processor"@,
        Contribution::Setting(_) => "config.setting"@,
        Contribution::Extension { point, .. } => point@,
    }
}

/// Whether `k` is the key of `c`: the id of what it declares (a menu item's
/// command and location joined by `@`), or for an extension its point, `#`
/// and the stable key of its payload's JSON shape.
pub open spec fn key_fits(c: Contribution, k: Seq<char>) -> bool {
    match c {
        Contribution::Command(spec) => k == spec.id@,
        Contribution::MenuItem(spec) => k == spec.command@ + "@"@ + spec.location@,
        Contribution::SidebarItem(spec) => k == spec.id@,
        Contribution::View(spec) => k == spec.id@,
        Contribution::NativeView(spec) => k == spec.id@,
        Contribution::AudioProcessor(spec) => k == spec.id@,
        Contribution::Setting(spec) => k == spec.key@,
        Contribution::Extension { point, payload } => k == point@ + "#"@ + shape_key(
            json_shape_of(payload),
        ),
    }
}

/// The options of a setting as strings.
pub open spec fn options_view(o: Option<Vec<String>>) -> Option<Seq<Seq<char>>> {
    match o {
        Some(v) => Some(v@.map_values(|x: String| x@)),
        None => None,
    }
}

/// Two settings that hold the same values.
pub open spec fn same_setting(a: SettingSpec, b: SettingSpec) -> bool {
    &&& a.key == b.key
    &&& a.title == b.title
    &&& a.default_value == b.default_value
    &&& a.control == b.control
    &&& options_view(a.options) == options_view(b.options)
}

/// Two contributions that hold the same values.
pub open spec fn same_contribution(a: Contribution, b: Contribution) -> bool {
    match (a, b) {
        (Contribution::Setting(x), Contribution::Setting(y)) => same_setting(x, y),
        _ => a == b,
    }
}

fn copy_text(o: &Option<String>) -> (r: Option<String>)
    ensures
        r == *o,
{
    match o {
        Some(t) => Some(t.clone()),
        None => None,
    }
}

fn copy_json(o: &Option<serde_json::Value>) -> (r: Option<serde_json::Value>)
    ensures
        r == *o,
{
    match o {
        Some(v) => Some(v.clone()),
        None => None,
    }
}

fn copy_options(o: &Option<Vec<String>>) -> (r: Option<Vec<String>>)
    ensures
        options_view(r) == options_view(*o),
{
    match o {
        Some(v) => {
            let mut out: Vec<String> = Vec::new();
            let mut i: usize = 0;
            while i < v.len()
                invariant
                    i <= v@.len(),
                    out@.len() == i,
                    forall|k: int| 0 <= k < i ==> (#[trigger] out@[k])@ == v@[k]@,
                decreases v@.len() - i,
            {
                out.push(v[i].clone());
                i = i + 1;
            }
            assert(out@.map_values(|x: String| x@) =~= v@.map_values(|x: String| x@));
            Some(out)
        },
        None => None,
    }
}

impl CommandSpec {
    pub fn duplicate(&self) -> (r: CommandSpec)
        ensures
            r == *self,
    {
        CommandSpec {
            id: self.id.duplicate(),
            title: self.title.clone(),
            category: copy_text(&self.category),
            input_schema: copy_json(&self.input_schema),
        }
    }
}

impl MenuSpec {
    pub fn duplicate(&self) -> (r: MenuSpec)
        ensures
            r == *self,
    {
        MenuSpec {
            command: self.command.duplicate(),
            title: self.title.clone(),
            location: self.location.clone(),
            group: copy_text(&self.group),
            order: self.order,
        }
    }
}

impl SidebarSpec {
    pub fn duplicate(&self) -> (r: SidebarSpec)
        ensures
            r == *self,
    {
        SidebarSpec {
            id: self.id.clone(),
            title: self.title.clone(),
            icon: self.icon.clone(),
            target: self.target.clone(),
        }
    }
}

impl ViewSpec {
    pub fn duplicate(&self) -> (r: ViewSpec)
        ensures
            r == *self,
    {
        ViewSpec {
            id: self.id.clone(),
            title: self.title.clone(),
            entry: self.entry.clone(),
            icon: copy_text(&self.icon),
        }
    }
}

impl NativeViewSpec {
    pub fn duplicate(&self) -> (r: NativeViewSpec)
        ensures
            r == *self,
    {
        NativeViewSpec {
            id: self.id.clone(),
            title: self.title.clone(),
            token: self.token.clone(),
            icon: copy_text(&self.icon),
        }
    }
}

impl AudioProcessorSpec {
    pub fn duplicate(&self) -> (r: AudioProcessorSpec)
        ensures
            r == *self,
    {
        AudioProcessorSpec { id: self.id.clone(), order: self.order, budget_us: self.budget_us }
    }
}

impl SettingSpec {
    pub fn duplicate(&self) -> (r: SettingSpec)
        ensures
            same_setting(r, *self),
    {
        SettingSpec {
            key: self.key.clone(),
            title: self.title.clone(),
            default_value: self.default_value.clone(),
            control: self.control.clone(),
            options: copy_options(&self.options),
        }
    }
}

/// The shape of a JSON value that its stable key depends on: `null`, an
/// object with its fields, or any other value as its JSON text.
#[derive(Debug)]
pub enum JsonShape {
    Null,
    Text(String),
    Object(Vec<(String, JsonShape)>),
}

/// `pieces` with the field `(k, piece)` inserted before the first field
/// whose name comes after `k`.
pub open spec fn insert_field(pieces: Seq<(Seq<char>, Seq<char>)>, k: Seq<char>, piece: Seq<char>) -> Seq<
    (Seq<char>, Seq<char>),
>
    decreases pieces.len(),
{
    if pieces.len() == 0 {
        seq![(k, piece)]
    } else if seq_lt(k, pieces[0].0) {
        seq![(k, piece)] + pieces
    } else {
        seq![pieces[0]] + insert_field(pieces.drop_first(), k, piece)
    }
}

/// The stable key of a JSON value: `null`, the JSON text of a scalar or
/// array, or for an object `name=key` of each field, ordered by name and
/// joined with `&`.
pub open spec fn shape_key(s: JsonShape) -> Seq<char>
    decreases s,
{
    match s {
        JsonShape::Null => "null"@,
        JsonShape::Text(t) => t@,
        JsonShape::Object(fields) => join(field_pieces(fields@, fields@.len() as int).map_values(
            |p: (Seq<char>, Seq<char>)| p.1,
        ), "&"@),
    }
}

/// The first `n` fields of an object as `(name, "name=key")`, ordered by
/// name.
pub open spec fn field_pieces(fields: Seq<(String, JsonShape)>, n: int) -> Seq<(Seq<char>, Seq<char>)>
    decreases fields, n,
{
    if n <= 0 || n > fields.len() {
        Seq::empty()
    } else {
        let f = fields[n - 1];
        insert_field(
            field_pieces(fields, n - 1),
            f.0@,
            f.0@ + "="@ + shape_key(f.1),
        )
    }
}

/// The shape of a JSON value, as `json_shape` reads it.
pub uninterp spec fn json_shape_of(value: serde_json::Value) -> JsonShape;

/// The shape of a `serde_json::Value`: `Null`, an object with its fields
/// in the map's order, or the JSON text that `Display` prints for any other
/// value. The shape is a function of the value, named `json_shape_of`.
#[verifier::external_body]
pub fn json_shape(value: &serde_json::Value) -> (r: JsonShape)
    ensures
        r == json_shape_of(*value),
{
    match value {
        serde_json::Value::Null => JsonShape::Null,
        serde_json::Value::Object(map) => JsonShape::Object(
            map.iter().map(|(k, v)| (k.clone(), json_shape(v))).collect(),
        ),
        other => JsonShape::Text(other.to_string()),
    }
}

impl Contribution {
    pub fn as_command(&self) -> (r: Option<&CommandSpec>)
        ensures
            r is Some <==> self is Command,
            r matches Some(spec) ==> *self == Contribution::Command(*spec),
    {
        match self {
            Contribution::Command(spec) => Some(spec),
            _ => None,
        }
    }

    pub fn as_menu_item(&self) -> (r: Option<&MenuSpec>)
        ensures
            r is Some <==> self is MenuItem,
            r matches Some(spec) ==> *self == Contribution::MenuItem(*spec),
    {
        match self {
            Contribution::MenuItem(spec) => Some(spec),
            _ => None,
        }
    }

    pub fn as_sidebar_item(&self) -> (r: Option<&SidebarSpec>)
        ensures
            r is Some <==> self is SidebarItem,
            r matches Some(spec) ==> *self == Contribution::SidebarItem(*spec),
    {
        match self {
            Contribution::SidebarItem(spec) => Some(spec),
            _ => None,
        }
    }

    pub fn as_view(&self) -> (r: Option<&ViewSpec>)
        ensures
            r is Some <==> self is View,
            r matches Some(spec) ==> *self == Contribution::View(*spec),
    {
        match self {
            Contribution::View(spec) => Some(spec),
            _ => None,
        }
    }

    pub fn as_native_view(&self) -> (r: Option<&NativeViewSpec>)
        ensures
            r is Some <==> self is NativeView,
            r matches Some(spec) ==> *self == Contribution::NativeView(*spec),
    {
        match self {
            Contribution::NativeView(spec) => Some(spec),
            _ => None,
        }
    }

    pub fn as_audio_processor(&self) -> (r: Option<&AudioProcessorSpec>)
        ensures
            r is Some <==> self is AudioProcessor,
            r matches Some(spec) ==> *self == Contribution::AudioProcessor(*spec),
    {
        match self {
            Contribution::AudioProcessor(spec) => Some(spec),
            _ => None,
        }
    }

    pub fn as_setting(&self) -> (r: Option<&SettingSpec>)
        ensures
            r is Some <==> self is Setting,
            r matches Some(spec) ==> *self == Contribution::Setting(*spec),
    {
        match self {
            Contribution::Setting(spec) => Some(spec),
            _ => None,
        }
    }

    /// A copy holding the same values.
    pub fn duplicate(&self) -> (r: Contribution)
        ensures
            same_contribution(r, *self),
            point_of(r) == point_of(*self),
    {
        match self {
            Contribution::Command(spec) => Contribution::Command(spec.duplicate()),
            Contribution::MenuItem(spec) => Contribution::MenuItem(spec.duplicate()),
            Contribution::SidebarItem(spec) => Contribution::SidebarItem(spec.duplicate()),
            Contribution::View(spec) => Contribution::View(spec.duplicate()),
            Contribution::NativeView(spec) => Contribution::NativeView(spec.duplicate()),
            Contribution::AudioProcessor(spec) => Contribution::AudioProcessor(spec.duplicate()),
            Contribution::Setting(spec) => Contribution::Setting(spec.duplicate()),
            Contribution::Extension { point, payload } => Contribution::Extension {
                point: point.duplicate(),
                payload: payload.clone(),
            },
        }
    }

    /// The contribution point this contribution goes to.
    pub fn point(&self) -> (r: ContributionPointId)
        ensures
            r@ == point_of(*self),
    {
        let id = match self {
            Contribution::Command(_) => {
                proof {
                    reveal_strlit("ui.command");
                    lemma_one_dot_valid("ui.command"@, 2, "contribution point id"@);
                }
                "ui.command"
            },
            Contribution::MenuItem(_) => {
                proof {
                    reveal_strlit("ui.menuItem");
                    lemma_one_dot_valid("ui.menuItem"@, 2, "contribution point id"@);
                }
                "ui.menuItem"
            },
            Contribution::SidebarItem(_) => {
                proof {
                    reveal_strlit("ui.sidebar");
                    lemma_one_dot_valid("ui.sidebar"@, 2, "contribution point id"@);
                }
                "ui.sidebar"
            },
            Contribution::View(_) => {
                proof {
                    reveal_strlit("ui.view");
                    lemma_one_dot_valid("ui.view"@, 2, "contribution point id"@);
                }
                "ui.view"
            },
            Contribution::NativeView(_) => {
                proof {
                    reveal_strlit("ui.nativeView");
                    lemma_one_dot_valid("ui.nativeView"@, 2, "contribution point id"@);
                }
                "ui.nativeView"
            },
            Contribution::AudioProcessor(_) => {
                proof {
                    reveal_strlit("audio.processor");
                    lemma_one_dot_valid("audio.processor"@, 5, "contribution point id"@);
                }
                "audio.processor"
            },
            Contribution::Setting(_) => {
                proof {
                    reveal_strlit("config.setting");
                    lemma_one_dot_valid("config.setting"@, 6, "contribution point id"@);
                }
                "config.setting"
            },
            Contribution::Extension { point, .. } => {
                return point.duplicate();
            },
        };
        ContributionPointId::new(id).expect("built-in contribution point id is valid")
    }

    /// The key that tells this contribution apart from the plugin's others
    /// at the same point.
    pub fn key(&self) -> (r: String)
        ensures
            key_fits(*self, r@),
    {
        match self {
            Contribution::Command(spec) => spec.id.to_string(),
            Contribution::MenuItem(spec) => concat3(spec.command.as_str(), "@", spec.location.as_str()),
            Contribution::SidebarItem(spec) => spec.id.clone(),
            Contribution::View(spec) => spec.id.clone(),
            Contribution::NativeView(spec) => spec.id.clone(),
            Contribution::AudioProcessor(spec) => spec.id.clone(),
            Contribution::Setting(spec) => spec.key.clone(),
            Contribution::Extension { point, payload } => {
                let shape = json_shape(payload);
                let key = stable_key(&shape);
                concat3(point.as_str(), "#", key.as_str())
            },
        }
    }
}

/// Inserts the field `(k, piece)` into `pieces`, kept ordered by name.
fn insert_piece(pieces: &mut Vec<(String, String)>, k: String, piece: String)
    ensures
        piece_views(final(pieces)@) == insert_field(piece_views(old(pieces)@), k@, piece@),
{
    let ghost before = piece_views(pieces@);
    let mut i: usize = 0;
    assert(before.take(0) + insert_field(before.skip(0), k@, piece@) =~= insert_field(
        before,
        k@,
        piece@,
    )) by {
        assert(before.skip(0) =~= before);
    }
    while i < pieces.len() && !crate::text::str_lt(k.as_str(), pieces[i].0.as_str())
        invariant
            i <= pieces@.len(),
            before == piece_views(pieces@),
            insert_field(before, k@, piece@) == before.take(i as int) + insert_field(
                before.skip(i as int),
                k@,
                piece@,
            ),
        decreases pieces@.len() - i,
    {
        proof {
            let rest = before.skip(i as int);
            assert(rest.drop_first() =~= before.skip(i + 1));
            assert(before.take(i + 1) =~= before.take(i as int) + seq![rest[0]]);
            assert(before.take(i as int) + insert_field(rest, k@, piece@) =~= before.take(i + 1)
                + insert_field(before.skip(i + 1), k@, piece@));
        }
        i = i + 1;
    }
    pieces.insert(i, (k, piece));
    proof {
        let after = piece_views(pieces@);
        let rest = before.skip(i as int);
        assert(after =~= before.take(i as int) + seq![(k@, piece@)] + rest);
        assert(insert_field(rest, k@, piece@) =~= seq![(k@, piece@)] + rest);
    }
}

/// The views of a list of named pieces.
pub open spec fn piece_views(p: Seq<(String, String)>) -> Seq<(Seq<char>, Seq<char>)> {
    p.map_values(|x: (String, String)| (x.0@, x.1@))
}

/// The stable key of a JSON shape.
pub fn stable_key(shape: &JsonShape) -> (r: String)
    ensures
        r@ == shape_key(*shape),
    decreases shape,
{
    match shape {
        JsonShape::Null => String::from_str("null"),
        JsonShape::Text(t) => t.clone(),
        JsonShape::Object(fields) => {
            let mut pieces: Vec<(String, String)> = Vec::new();
            let mut i: usize = 0;
            while i < fields.len()
                invariant
                    i <= fields@.len(),
                    *shape == JsonShape::Object(*fields),
                    piece_views(pieces@) == field_pieces(fields@, i as int),
                decreases fields@.len() - i,
            {
                let name = fields[i].0.clone();
                let mut piece = crate::text::concat2(fields[i].0.as_str(), "=");
                proof {
                    assert(*shape == JsonShape::Object(*fields));
                    assert(decreases_to!(*shape => (*shape)->Object_0));
                    assert(decreases_to!(*fields => fields@));
                    assert(decreases_to!(fields@ => fields@[i as int]));
                    assert(decreases_to!(fields@[i as int] => fields@[i as int].1));
                }
                let child = stable_key(&fields[i].1);
                piece.append(child.as_str());
                insert_piece(&mut pieces, name, piece);
                i = i + 1;
            }
            let mut out = String::new();
            let mut k: usize = 0;
            let ghost parts = piece_views(pieces@).map_values(|p: (Seq<char>, Seq<char>)| p.1);
            while k < pieces.len()
                invariant
                    k <= pieces@.len(),
                    parts == piece_views(pieces@).map_values(|p: (Seq<char>, Seq<char>)| p.1),
                    out@ == join(parts.take(k as int), "&"@),
                decreases pieces@.len() - k,
            {
                assert(parts.take(k + 1).drop_last() =~= parts.take(k as int));
                if k > 0 {
                    out.append("&");
                }
                out.append(pieces[k].1.as_str());
                k = k + 1;
            }
            assert(parts.take(k as int) =~= parts);
            out
        },
    }
}

/// What a plugin contributed, offered and subscribed to while it activated.
pub struct ActivationScope<S> {
    contributions: Vec<Contribution>,
    services: Vec<crate::service::ServiceBinding<S>>,
    subscriptions: Vec<crate::event::EventPattern>,
}

impl<S> ActivationScope<S> {
    pub closed spec fn contributions_view(&self) -> Seq<Contribution> {
        self.contributions@
    }

    pub closed spec fn services_view(&self) -> Seq<crate::service::ServiceBinding<S>> {
        self.services@
    }

    pub closed spec fn subscriptions_view(&self) -> Seq<crate::event::EventPattern> {
        self.subscriptions@
    }

    pub fn new() -> (r: ActivationScope<S>)
        ensures
            r.contributions_view() == Seq::<Contribution>::empty(),
            r.services_view() == Seq::<crate::service::ServiceBinding<S>>::empty(),
            r.subscriptions_view() == Seq::<crate::event::EventPattern>::empty(),
    {
        ActivationScope { contributions: Vec::new(), services: Vec::new(), subscriptions: Vec::new() }
    }

    pub fn contribute(&mut self, contribution: Contribution)
        ensures
            final(self).contributions_view() == old(self).contributions_view().push(contribution),
            final(self).services_view() == old(self).services_view(),
            final(self).subscriptions_view() == old(self).subscriptions_view(),
    {
        self.contributions.push(contribution);
    }

    pub fn provide(&mut self, binding: crate::service::ServiceBinding<S>)
        ensures
            final(self).services_view() == old(self).services_view().push(binding),
            final(self).contributions_view() == old(self).contributions_view(),
            final(self).subscriptions_view() == old(self).subscriptions_view(),
    {
        self.services.push(binding);
    }

    pub fn subscribe(&mut self, pattern: crate::event::EventPattern)
        ensures
            final(self).subscriptions_view() == old(self).subscriptions_view().push(pattern),
            final(self).contributions_view() == old(self).contributions_view(),
            final(self).services_view() == old(self).services_view(),
    {
        self.subscriptions.push(pattern);
    }

    pub fn contributions(&self) -> (r: &[Contribution])
        ensures
            r@ == self.contributions_view(),
    {
        self.contributions.as_slice()
    }

    pub fn services(&self) -> (r: &[crate::service::ServiceBinding<S>])
        ensures
            r@ == self.services_view(),
    {
        self.services.as_slice()
    }

    pub fn subscriptions(&self) -> (r: &[crate::event::EventPattern])
        ensures
            r@ == self.subscriptions_view(),
    {
        self.subscriptions.as_slice()
    }

    pub fn is_empty(&self) -> (r: bool)
        ensures
            r == (self.contributions_view().len() == 0 && self.services_view().len() == 0
                && self.subscriptions_view().len() == 0),
    {
        self.contributions.len() == 0 && self.services.len() == 0 && self.subscriptions.len() == 0
    }

    /// Hands over the offered services, leaving none in the scope.
    pub fn take_services(&mut self) -> (r: Vec<crate::service::ServiceBinding<S>>)
        ensures
            r@ == old(self).services_view(),
            final(self).services_view() == Seq::<crate::service::ServiceBinding<S>>::empty(),
            final(self).contributions_view() == old(self).contributions_view(),
            final(self).subscriptions_view() == old(self).subscriptions_view(),
    {
        let mut taken: Vec<crate::service::ServiceBinding<S>> = Vec::new();
        std::mem::swap(&mut taken, &mut self.services);
        taken
    }

    /// Everything the scope holds: contributions, services, subscriptions.
    pub fn into_parts(self) -> (r: (
        Vec<Contribution>,
        Vec<crate::service::ServiceBinding<S>>,
        Vec<crate::event::EventPattern>,
    ))
        ensures
            r.0@ == self.contributions_view(),
            r.1@ == self.services_view(),
            r.2@ == self.subscriptions_view(),
    {
        (self.contributions, self.services, self.subscriptions)
    }
}

impl<S> Default for ActivationScope<S> {
    fn default() -> (r: ActivationScope<S>)
        ensures
            r.contributions_view() == Seq::<Contribution>::empty(),
            r.services_view() == Seq::<crate::service::ServiceBinding<S>>::empty(),
            r.subscriptions_view() == Seq::<crate::event::EventPattern>::empty(),
    {
        ActivationScope::new()
    }
}

/// The descriptors of the offered services, in order.
pub fn summarize_services<S>(bindings: &[crate::service::ServiceBinding<S>]) -> (r: Vec<
    crate::service::ServiceDescriptor,
>)
    ensures
        r@.len() == bindings@.len(),
        forall|i: int|
            0 <= i < r@.len() ==> crate::service::same_descriptor(
                #[trigger] r@[i],
                bindings@[i].descriptor_view(),
            ),
{
    let mut out: Vec<crate::service::ServiceDescriptor> = Vec::new();
    let mut i: usize = 0;
    while i < bindings.len()
        invariant
            i <= bindings@.len(),
            out@.len() == i,
            forall|k: int|
                0 <= k < i ==> crate::service::same_descriptor(
                    #[trigger] out@[k],
                    bindings@[k].descriptor_view(),
                ),
        decreases bindings@.len() - i,
    {
        out.push(bindings[i].descriptor().duplicate());
        i = i + 1;
    }
    out
}

} // verus!
