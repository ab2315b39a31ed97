//! The equalizer plugin: its id and commands, its descriptor, what it
//! contributes when activated, and how it reads its arguments. Band gains
//! are floating-point numbers and stay with the host.
use vstd::prelude::*;
use vstd::string::*;

use crate::container::text_view;
use crate::error::{err_view, ErrorCode, ErrorView, PluginError, PluginResult};
use crate::ids::{lemma_one_dot_valid, lemma_segment_valid, CommandId, PluginId, Version};
use crate::json::{json_arg, json_arg_of, JsonArg};
use crate::plugin::{CommandSpec, Contribution, MenuSpec, NativeViewSpec, PluginDescriptor, SidebarSpec};
use crate::text::{concat3, decimal, decimal_string, parse_unsigned, parse_usize, str_eq};

verus! {

pub const ID: &'static str = "eq";

/// How many bands the equalizer has.
pub const BAND_COUNT: usize = 10;

fn eq_id() -> (r: PluginId)
    ensures
        r@ == "eq"@,
{
    proof {
        reveal_strlit("eq");
        lemma_segment_valid("eq"@, "plugin id"@);
    }
    PluginId::new("eq").expect("eq id is valid")
}

/// The id `eq.setBand`.
pub fn command_set_band() -> (r: CommandId)
    ensures
        r@ == "eq.setBand"@,
{
    proof {
        reveal_strlit("eq.setBand");
        lemma_one_dot_valid("eq.setBand"@, 2, "command id"@);
    }
    CommandId::new("eq.setBand").expect("static command id is valid")
}

/// The id `eq.applyPreset`.
pub fn command_apply_preset() -> (r: CommandId)
    ensures
        r@ == "eq.applyPreset"@,
{
    proof {
        reveal_strlit("eq.applyPreset");
        lemma_one_dot_valid("eq.applyPreset"@, 2, "command id"@);
    }
    CommandId::new("eq.applyPreset").expect("static command id is valid")
}

/// The id `eq.setEnabled`.
pub fn command_set_enabled() -> (r: CommandId)
    ensures
        r@ == "eq.setEnabled"@,
{
    proof {
        reveal_strlit("eq.setEnabled");
        lemma_one_dot_valid("eq.setEnabled"@, 2, "command id"@);
    }
    CommandId::new("eq.setEnabled").expect("static command id is valid")
}

/// The id `eq.getState`.
pub fn command_get_state() -> (r: CommandId)
    ensures
        r@ == "eq.getState"@,
{
    proof {
        reveal_strlit("eq.getState");
        lemma_one_dot_valid("eq.getState"@, 2, "command id"@);
    }
    CommandId::new("eq.getState").expect("static command id is valid")
}

/// The id `eq.reset`.
pub fn command_reset() -> (r: CommandId)
    ensures
        r@ == "eq.reset"@,
{
    proof {
        reveal_strlit("eq.reset");
        lemma_one_dot_valid("eq.reset"@, 2, "command id"@);
    }
    CommandId::new("eq.reset").expect("static command id is valid")
}

/// The equalizer plugin.
pub struct EqPlugin {
    descriptor: PluginDescriptor,
}

impl EqPlugin {
    pub closed spec fn descriptor_view(&self) -> PluginDescriptor {
        self.descriptor
    }

    /// The plugin, describing itself as `eq` 1.0.0 for hosts from 0.1.0.
    pub fn new() -> (r: EqPlugin)
        ensures
            r.descriptor_view().id@ == "eq"@,
            r.descriptor_view().version@ == (1u32, 0u32, 0u32),
            r.descriptor_view().min_host@ == (0u32, 1u32, 0u32),
            r.descriptor_view().abi == crate::ABI_VERSION,
            r.descriptor_view().display_name@ == "均衡器"@,
            r.descriptor_view().capabilities@.len() == 0,
            r.descriptor_view().depends_on@.len() == 0,
            r.descriptor_view().optional_depends_on@.len() == 0,
    {
        let descriptor = PluginDescriptor::new(eq_id(), Version::new(1, 0, 0), Version::new(0, 1, 0))
            .with_display_name(String::from_str("均衡器"));
        EqPlugin { descriptor }
    }

    pub fn descriptor(&self) -> (r: &PluginDescriptor)
        ensures
            *r == self.descriptor_view(),
    {
        &self.descriptor
    }
}

/// A command with the `eq` category and no input schema.
fn eq_command_spec(id: CommandId, title: &str) -> (r: Contribution)
    ensures
        r matches Contribution::Command(spec) && spec.id == id && spec.title@ == title@
            && text_view(spec.category) == Some("eq"@) && spec.input_schema is None,
{
    Contribution::Command(
        CommandSpec {
            id,
            title: String::from_str(title),
            category: Some(String::from_str("eq")),
            input_schema: None,
        },
    )
}

/// What the equalizer contributes when it is activated: its five commands,
/// a side bar entry, the native panel it opens, and a menu entry on tracks.
pub fn eq_contributions() -> (r: Vec<Contribution>)
    ensures
        r@.len() == 8,
        r@[0] matches Contribution::Command(s) && s.id@ == "eq.setBand"@ && s.title@
            == "设置 EQ 频段"@,
        r@[1] matches Contribution::Command(s) && s.id@ == "eq.applyPreset"@ && s.title@
            == "应用 EQ 预设"@,
        r@[2] matches Contribution::Command(s) && s.id@ == "eq.setEnabled"@ && s.title@
            == "切换 EQ 开关"@,
        r@[3] matches Contribution::Command(s) && s.id@ == "eq.getState"@ && s.title@
            == "读取 EQ 状态"@,
        r@[4] matches Contribution::Command(s) && s.id@ == "eq.reset"@ && s.title@ == "重置 EQ"@,
        forall|i: int|
            0 <= i < 5 ==> (#[trigger] r@[i] matches Contribution::Command(s) && text_view(s.category)
                == Some("eq"@) && s.input_schema is None),
        r@[5] matches Contribution::SidebarItem(s) && s.id@ == "eq"@ && s.title@ == "均衡器"@
            && s.icon@ == "graphic_eq"@ && s.target@ == "eq-panel-view"@,
        r@[6] matches Contribution::NativeView(v) && v.id@ == "eq-panel-view"@ && v.title@
            == "均衡器"@ && v.token@ == "eq-panel"@ && text_view(v.icon) == Some("graphic_eq"@),
        r@[7] matches Contribution::MenuItem(m) && m.command@ == "eq.applyPreset"@ && m.title@
            == "应用 EQ 预设"@ && m.location@ == "track.context"@ && text_view(m.group) == Some(
            "eq"@,
        ) && m.order == Some(10i32),
{
    let mut items: Vec<Contribution> = Vec::new();
    items.push(eq_command_spec(command_set_band(), "设置 EQ 频段"));
    items.push(eq_command_spec(command_apply_preset(), "应用 EQ 预设"));
    items.push(eq_command_spec(command_set_enabled(), "切换 EQ 开关"));
    items.push(eq_command_spec(command_get_state(), "读取 EQ 状态"));
    items.push(eq_command_spec(command_reset(), "重置 EQ"));
    items.push(
        Contribution::SidebarItem(
            SidebarSpec {
                id: String::from_str("eq"),
                title: String::from_str("均衡器"),
                icon: String::from_str("graphic_eq"),
                target: String::from_str("eq-panel-view"),
            },
        ),
    );
    items.push(
        Contribution::NativeView(
            NativeViewSpec {
                id: String::from_str("eq-panel-view"),
                title: String::from_str("均衡器"),
                token: String::from_str("eq-panel"),
                icon: Some(String::from_str("graphic_eq")),
            },
        ),
    );
    items.push(
        Contribution::MenuItem(
            MenuSpec {
                command: command_apply_preset(),
                title: String::from_str("应用 EQ 预设"),
                location: String::from_str("track.context"),
                group: Some(String::from_str("eq")),
                order: Some(10),
            },
        ),
    );
    items
}

/// A command the equalizer handles.
#[derive(Clone, Copy, PartialEq, Eq, Debug, Structural)]
pub enum EqCommand {
    SetBand,
    ApplyPreset,
    SetEnabled,
    GetState,
    Reset,
}

/// The command `name` names, if the equalizer handles it.
pub open spec fn eq_command_of(name: Seq<char>) -> Option<EqCommand> {
    if name == "eq.setBand"@ {
        Some(EqCommand::SetBand)
    } else if name == "eq.applyPreset"@ {
        Some(EqCommand::ApplyPreset)
    } else if name == "eq.setEnabled"@ {
        Some(EqCommand::SetEnabled)
    } else if name == "eq.getState"@ {
        Some(EqCommand::GetState)
    } else if name == "eq.reset"@ {
        Some(EqCommand::Reset)
    } else {
        None
    }
}

/// Which command the equalizer is asked to run; refused for a command it
/// does not handle.
pub fn eq_command(command: &CommandId) -> (r: PluginResult<EqCommand>)
    ensures
        eq_command_of(command@) matches Some(c) ==> r == Ok::<EqCommand, PluginError>(c),
        eq_command_of(command@) is None ==> (r matches Err(e) && e@ == err_view(
            ErrorCode::NotFound,
            "eq 插件不处理命令 '"@ + command@ + "'"@,
        )),
{
    let name = command.as_str();
    if str_eq(name, "eq.setBand") {
        Ok(EqCommand::SetBand)
    } else if str_eq(name, "eq.applyPreset") {
        Ok(EqCommand::ApplyPreset)
    } else if str_eq(name, "eq.setEnabled") {
        Ok(EqCommand::SetEnabled)
    } else if str_eq(name, "eq.getState") {
        Ok(EqCommand::GetState)
    } else if str_eq(name, "eq.reset") {
        Ok(EqCommand::Reset)
    } else {
        Err(PluginError::not_found(concat3("eq 插件不处理命令 '", name, "'")))
    }
}

/// Refuses a band index past the last band.
pub fn check_band(band: usize) -> (r: PluginResult<()>)
    ensures
        r is Ok <==> band < BAND_COUNT,
        r matches Err(e) ==> e@ == err_view(
            ErrorCode::InvalidArgument,
            "EQ band index "@ + decimal(band as nat) + " out of range"@,
        ),
{
    if band >= BAND_COUNT {
        let message = concat3("EQ band index ", decimal_string(band as u64).as_str(), " out of range");
        return Err(PluginError::invalid_argument(message));
    }
    Ok(())
}

/// What reading the integer argument `key` gives, from what it holds: a
/// non-negative JSON integer, or a string of one.
pub open spec fn usize_arg_result(arg: JsonArg, key: Seq<char>) -> Result<usize, ErrorView> {
    match arg {
        JsonArg::Number { as_u64: Some(v), .. } => Ok(v as usize),
        JsonArg::Number { as_u64: None, .. } => Err(
            err_view(ErrorCode::InvalidArgument, "'"@ + key + "' must be a non-negative integer"@),
        ),
        JsonArg::Text(t) => match parse_unsigned(t@) {
            Some(v) => if v <= usize::MAX {
                Ok(v as usize)
            } else {
                Err(err_view(ErrorCode::InvalidArgument, "'"@ + key + "' is not an integer"@))
            },
            None => Err(err_view(ErrorCode::InvalidArgument, "'"@ + key + "' is not an integer"@)),
        },
        _ => Err(err_view(ErrorCode::InvalidArgument, "missing integer '"@ + key + "'"@)),
    }
}

/// Reads the integer argument `key` from what it holds.
pub fn usize_arg(arg: JsonArg, key: &str) -> (r: PluginResult<usize>)
    ensures
        match usize_arg_result(arg, key@) {
            Ok(v) => r == Ok::<usize, PluginError>(v),
            Err(x) => r matches Err(e) && e@ == x,
        },
{
    match arg {
        JsonArg::Number { as_u64: Some(v), .. } => Ok(v as usize),
        JsonArg::Number { as_u64: None, .. } => Err(
            PluginError::invalid_argument(concat3("'", key, "' must be a non-negative integer")),
        ),
        JsonArg::Text(t) => match parse_usize(t.as_str()) {
            Some(v) => Ok(v),
            None => Err(PluginError::invalid_argument(concat3("'", key, "' is not an integer"))),
        },
        _ => Err(PluginError::invalid_argument(concat3("missing integer '", key, "'"))),
    }
}

/// Reads the integer argument `key` of a command.
pub fn read_usize(args: &serde_json::Value, key: &str) -> (r: PluginResult<usize>)
    ensures
        match usize_arg_result(json_arg_of(*args, key@), key@) {
            Ok(v) => r == Ok::<usize, PluginError>(v),
            Err(x) => r matches Err(e) && e@ == x,
        },
{
    let arg = json_arg(args, key);
    let r = usize_arg(arg, key);
    assert(match usize_arg_result(arg, key@) {
        Ok(v) => r == Ok::<usize, PluginError>(v),
        Err(x) => r matches Err(e) && e@ == x,
    });
    r
}

/// What reading the boolean argument `key` gives, from what it holds: a
/// JSON boolean, or the string `true` or `false`.
pub open spec fn bool_arg_result(arg: JsonArg, key: Seq<char>) -> Result<bool, ErrorView> {
    match arg {
        JsonArg::Bool(b) => Ok(b),
        JsonArg::Text(t) => if t@ == "true"@ {
            Ok(true)
        } else if t@ == "false"@ {
            Ok(false)
        } else {
            Err(err_view(ErrorCode::InvalidArgument, "'"@ + key + "' must be a boolean"@))
        },
        _ => Err(err_view(ErrorCode::InvalidArgument, "missing boolean '"@ + key + "'"@)),
    }
}

/// Reads the boolean argument `key` from what it holds.
pub fn bool_arg(arg: JsonArg, key: &str) -> (r: PluginResult<bool>)
    ensures
        match bool_arg_result(arg, key@) {
            Ok(v) => r == Ok::<bool, PluginError>(v),
            Err(x) => r matches Err(e) && e@ == x,
        },
{
    match arg {
        JsonArg::Bool(b) => Ok(b),
        JsonArg::Text(t) => if str_eq(t.as_str(), "true") {
            Ok(true)
        } else if str_eq(t.as_str(), "false") {
            Ok(false)
        } else {
            Err(PluginError::invalid_argument(concat3("'", key, "' must be a boolean")))
        },
        _ => Err(PluginError::invalid_argument(concat3("missing boolean '", key, "'"))),
    }
}

/// Reads the boolean argument `key` of a command.
pub fn read_bool(args: &serde_json::Value, key: &str) -> (r: PluginResult<bool>)
    ensures
        match bool_arg_result(json_arg_of(*args, key@), key@) {
            Ok(v) => r == Ok::<bool, PluginError>(v),
            Err(x) => r matches Err(e) && e@ == x,
        },
{
    let arg = json_arg(args, key);
    let r = bool_arg(arg, key);
    assert(match bool_arg_result(arg, key@) {
        Ok(v) => r == Ok::<bool, PluginError>(v),
        Err(x) => r matches Err(e) && e@ == x,
    });
    r
}

} // verus!
