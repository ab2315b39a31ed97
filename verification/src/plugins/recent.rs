//! The recently-played plugin: its id and commands, its manifest and
//! descriptor, what it contributes, and the rules it applies to paging and
//! to how many records it keeps.
use vstd::prelude::*;
use vstd::string::*;

use crate::container::text_view;
use crate::error::{err_view, ErrorCode, PluginError, PluginResult};
use crate::ids::{keys_of, lemma_one_dot_valid, lemma_segment_valid, CommandId, PluginId, Version};
use crate::json::{int_value, json_arg, json_arg_of, json_int, JsonArg};
use crate::manifest::{is_builtin_base, Manifest, PluginTier};
use crate::plugin::{CommandSpec, Contribution, PluginDescriptor, SettingSpec};
use crate::text::{concat3, parse_i64, parse_signed, str_eq};

verus! {

pub const ID: &'static str = "recent";

/// How many records are kept when the plugin's setting says nothing usable.
pub const DEFAULT_MAX_RECORDS: i64 = 100;

/// The largest page a listing returns.
pub const MAX_PAGE_SIZE: i64 = 500;

fn recent_id() -> (r: PluginId)
    ensures
        r@ == "recent"@,
{
    proof {
        reveal_strlit("recent");
        lemma_segment_valid("recent"@, "plugin id"@);
    }
    PluginId::new("recent").expect("recent id is valid")
}

/// The id `recent.list`.
pub fn command_list() -> (r: CommandId)
    ensures
        r@ == "recent.list"@,
{
    proof {
        reveal_strlit("recent.list");
        lemma_one_dot_valid("recent.list"@, 6, "command id"@);
    }
    CommandId::new("recent.list").expect("static command id is valid")
}

/// The id `recent.add`.
pub fn command_add() -> (r: CommandId)
    ensures
        r@ == "recent.add"@,
{
    proof {
        reveal_strlit("recent.add");
        lemma_one_dot_valid("recent.add"@, 6, "command id"@);
    }
    CommandId::new("recent.add").expect("static command id is valid")
}

/// The id `recent.clear`.
pub fn command_clear() -> (r: CommandId)
    ensures
        r@ == "recent.clear"@,
{
    proof {
        reveal_strlit("recent.clear");
        lemma_one_dot_valid("recent.clear"@, 6, "command id"@);
    }
    CommandId::new("recent.clear").expect("static command id is valid")
}

/// The setting that bounds how many records are kept.
fn max_records_setting() -> (r: SettingSpec)
    ensures
        r.key@ == "max_records"@,
        r.title@ == "最多保留条数"@,
        r.default_value == json_int(DEFAULT_MAX_RECORDS),
        r.control@ == "number"@,
        r.options is None,
{
    SettingSpec {
        key: String::from_str("max_records"),
        title: String::from_str("最多保留条数"),
        default_value: int_value(DEFAULT_MAX_RECORDS),
        control: String::from_str("number"),
        options: None,
    }
}

/// The plugin's manifest: a core built-in plugin that may read and write
/// the recently-played records and keeps at most `max_records` of them.
pub fn manifest() -> (r: Manifest)
    ensures
        r.id@ == "recent"@,
        r.version@ == (1u32, 0u32, 0u32),
        r.min_host@ == (0u32, 1u32, 0u32),
        r.tier == PluginTier::Core,
        r.name@ == "recent"@,
        r.display_name@ == "最近播放"@,
        r.author@ == "RustEchoMusic"@,
        r.description@ == "记录并展示最近播放过的曲目"@,
        keys_of(r.capabilities@) == seq!["recent.read"@, "recent.write"@],
        r.settings@.len() == 1,
        r.settings@[0].key@ == "max_records"@,
        r.settings@[0].default_value == json_int(DEFAULT_MAX_RECORDS),
{
    let mut m = Manifest::core_builtin(recent_id(), Version::new(1, 0, 0), Version::new(0, 1, 0));
    m.name = String::from_str("recent");
    m.display_name = String::from_str("最近播放");
    m.author = String::from_str("RustEchoMusic");
    m.description = String::from_str("记录并展示最近播放过的曲目");
    let mut capabilities = Vec::new();
    capabilities.push(crate::capabilities::recent_read());
    capabilities.push(crate::capabilities::recent_write());
    m.capabilities = capabilities;
    let mut settings = Vec::new();
    settings.push(max_records_setting());
    m.settings = settings;
    assert(keys_of(m.capabilities@) =~= seq!["recent.read"@, "recent.write"@]);
    m
}

/// The recently-played plugin.
pub struct RecentPlugin {
    descriptor: PluginDescriptor,
}

impl RecentPlugin {
    pub closed spec fn descriptor_view(&self) -> PluginDescriptor {
        self.descriptor
    }

    /// The plugin, describing itself as `recent` 1.0.0 for hosts from 0.1.0.
    pub fn new() -> (r: RecentPlugin)
        ensures
            r.descriptor_view().id@ == "recent"@,
            r.descriptor_view().version@ == (1u32, 0u32, 0u32),
            r.descriptor_view().min_host@ == (0u32, 1u32, 0u32),
            r.descriptor_view().abi == crate::ABI_VERSION,
            r.descriptor_view().display_name@ == "最近播放"@,
            r.descriptor_view().capabilities@.len() == 0,
            r.descriptor_view().depends_on@.len() == 0,
            r.descriptor_view().optional_depends_on@.len() == 0,
    {
        let descriptor = PluginDescriptor::new(
            recent_id(),
            Version::new(1, 0, 0),
            Version::new(0, 1, 0),
        ).with_display_name(String::from_str("最近播放"));
        RecentPlugin { descriptor }
    }

    pub fn descriptor(&self) -> (r: &PluginDescriptor)
        ensures
            *r == self.descriptor_view(),
    {
        &self.descriptor
    }
}

/// A command with the `recent` category and no input schema.
fn recent_command_spec(id: CommandId, title: &str) -> (r: Contribution)
    ensures
        r matches Contribution::Command(spec) && spec.id == id && spec.title@ == title@
            && text_view(spec.category) == Some("recent"@) && spec.input_schema is None,
{
    Contribution::Command(
        CommandSpec {
            id,
            title: String::from_str(title),
            category: Some(String::from_str("recent")),
            input_schema: None,
        },
    )
}

/// What the plugin contributes when it is activated: its three commands and
/// its `max_records` setting.
pub fn recent_contributions() -> (r: Vec<Contribution>)
    ensures
        r@.len() == 4,
        r@[0] matches Contribution::Command(s) && s.id@ == "recent.list"@ && s.title@
            == "读取最近播放"@,
        r@[1] matches Contribution::Command(s) && s.id@ == "recent.add"@ && s.title@
            == "记录一次播放"@,
        r@[2] matches Contribution::Command(s) && s.id@ == "recent.clear"@ && s.title@
            == "清空最近播放"@,
        forall|i: int|
            0 <= i < 3 ==> (#[trigger] r@[i] matches Contribution::Command(s) && text_view(s.category)
                == Some("recent"@) && s.input_schema is None),
        r@[3] matches Contribution::Setting(s) && s.key@ == "max_records"@ && s.title@
            == "最多保留条数"@ && s.default_value == json_int(DEFAULT_MAX_RECORDS) && s.control@
            == "number"@ && s.options is None,
{
    let mut items: Vec<Contribution> = Vec::new();
    items.push(recent_command_spec(command_list(), "读取最近播放"));
    items.push(recent_command_spec(command_add(), "记录一次播放"));
    items.push(recent_command_spec(command_clear(), "清空最近播放"));
    items.push(Contribution::Setting(max_records_setting()));
    items
}

/// A command the plugin handles.
#[derive(Clone, Copy, PartialEq, Eq, Debug, Structural)]
pub enum RecentCommand {
    List,
    Add,
    Clear,
}

/// The command `name` names, if the plugin handles it.
pub open spec fn recent_command_of(name: Seq<char>) -> Option<RecentCommand> {
    if name == "recent.list"@ {
        Some(RecentCommand::List)
    } else if name == "recent.add"@ {
        Some(RecentCommand::Add)
    } else if name == "recent.clear"@ {
        Some(RecentCommand::Clear)
    } else {
        None
    }
}

/// Which command the plugin is asked to run; refused for a command it does
/// not handle.
pub fn recent_command(command: &CommandId) -> (r: PluginResult<RecentCommand>)
    ensures
        recent_command_of(command@) matches Some(c) ==> r == Ok::<RecentCommand, PluginError>(c),
        recent_command_of(command@) is None ==> (r matches Err(e) && e@ == err_view(
            ErrorCode::NotFound,
            "recent 插件不处理命令 '"@ + command@ + "'"@,
        )),
{
    let name = command.as_str();
    if str_eq(name, "recent.list") {
        Ok(RecentCommand::List)
    } else if str_eq(name, "recent.add") {
        Ok(RecentCommand::Add)
    } else if str_eq(name, "recent.clear") {
        Ok(RecentCommand::Clear)
    } else {
        Err(PluginError::not_found(concat3("recent 插件不处理命令 '", name, "'")))
    }
}

/// What reading the integer argument `key` gives, from what it holds: a
/// JSON integer, or a string of one; nothing otherwise.
pub open spec fn i64_arg_result(arg: JsonArg) -> Option<i64> {
    match arg {
        JsonArg::Number { as_i64, .. } => as_i64,
        JsonArg::Text(t) => match parse_signed(t@) {
            Some(v) => if i64::MIN <= v <= i64::MAX {
                Some(v as i64)
            } else {
                None
            },
            None => None,
        },
        _ => None,
    }
}

/// Reads an integer argument from what it holds.
pub fn i64_arg(arg: JsonArg) -> (r: Option<i64>)
    ensures
        r == i64_arg_result(arg),
{
    match arg {
        JsonArg::Number { as_i64, .. } => as_i64,
        JsonArg::Text(t) => parse_i64(t.as_str()),
        _ => None,
    }
}

/// Reads the integer argument `key` of a command.
pub fn read_i64(args: &serde_json::Value, key: &str) -> (r: Option<i64>)
    ensures
        r == i64_arg_result(json_arg_of(*args, key@)),
{
    let arg = json_arg(args, key);
    let r = i64_arg(arg);
    assert(r == i64_arg_result(arg));
    r
}

/// The page a listing asks for: `limit` (50 by default) brought into
/// `1..=MAX_PAGE_SIZE`, and `offset` (0 by default) at least 0.
pub open spec fn page_of(limit: Option<i64>, offset: Option<i64>) -> (i64, i64) {
    let l = match limit {
        Some(v) => v,
        None => 50,
    };
    let o = match offset {
        Some(v) => v,
        None => 0,
    };
    (
        if l < 1 {
            1
        } else if l > MAX_PAGE_SIZE {
            MAX_PAGE_SIZE
        } else {
            l
        },
        if o < 0 {
            0
        } else {
            o
        },
    )
}

/// The page a listing asks for, from its optional arguments.
pub fn page_window(limit: Option<i64>, offset: Option<i64>) -> (r: (i64, i64))
    ensures
        r == page_of(limit, offset),
{
    let l = match limit {
        Some(v) => v,
        None => 50,
    };
    let o = match offset {
        Some(v) => v,
        None => 0,
    };
    let l = if l < 1 {
        1
    } else if l > MAX_PAGE_SIZE {
        MAX_PAGE_SIZE
    } else {
        l
    };
    let o = if o < 0 {
        0
    } else {
        o
    };
    (l, o)
}

/// How many records are kept: the plugin's setting when it is a positive
/// integer, `DEFAULT_MAX_RECORDS` otherwise.
pub fn records_cap(setting: Option<i64>) -> (r: i64)
    ensures
        r == (match setting {
            Some(v) => if v > 0 {
                v
            } else {
                DEFAULT_MAX_RECORDS
            },
            None => DEFAULT_MAX_RECORDS,
        }),
{
    match setting {
        Some(v) => if v > 0 {
            v
        } else {
            DEFAULT_MAX_RECORDS
        },
        None => DEFAULT_MAX_RECORDS,
    }
}

/// After a play is recorded: how many records to keep when `count` exceeds
/// the cap, or `None` when nothing needs trimming.
pub fn trim_to(count: i64, cap: i64) -> (r: Option<i64>)
    ensures
        r == (if count > cap {
            Some(cap)
        } else {
            None::<i64>
        }),
{
    if count > cap {
        Some(cap)
    } else {
        None
    }
}

/// A listing never asks for less than one record or more than
/// `MAX_PAGE_SIZE`, nor from before the first.
pub proof fn lemma_page_in_bounds(limit: Option<i64>, offset: Option<i64>)
    ensures
        1 <= page_of(limit, offset).0 <= MAX_PAGE_SIZE,
        page_of(limit, offset).1 >= 0,
        forall|l: i64| limit == Some(l) && 1 <= l <= MAX_PAGE_SIZE ==> page_of(limit, offset).0 == l,
        forall|o: i64| offset == Some(o) && o >= 0 ==> page_of(limit, offset).1 == o,
{
}

} // verus!
