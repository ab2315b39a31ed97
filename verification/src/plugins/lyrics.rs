//! The lyrics plugin: its id, commands and events, its manifest and
//! descriptor, what it contributes, and the song it is showing. Reading
//! lyrics files and the cache on disk stays with the host.
use vstd::prelude::*;
use vstd::string::*;

use crate::container::text_view;
use crate::error::{err_view, ErrorCode, PluginError, PluginResult};
use crate::event::EventPattern;
use crate::ids::{
    keys_of, lemma_one_dot_valid, lemma_segment_valid, CommandId, EventType, PluginId, Version,
};
use crate::json::{bool_value, json_bool, json_text, text_value, JsonArg};
use crate::lyrics::LyricDocument;
use crate::manifest::{Manifest, PluginTier};
use crate::plugin::{
    CommandSpec, Contribution, MenuSpec, NativeViewSpec, PluginDescriptor, SettingSpec, SidebarSpec,
};
use crate::text::{concat3, str_eq};

verus! {

pub const ID: &'static str = "lyrics";

fn lyrics_id() -> (r: PluginId)
    ensures
        r@ == "lyrics"@,
{
    proof {
        reveal_strlit("lyrics");
        lemma_segment_valid("lyrics"@, "plugin id"@);
    }
    PluginId::new("lyrics").expect("lyrics id is valid")
}

/// The event the host raises when another track starts.
pub fn event_track_changed() -> (r: EventType)
    ensures
        r@ == "track.changed"@,
{
    proof {
        reveal_strlit("track.changed");
        lemma_one_dot_valid("track.changed"@, 5, "event type"@);
    }
    EventType::new("track.changed").expect("static event type is valid")
}

/// The id `lyrics.search`.
pub fn command_search() -> (r: CommandId)
    ensures
        r@ == "lyrics.search"@,
{
    proof {
        reveal_strlit("lyrics.search");
        lemma_one_dot_valid("lyrics.search"@, 6, "command id"@);
    }
    CommandId::new("lyrics.search").expect("static command id is valid")
}

/// The id `lyrics.load`.
pub fn command_load() -> (r: CommandId)
    ensures
        r@ == "lyrics.load"@,
{
    proof {
        reveal_strlit("lyrics.load");
        lemma_one_dot_valid("lyrics.load"@, 6, "command id"@);
    }
    CommandId::new("lyrics.load").expect("static command id is valid")
}

/// The id `lyrics.clearCache`.
pub fn command_clear_cache() -> (r: CommandId)
    ensures
        r@ == "lyrics.clearCache"@,
{
    proof {
        reveal_strlit("lyrics.clearCache");
        lemma_one_dot_valid("lyrics.clearCache"@, 6, "command id"@);
    }
    CommandId::new("lyrics.clearCache").expect("static command id is valid")
}

fn setting(key: &str, title: &str, default_value: serde_json::Value, control: &str) -> (r: SettingSpec)
    ensures
        r.key@ == key@,
        r.title@ == title@,
        r.default_value == default_value,
        r.control@ == control@,
        r.options is None,
{
    SettingSpec {
        key: String::from_str(key),
        title: String::from_str(title),
        default_value,
        control: String::from_str(control),
        options: None,
    }
}

/// The plugin's manifest: a built-in plugin that reads the player and the
/// library and keeps a private cache, with its four settings.
pub fn manifest() -> (r: Manifest)
    ensures
        r.id@ == "lyrics"@,
        r.version@ == (1u32, 0u32, 0u32),
        r.min_host@ == (0u32, 1u32, 0u32),
        r.tier == PluginTier::Feature,
        r.name@ == "lyrics"@,
        r.display_name@ == "Lyrics"@,
        r.author@ == "RustEchoMusic"@,
        r.description@ == "歌词搜索、加载、缓存与同步显示"@,
        keys_of(r.capabilities@) == seq!["player.read"@, "library.read"@, "storage.private"@],
        r.settings@.len() == 4,
        r.settings@[0].key@ == "provider"@ && r.settings@[0].default_value == json_text("local"@)
            && r.settings@[0].control@ == "text"@,
        r.settings@[1].key@ == "auto_search"@ && r.settings@[1].default_value == json_bool(true)
            && r.settings@[1].control@ == "bool"@,
        r.settings@[2].key@ == "auto_scroll"@ && r.settings@[2].default_value == json_bool(true)
            && r.settings@[2].control@ == "bool"@,
        r.settings@[3].key@ == "cache_enabled"@ && r.settings@[3].default_value == json_bool(true)
            && r.settings@[3].control@ == "bool"@,
{
    let mut m = Manifest::builtin(lyrics_id(), Version::new(1, 0, 0), Version::new(0, 1, 0));
    m.name = String::from_str("lyrics");
    m.display_name = String::from_str("Lyrics");
    m.author = String::from_str("RustEchoMusic");
    m.description = String::from_str("歌词搜索、加载、缓存与同步显示");
    let mut capabilities = Vec::new();
    capabilities.push(crate::capabilities::player_read());
    capabilities.push(crate::capabilities::library_read());
    capabilities.push(crate::capabilities::storage_private());
    m.capabilities = capabilities;
    let mut settings = Vec::new();
    settings.push(setting("provider", "歌词来源", text_value("local"), "text"));
    settings.push(setting("auto_search", "自动搜索歌词", bool_value(true), "bool"));
    settings.push(setting("auto_scroll", "自动滚动", bool_value(true), "bool"));
    settings.push(setting("cache_enabled", "启用缓存", bool_value(true), "bool"));
    m.settings = settings;
    assert(keys_of(m.capabilities@) =~= seq!["player.read"@, "library.read"@, "storage.private"@]);
    m
}

/// The lyrics plugin.
pub struct LyricsPlugin {
    descriptor: PluginDescriptor,
}

impl LyricsPlugin {
    pub closed spec fn descriptor_view(&self) -> PluginDescriptor {
        self.descriptor
    }

    /// The plugin, describing itself as `lyrics` 1.0.0 for hosts from 0.1.0.
    pub fn new() -> (r: LyricsPlugin)
        ensures
            r.descriptor_view().id@ == "lyrics"@,
            r.descriptor_view().version@ == (1u32, 0u32, 0u32),
            r.descriptor_view().min_host@ == (0u32, 1u32, 0u32),
            r.descriptor_view().abi == crate::ABI_VERSION,
            r.descriptor_view().display_name@ == "Lyrics"@,
            r.descriptor_view().capabilities@.len() == 0,
            r.descriptor_view().depends_on@.len() == 0,
            r.descriptor_view().optional_depends_on@.len() == 0,
    {
        let descriptor = PluginDescriptor::new(
            lyrics_id(),
            Version::new(1, 0, 0),
            Version::new(0, 1, 0),
        ).with_display_name(String::from_str("Lyrics"));
        LyricsPlugin { descriptor }
    }

    pub fn descriptor(&self) -> (r: &PluginDescriptor)
        ensures
            *r == self.descriptor_view(),
    {
        &self.descriptor
    }
}

fn plain_command(id: CommandId, title: &str) -> (r: Contribution)
    ensures
        r matches Contribution::Command(spec) && spec.id == id && spec.title@ == title@
            && spec.category is None && spec.input_schema is None,
{
    Contribution::Command(
        CommandSpec { id, title: String::from_str(title), category: None, input_schema: None },
    )
}

/// What the plugin contributes when it is activated: its three commands, a
/// side bar entry, the native panel it opens, and a menu entry on tracks.
pub fn lyrics_contributions() -> (r: Vec<Contribution>)
    ensures
        r@.len() == 6,
        r@[0] matches Contribution::Command(s) && s.id@ == "lyrics.search"@ && s.title@
            == "搜索歌词"@,
        r@[1] matches Contribution::Command(s) && s.id@ == "lyrics.load"@ && s.title@
            == "加载歌词"@,
        r@[2] matches Contribution::Command(s) && s.id@ == "lyrics.clearCache"@ && s.title@
            == "清除歌词缓存"@,
        forall|i: int|
            0 <= i < 3 ==> (#[trigger] r@[i] matches Contribution::Command(s) && s.category is None
                && s.input_schema is None),
        r@[3] matches Contribution::SidebarItem(s) && s.id@ == "lyrics"@ && s.title@ == "歌词"@
            && s.icon@ == "lyrics"@ && s.target@ == "lyrics-panel-view"@,
        r@[4] matches Contribution::NativeView(v) && v.id@ == "lyrics-panel-view"@ && v.title@
            == "Lyrics"@ && v.token@ == "lyrics-panel"@ && text_view(v.icon) == Some("lyrics"@),
        r@[5] matches Contribution::MenuItem(m) && m.command@ == "lyrics.search"@ && m.title@
            == "搜索歌词"@ && m.location@ == "track.context"@ && m.group is None && m.order == Some(
            10i32,
        ),
{
    let mut items: Vec<Contribution> = Vec::new();
    items.push(plain_command(command_search(), "搜索歌词"));
    items.push(plain_command(command_load(), "加载歌词"));
    items.push(plain_command(command_clear_cache(), "清除歌词缓存"));
    items.push(
        Contribution::SidebarItem(
            SidebarSpec {
                id: String::from_str("lyrics"),
                title: String::from_str("歌词"),
                icon: String::from_str("lyrics"),
                target: String::from_str("lyrics-panel-view"),
            },
        ),
    );
    items.push(
        Contribution::NativeView(
            NativeViewSpec {
                id: String::from_str("lyrics-panel-view"),
                title: String::from_str("Lyrics"),
                token: String::from_str("lyrics-panel"),
                icon: Some(String::from_str("lyrics")),
            },
        ),
    );
    items.push(
        Contribution::MenuItem(
            MenuSpec {
                command: command_search(),
                title: String::from_str("搜索歌词"),
                location: String::from_str("track.context"),
                group: None,
                order: Some(10),
            },
        ),
    );
    items
}

/// The events the plugin subscribes to: track changes.
pub fn lyrics_subscription() -> (r: EventPattern)
    ensures
        r matches EventPattern::Kinds(kinds) && keys_of(kinds@) == seq!["track.changed"@],
{
    EventPattern::kind(event_track_changed())
}

/// A command the plugin handles.
#[derive(Clone, Copy, PartialEq, Eq, Debug, Structural)]
pub enum LyricsCommand {
    Search,
    Load,
    ClearCache,
}

/// The command `name` names, if the plugin handles it.
pub open spec fn lyrics_command_of(name: Seq<char>) -> Option<LyricsCommand> {
    if name == "lyrics.search"@ {
        Some(LyricsCommand::Search)
    } else if name == "lyrics.load"@ {
        Some(LyricsCommand::Load)
    } else if name == "lyrics.clearCache"@ {
        Some(LyricsCommand::ClearCache)
    } else {
        None
    }
}

/// Which command the plugin is asked to run; refused for a command it does
/// not handle.
pub fn lyrics_command(command: &CommandId) -> (r: PluginResult<LyricsCommand>)
    ensures
        lyrics_command_of(command@) matches Some(c) ==> r == Ok::<LyricsCommand, PluginError>(c),
        lyrics_command_of(command@) is None ==> (r matches Err(e) && e@ == err_view(
            ErrorCode::NotFound,
            "lyrics 不支持命令 '"@ + command@ + "'"@,
        )),
{
    let name = command.as_str();
    if str_eq(name, "lyrics.search") {
        Ok(LyricsCommand::Search)
    } else if str_eq(name, "lyrics.load") {
        Ok(LyricsCommand::Load)
    } else if str_eq(name, "lyrics.clearCache") {
        Ok(LyricsCommand::ClearCache)
    } else {
        Err(PluginError::not_found(concat3("lyrics 不支持命令 '", name, "'")))
    }
}

/// The song id an argument holds: a JSON integer, nothing otherwise.
pub open spec fn song_of(arg: JsonArg) -> Option<i64> {
    match arg {
        JsonArg::Number { as_i64, .. } => as_i64,
        _ => None,
    }
}

/// Reads a song id from an argument.
pub fn song_arg(arg: JsonArg) -> (r: Option<i64>)
    ensures
        r == song_of(arg),
{
    match arg {
        JsonArg::Number { as_i64, .. } => as_i64,
        _ => None,
    }
}

/// The song `lyrics.load` is asked for; refused when `songId` is no
/// integer.
pub fn song_to_load(arg: JsonArg) -> (r: PluginResult<i64>)
    ensures
        song_of(arg) matches Some(id) ==> r == Ok::<i64, PluginError>(id),
        song_of(arg) is None ==> (r matches Err(e) && e@ == err_view(
            ErrorCode::InvalidArgument,
            "lyrics.load 需要 'songId'"@,
        )),
{
    match song_arg(arg) {
        Some(id) => Ok(id),
        None => Err(PluginError::invalid_argument(String::from_str("lyrics.load 需要 'songId'"))),
    }
}

/// A boolean setting of the plugin: on unless it says otherwise.
pub fn bool_setting(value: Option<bool>) -> (r: bool)
    ensures
        r == (match value {
            Some(b) => b,
            None => true,
        }),
{
    match value {
        Some(b) => b,
        None => true,
    }
}

/// The song the plugin is showing and its lyrics, once loaded.
pub struct LyricsState {
    pub song_id: Option<i64>,
    pub lyrics: Option<LyricDocument>,
}

impl LyricsState {
    /// No song.
    pub fn new() -> (r: LyricsState)
        ensures
            r.song_id is None,
            r.lyrics is None,
    {
        LyricsState { song_id: None, lyrics: None }
    }

    /// Takes note of track `track_id` starting: a new song drops the
    /// lyrics shown; says whether the song is new, so that its lyrics are
    /// looked for.
    pub fn track_changed(&mut self, track_id: i64) -> (r: bool)
        ensures
            r == (old(self).song_id != Some(track_id)),
            r ==> final(self).song_id == Some(track_id) && final(self).lyrics is None,
            !r ==> final(self).song_id == old(self).song_id && final(self).lyrics == old(
                self,
            ).lyrics,
    {
        match self.song_id {
            Some(current) => if current == track_id {
                return false;
            },
            None => {},
        }
        self.song_id = Some(track_id);
        self.lyrics = None;
        true
    }

    /// Keeps the lyrics found for `track_id`, unless another song started
    /// meanwhile.
    pub fn found(&mut self, track_id: i64, document: LyricDocument)
        ensures
            final(self).song_id == old(self).song_id,
            old(self).song_id == Some(track_id) ==> final(self).lyrics == Some(document),
            old(self).song_id != Some(track_id) ==> final(self).lyrics == old(self).lyrics,
    {
        match self.song_id {
            Some(current) => if current == track_id {
                self.lyrics = Some(document);
            },
            None => {},
        }
    }

    /// Shows the lyrics loaded on request for song `song_id`.
    pub fn show(&mut self, song_id: i64, document: LyricDocument)
        ensures
            final(self).song_id == Some(song_id),
            final(self).lyrics == Some(document),
    {
        self.song_id = Some(song_id);
        self.lyrics = Some(document);
    }

    /// Forgets the song and its lyrics.
    pub fn clear(&mut self)
        ensures
            final(self).song_id is None,
            final(self).lyrics is None,
    {
        self.song_id = None;
        self.lyrics = None;
    }
}

} // verus!
