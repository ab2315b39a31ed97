use plugin_kernel::error::ErrorCode;
use plugin_kernel::ids::CommandId;
use plugin_kernel::json::JsonArg;
use plugin_kernel::lyrics::{event_lyrics_loaded, lrc_fits, parse_lrc, LyricDocument, LyricLine};
use plugin_kernel::manifest::PluginTier;
use plugin_kernel::plugin::Contribution;
use plugin_kernel::plugins::eq::{
    bool_arg, check_band, eq_command, eq_contributions, read_bool, read_usize, usize_arg, EqCommand,
    EqPlugin, BAND_COUNT,
};
use plugin_kernel::plugins::lyrics::{
    bool_setting, lyrics_command, lyrics_contributions, lyrics_subscription, song_arg, song_to_load,
    LyricsCommand, LyricsPlugin, LyricsState,
};
use plugin_kernel::plugins::recent::{
    i64_arg, page_window, read_i64, recent_command, recent_contributions, records_cap, trim_to,
    RecentCommand, RecentPlugin, DEFAULT_MAX_RECORDS, MAX_PAGE_SIZE,
};
use plugin_kernel::plugins::{lyrics, recent};

fn sample_args() -> serde_json::Value {
    let mut m = serde_json::Map::new();
    m.insert(String::from("band"), serde_json::Value::from(4));
    m.insert(String::from("text"), serde_json::Value::from("12"));
    m.insert(String::from("neg"), serde_json::Value::from(-2));
    m.insert(String::from("enabled"), serde_json::Value::from(true));
    serde_json::Value::Object(m)
}

fn cmd(s: &str) -> CommandId {
    CommandId::new(s).unwrap()
}

fn times(lines: &[LyricLine]) -> Vec<u64> {
    lines.iter().map(|l| l.timestamp_ms).collect()
}

#[test]
fn lrc_lines_are_parsed_and_sorted() {
    let text = "[00:05.10] second\n[ar:Artist]\n\n[00:01.5]first\nno tag\n[01:00:00.001]  hour  \r\n[00:05.10]tie";
    let lines = parse_lrc(text);
    assert_eq!(times(&lines), vec![1500, 5100, 5100, 3_600_001]);
    assert_eq!(lines[0].text, "first");
    assert_eq!(lines[1].text, "second");
    assert_eq!(lines[2].text, "tie");
    assert_eq!(lines[3].text, "hour");
}

#[test]
fn lrc_fraction_widths() {
    assert_eq!(times(&parse_lrc("[00:00.5]a")), vec![500]);
    assert_eq!(times(&parse_lrc("[00:00.25]a")), vec![250]);
    assert_eq!(times(&parse_lrc("[00:00.125]a")), vec![125]);
    assert_eq!(times(&parse_lrc("[00:00.1234]a")), vec![1234]);
    assert!(parse_lrc("[00:00]a\n[1:2:3:4.5]b\n[00:0x.10]c").is_empty());
}

#[test]
fn lrc_range_check() {
    assert!(lrc_fits("[00:01.00]x"));
    assert!(!lrc_fits("[99999999999999999:00.00]x"));
    assert_eq!(event_lyrics_loaded().as_str(), "lyrics.loaded");
}

#[test]
fn eq_plugin_declares_itself() {
    let p = EqPlugin::new();
    assert_eq!(p.descriptor().id.as_str(), "eq");
    assert_eq!(p.descriptor().display_name, "均衡器");
    let items = eq_contributions();
    assert_eq!(items.len(), 8);
    match &items[7] {
        Contribution::MenuItem(m) => {
            assert_eq!(m.command.as_str(), "eq.applyPreset");
            assert_eq!(m.location, "track.context");
            assert_eq!(m.order, Some(10));
        }
        _ => panic!("expected a menu item"),
    }
}

#[test]
fn eq_commands_and_bands() {
    assert_eq!(eq_command(&cmd("eq.reset")).unwrap(), EqCommand::Reset);
    assert_eq!(eq_command(&cmd("eq.setBand")).unwrap(), EqCommand::SetBand);
    let e = eq_command(&cmd("eq.nope")).unwrap_err();
    assert_eq!(e.code(), ErrorCode::NotFound);
    assert_eq!(e.message(), "eq 插件不处理命令 'eq.nope'");
    assert!(check_band(BAND_COUNT - 1).is_ok());
    assert_eq!(check_band(10).unwrap_err().message(), "EQ band index 10 out of range");
}

#[test]
fn eq_reads_arguments() {
    assert_eq!(usize_arg(JsonArg::Number { as_u64: Some(3), as_i64: Some(3) }, "band").unwrap(), 3);
    assert_eq!(
        usize_arg(JsonArg::Number { as_u64: None, as_i64: Some(-1) }, "band").unwrap_err().message(),
        "'band' must be a non-negative integer"
    );
    assert_eq!(usize_arg(JsonArg::Text(String::from("7")), "band").unwrap(), 7);
    assert_eq!(usize_arg(JsonArg::Text(String::from("x")), "band").unwrap_err().message(), "'band' is not an integer");
    assert_eq!(usize_arg(JsonArg::Missing, "band").unwrap_err().message(), "missing integer 'band'");
    assert!(bool_arg(JsonArg::Text(String::from("false")), "on").is_ok_and(|b| !b));
    assert_eq!(bool_arg(JsonArg::Text(String::from("yes")), "on").unwrap_err().message(), "'on' must be a boolean");
    assert_eq!(bool_arg(JsonArg::Other, "on").unwrap_err().message(), "missing boolean 'on'");
}

#[test]
fn eq_reads_json_arguments() {
    let args = sample_args();
    assert_eq!(read_usize(&args, "band").unwrap(), 4);
    assert_eq!(read_usize(&args, "text").unwrap(), 12);
    assert!(read_usize(&args, "neg").is_err());
    assert!(read_bool(&args, "enabled").unwrap());
    assert_eq!(read_bool(&args, "absent").unwrap_err().message(), "missing boolean 'absent'");
}

#[test]
fn recent_plugin_rules() {
    let m = recent::manifest();
    assert_eq!(m.tier, PluginTier::Core);
    assert_eq!(m.settings[0].key, "max_records");
    assert_eq!(m.settings[0].default_value, serde_json::Value::from(100));
    assert_eq!(RecentPlugin::new().descriptor().id.as_str(), "recent");
    assert!(!recent_contributions().is_empty());
    assert_eq!(recent_command(&cmd("recent.add")).unwrap(), RecentCommand::Add);
    assert_eq!(recent_command(&cmd("x")).unwrap_err().message(), "recent 插件不处理命令 'x'");
    assert_eq!(page_window(None, None), (50, 0));
    assert_eq!(page_window(Some(0), Some(-5)), (1, 0));
    assert_eq!(page_window(Some(10_000), Some(20)), (MAX_PAGE_SIZE, 20));
    assert_eq!(records_cap(None), DEFAULT_MAX_RECORDS);
    assert_eq!(records_cap(Some(0)), DEFAULT_MAX_RECORDS);
    assert_eq!(records_cap(Some(7)), 7);
    assert_eq!(trim_to(101, 100), Some(100));
    assert_eq!(trim_to(100, 100), None);
    assert_eq!(i64_arg(JsonArg::Text(String::from("-3"))), Some(-3));
    assert_eq!(i64_arg(JsonArg::Bool(true)), None);
    let args = sample_args();
    assert_eq!(read_i64(&args, "neg"), Some(-2));
    assert_eq!(read_i64(&args, "absent"), None);
}

#[test]
fn lyrics_plugin_rules() {
    let m = lyrics::manifest();
    assert_eq!(m.settings.len(), 4);
    assert_eq!(m.settings[0].default_value, serde_json::Value::from("local"));
    assert_eq!(m.settings[1].default_value, serde_json::Value::from(true));
    assert_eq!(LyricsPlugin::new().descriptor().id.as_str(), "lyrics");
    assert!(!lyrics_contributions().is_empty());
    assert!(lyrics_subscription().may_match(&plugin_kernel::event::kinds::track_changed()));
    assert_eq!(lyrics_command(&cmd("lyrics.clearCache")).unwrap(), LyricsCommand::ClearCache);
    assert_eq!(lyrics_command(&cmd("lyrics.x")).unwrap_err().message(), "lyrics 不支持命令 'lyrics.x'");
    assert_eq!(song_arg(JsonArg::Number { as_u64: Some(9), as_i64: Some(9) }), Some(9));
    assert_eq!(song_arg(JsonArg::Text(String::from("9"))), None);
    assert_eq!(song_to_load(JsonArg::Missing).unwrap_err().message(), "lyrics.load 需要 'songId'");
    assert!(bool_setting(None));
    assert!(!bool_setting(Some(false)));
}

#[test]
fn lyrics_state_follows_tracks() {
    let doc = |id: i64| LyricDocument { song_id: id, lines: vec![LyricLine { timestamp_ms: 0, text: String::from("x") }] };
    let mut s = LyricsState::new();
    assert!(s.track_changed(1));
    assert!(!s.track_changed(1));
    s.found(2, doc(2));
    assert!(s.lyrics.is_none());
    s.found(1, doc(1));
    assert_eq!(s.lyrics.as_ref().unwrap().song_id, 1);
    assert!(s.track_changed(3));
    assert!(s.lyrics.is_none());
    s.show(5, doc(5));
    assert_eq!(s.song_id, Some(5));
    s.clear();
    assert!(s.lyrics.is_none());
}
