use plugin_kernel::error::{retriable_as_none, ErrorCode, PluginError, PluginResult};
use plugin_kernel::text::{
    concat3, decimal_string, find_char_from, has_prefix, parse_i64, parse_u64, parse_usize,
    split_char, str_eq, str_lt, trim_str, white_space,
};

#[test]
fn split_matches_str_split() {
    assert_eq!(split_char("a.b..c", '.'), vec!["a", "b", "", "c"]);
    assert_eq!(split_char("", '.'), vec![""]);
    assert_eq!(find_char_from("abcabc", 'c', 3), 5);
    assert_eq!(find_char_from("abc", 'z', 0), 3);
}

#[test]
fn trim_removes_unicode_white_space() {
    assert_eq!(trim_str(" \t x y \u{3000}"), "x y");
    assert_eq!(trim_str("   "), "");
    assert!(white_space('\u{a0}'));
    assert!(!white_space('x'));
}

#[test]
fn parse_u64_follows_str_parse() {
    assert_eq!(parse_u64("42"), Some(42));
    assert_eq!(parse_u64("+7"), Some(7));
    assert_eq!(parse_u64("18446744073709551615"), Some(u64::MAX));
    assert_eq!(parse_u64("18446744073709551616"), None);
    assert_eq!(parse_u64(""), None);
    assert_eq!(parse_u64("+"), None);
    assert_eq!(parse_u64("-1"), None);
    assert_eq!(parse_u64("1a"), None);
    assert_eq!(parse_usize("12"), Some(12));
}

#[test]
fn parse_i64_follows_str_parse() {
    assert_eq!(parse_i64("-9223372036854775808"), Some(i64::MIN));
    assert_eq!(parse_i64("9223372036854775807"), Some(i64::MAX));
    assert_eq!(parse_i64("9223372036854775808"), None);
    assert_eq!(parse_i64("-"), None);
    assert_eq!(parse_i64("+5"), Some(5));
}

#[test]
fn decimal_and_string_helpers() {
    assert_eq!(decimal_string(0), "0");
    assert_eq!(decimal_string(1907), "1907");
    assert!(str_lt("abc", "abd"));
    assert!(str_lt("ab", "abc"));
    assert!(!str_lt("b", "abc"));
    assert!(str_eq("x", "x"));
    assert_eq!(concat3("a", "b", "c"), "abc");
    assert!(has_prefix("builtin://x", "builtin://"));
    assert!(!has_prefix("bui", "builtin://"));
}

#[test]
fn error_display_form() {
    let e = PluginError::not_found(String::from("missing thing")).with_plugin(String::from("p1"));
    assert_eq!(e.to_string(), "[NotFound] missing thing (plugin=p1)");
    assert_eq!(e.plugin_id(), Some("p1"));
    let e2 = PluginError::timeout(String::from("slow"));
    assert_eq!(e2.to_string(), "[Timeout] slow");
    assert!(e2.is_retriable());
    assert!(!PluginError::invalid_argument(String::from("x")).is_retriable());
}

#[test]
fn error_codes_round_trip_wire_names() {
    let codes = [
        ErrorCode::Plugin,
        ErrorCode::PermissionDenied,
        ErrorCode::NotFound,
        ErrorCode::ServiceUnavailable,
        ErrorCode::DependencyMissing,
        ErrorCode::InvalidArgument,
        ErrorCode::Timeout,
        ErrorCode::Panic,
        ErrorCode::Incompatible,
        ErrorCode::Io,
    ];
    for c in codes {
        assert_eq!(ErrorCode::from_wire_name(c.wire_name()), Some(c));
    }
    assert_eq!(ErrorCode::PermissionDenied.wire_name(), "PERMISSION_DENIED");
    assert_eq!(ErrorCode::from_wire_name("nope"), None);
    assert_eq!(ErrorCode::Io.name(), "Io");
}

#[test]
fn retriable_errors_become_none() {
    let found: PluginResult<u32> = Ok(7);
    assert_eq!(retriable_as_none(found).unwrap(), Some(7));
    let missing: PluginResult<u32> = Err(PluginError::service_unavailable(String::from("later")));
    assert_eq!(retriable_as_none(missing).unwrap(), None);
    let refused: PluginResult<u32> = Err(PluginError::invalid_argument(String::from("bad")));
    let e = retriable_as_none(refused).unwrap_err();
    assert_eq!(e.code(), ErrorCode::InvalidArgument);
    assert_eq!(e.message(), "bad");
}
