//! Lyrics documents and the LRC format they are read from: lines such as
//! `[01:02.50]text`, kept in the order of their time stamps.
use vstd::prelude::*;
use vstd::string::*;

use crate::ids::{lemma_one_dot_valid, EventType};
use crate::order::{keys_ascending, lemma_insert_after_keys, lemma_with_key_push, stably_ordered, with_key};
use crate::text::{
    all_digits, digits_value, is_digit, lemma_digits_value_nonneg, lemma_split_three, lemma_split_two,
    unsigned_body, find_char_from, find_from, lemma_find_from_bounds, lemma_parse_unsigned_nonneg, lemma_split_from_nonempty, parse_u64,
    parse_unsigned, split_char, split_on, trim, trim_str, views,
};

verus! {

/// One timed line of lyrics.
#[derive(Clone, Debug)]
pub struct LyricLine {
    pub timestamp_ms: u64,
    pub text: String,
}

/// The timed lines of one song, in time order.
#[derive(Clone, Debug)]
pub struct LyricDocument {
    pub song_id: i64,
    pub lines: Vec<LyricLine>,
}

/// A song that lyrics were searched for.
#[derive(Clone, Debug)]
pub struct LyricsSearchResult {
    pub song_id: i64,
    pub title: String,
    pub artist: String,
    pub source: String,
}

/// The event the lyrics plugin raises when a song's lyrics are loaded.
pub fn event_lyrics_loaded() -> (r: EventType)
    ensures
        r@ == "lyrics.loaded"@,
{
    proof {
        reveal_strlit("lyrics.loaded");
        lemma_one_dot_valid("lyrics.loaded"@, 6, "event type"@);
    }
    EventType::new("lyrics.loaded").expect("static event type is valid")
}

/// What `str::parse::<u64>` reads from `s`, as a number.
pub open spec fn u64_value(s: Seq<char>) -> Option<int> {
    match parse_unsigned(s) {
        Some(v) => if v <= u64::MAX {
            Some(v)
        } else {
            None
        },
        None => None,
    }
}

/// The milliseconds a fraction of `width` digits with value `value` stands for.
pub open spec fn width_ms(width: int, value: int) -> int {
    if width == 1 {
        value * 100
    } else if width == 2 {
        value * 10
    } else {
        value
    }
}

/// The milliseconds a fraction of a second stands for: one digit counts
/// tenths, two digits hundredths, anything else thousandths.
pub open spec fn fraction_ms(fraction: Seq<char>, value: int) -> int {
    width_ms(fraction.len() as int, value)
}

/// The time in milliseconds of an LRC tag `[h:]m:s.f`, when it is one.
pub open spec fn lrc_timestamp(tag: Seq<char>) -> Option<int> {
    let parts = split_on(tag, ':');
    if parts.len() != 2 && parts.len() != 3 {
        None
    } else {
        let hours = if parts.len() == 2 {
            Some(0int)
        } else {
            u64_value(parts[0])
        };
        let minutes = if parts.len() == 2 {
            u64_value(parts[0])
        } else {
            u64_value(parts[1])
        };
        let secs = if parts.len() == 2 {
            parts[1]
        } else {
            parts[2]
        };
        let sec_parts = split_on(secs, '.');
        if hours is None || minutes is None || sec_parts.len() != 2 {
            None
        } else if u64_value(sec_parts[0]) is None || u64_value(sec_parts[1]) is None {
            None
        } else {
            Some(
                hours->0 * 3600000 + minutes->0 * 60000 + u64_value(sec_parts[0])->0 * 1000
                    + fraction_ms(sec_parts[1], u64_value(sec_parts[1])->0),
            )
        }
    }
}

/// `10` to the power `n`.
pub open spec fn ten_pow(n: nat) -> int
    decreases n,
{
    if n == 0 {
        1
    } else {
        10 * ten_pow((n - 1) as nat)
    }
}

/// A run of `n` digits is worth less than `10^n`.
proof fn lemma_digits_below(s: Seq<char>)
    requires
        all_digits(s),
    ensures
        0 <= digits_value(s) < ten_pow(s.len()),
    decreases s.len(),
{
    lemma_digits_value_nonneg(s);
    if s.len() > 0 {
        let init = s.drop_last();
        assert(all_digits(init)) by {
            assert forall|i: int| 0 <= i < init.len() implies is_digit(#[trigger] init[i]) by {
                assert(init[i] == s[i]);
            }
        }
        lemma_digits_below(init);
        assert(is_digit(s[s.len() - 1]));
        assert(digits_value(s) == digits_value(init) * 10 + (s.last() as int - '0' as int));
        assert(ten_pow(s.len()) == 10 * ten_pow(init.len()));
        assert(digits_value(init) * 10 + 9 < ten_pow(init.len()) * 10) by (nonlinear_arith)
            requires
                digits_value(init) < ten_pow(init.len()),
        ;
    }
}

/// A non-empty run of digits that fits in 64 bits reads as its value.
proof fn lemma_digits_read(s: Seq<char>)
    requires
        s.len() > 0,
        all_digits(s),
        digits_value(s) <= u64::MAX,
    ensures
        u64_value(s) == Some(digits_value(s)),
        !s.contains(':'),
        !s.contains('.'),
{
    assert(is_digit(s[0]));
    assert(unsigned_body(s) == s);
    lemma_digits_value_nonneg(s);
    assert forall|i: int| 0 <= i < s.len() implies s[i] != ':' && s[i] != '.' by {
        assert(is_digit(s[i]));
    }
}

/// The milliseconds that a fraction of one, two or three digits stands
/// for: tenths, hundredths or thousandths of a second.
pub open spec fn fraction_millis(f: Seq<char>) -> int {
    digits_value(f) * (if f.len() == 1 {
        100int
    } else if f.len() == 2 {
        10int
    } else {
        1int
    })
}

/// A two-part tag `m:s.f` is minutes, seconds and a fraction of a second:
/// its time is `m` minutes, `s` seconds and the fraction, in milliseconds.
pub proof fn lemma_lrc_minutes_seconds(m: Seq<char>, sec: Seq<char>, f: Seq<char>)
    requires
        m.len() > 0,
        all_digits(m),
        digits_value(m) <= u64::MAX,
        sec.len() > 0,
        all_digits(sec),
        digits_value(sec) <= u64::MAX,
        1 <= f.len() <= 3,
        all_digits(f),
    ensures
        lrc_timestamp(m + seq![':'] + sec + seq!['.'] + f) == Some(
            digits_value(m) * 60000 + digits_value(sec) * 1000 + fraction_millis(f),
        ),
{
    lemma_digits_below(f);
    reveal_with_fuel(ten_pow, 4);
    lemma_digits_read(m);
    lemma_digits_read(sec);
    lemma_digits_read(f);
    let rest = sec + seq!['.'] + f;
    assert(!rest.contains(':')) by {
        assert forall|i: int| 0 <= i < rest.len() implies rest[i] != ':' by {
            if i < sec.len() {
                assert(rest[i] == sec[i]);
            } else if i > sec.len() {
                assert(rest[i] == f[i - sec.len() - 1]);
            }
        }
    }
    assert(m + seq![':'] + sec + seq!['.'] + f =~= m + seq![':'] + rest);
    lemma_split_two(m, rest, ':');
    lemma_split_two(sec, f, '.');
}

/// A three-part tag `h:m:s.f` is hours, minutes, seconds and a fraction of
/// a second.
pub proof fn lemma_lrc_hours_minutes_seconds(
    h: Seq<char>,
    m: Seq<char>,
    sec: Seq<char>,
    f: Seq<char>,
)
    requires
        h.len() > 0,
        all_digits(h),
        digits_value(h) <= u64::MAX,
        m.len() > 0,
        all_digits(m),
        digits_value(m) <= u64::MAX,
        sec.len() > 0,
        all_digits(sec),
        digits_value(sec) <= u64::MAX,
        1 <= f.len() <= 3,
        all_digits(f),
    ensures
        lrc_timestamp(h + seq![':'] + m + seq![':'] + sec + seq!['.'] + f) == Some(
            digits_value(h) * 3600000 + digits_value(m) * 60000 + digits_value(sec) * 1000
                + fraction_millis(f),
        ),
{
    lemma_digits_below(f);
    reveal_with_fuel(ten_pow, 4);
    lemma_digits_read(h);
    lemma_digits_read(m);
    lemma_digits_read(sec);
    lemma_digits_read(f);
    let rest = sec + seq!['.'] + f;
    assert(!rest.contains(':')) by {
        assert forall|i: int| 0 <= i < rest.len() implies rest[i] != ':' by {
            if i < sec.len() {
                assert(rest[i] == sec[i]);
            } else if i > sec.len() {
                assert(rest[i] == f[i - sec.len() - 1]);
            }
        }
    }
    assert(h + seq![':'] + m + seq![':'] + sec + seq!['.'] + f =~= h + seq![':'] + m + seq![':'] + rest);
    lemma_split_three(h, m, rest, ':');
    lemma_split_two(sec, f, '.');
}

/// The time and text of one trimmed LRC line, when it is one: a `[tag]`
/// time stamp followed by the text.
pub open spec fn lrc_line(line: Seq<char>) -> Option<(int, Seq<char>)> {
    if line.len() == 0 || line[0] != '[' {
        None
    } else {
        let close = find_from(line, ']', 0);
        if close >= line.len() {
            None
        } else {
            match lrc_timestamp(line.subrange(1, close)) {
                Some(t) => Some((t, trim(line.subrange(close + 1, line.len() as int)))),
                None => None,
            }
        }
    }
}

/// The entries of the lines `pieces`, in the order they appear: blank
/// lines and lines that are not LRC lines are skipped.
pub open spec fn lrc_entries(pieces: Seq<Seq<char>>) -> Seq<(int, Seq<char>)>
    decreases pieces.len(),
{
    if pieces.len() == 0 {
        Seq::empty()
    } else {
        let rest = lrc_entries(pieces.drop_last());
        let t = trim(pieces.last());
        if t.len() == 0 {
            rest
        } else {
            match lrc_line(t) {
                Some(e) => rest.push(e),
                None => rest,
            }
        }
    }
}

/// Every time stamp in `content` fits in 64 bits.
pub open spec fn lrc_in_range(content: Seq<char>) -> bool {
    forall|i: int|
        0 <= i < split_on(content, '\n').len() ==> (#[trigger] lrc_line(
            trim(split_on(content, '\n')[i]),
        ) matches Some(e) ==> e.0 <= u64::MAX)
}

pub open spec fn entry_of(l: LyricLine) -> (int, Seq<char>) {
    (l.timestamp_ms as int, l.text@)
}

pub open spec fn entries_of(v: Seq<LyricLine>) -> Seq<(int, Seq<char>)> {
    v.map_values(|l: LyricLine| entry_of(l))
}

/// The fields of an LRC tag: hours, minutes, seconds, the fraction's value
/// and its number of digits.
fn timestamp_fields(tag: &str) -> (r: Option<(u64, u64, u64, u64, usize)>)
    ensures
        r is Some <==> lrc_timestamp(tag@) is Some,
        r matches Some(f) ==> lrc_timestamp(tag@) == Some(
            f.0 * 3600000 + f.1 * 60000 + f.2 * 1000 + width_ms(f.4 as int, f.3 as int),
        ),
{
    let parts = split_char(tag, ':');
    proof {
        lemma_split_from_nonempty(tag@, ':', 0);
    }
    let ghost pv = views(parts@);
    assert(pv == split_on(tag@, ':'));
    if parts.len() != 2 && parts.len() != 3 {
        return None;
    }
    let hours: u64;
    let minutes: u64;
    let secs: &str;
    if parts.len() == 2 {
        assert(pv[0] == parts@[0]@ && pv[1] == parts@[1]@);
        hours = 0;
        minutes = match parse_u64(parts[0].as_str()) {
            Some(v) => v,
            None => {
                return None;
            },
        };
        secs = parts[1].as_str();
        proof {
            lemma_parse_unsigned_nonneg(pv[0]);
        }
        assert(u64_value(pv[0]) == Some(minutes as int));
    } else {
        assert(pv[0] == parts@[0]@ && pv[1] == parts@[1]@ && pv[2] == parts@[2]@);
        hours = match parse_u64(parts[0].as_str()) {
            Some(v) => v,
            None => {
                return None;
            },
        };
        minutes = match parse_u64(parts[1].as_str()) {
            Some(v) => v,
            None => {
                assert(u64_value(pv[1]) is None);
                return None;
            },
        };
        secs = parts[2].as_str();
        proof {
            lemma_parse_unsigned_nonneg(pv[0]);
            lemma_parse_unsigned_nonneg(pv[1]);
        }
        assert(u64_value(pv[0]) == Some(hours as int));
        assert(u64_value(pv[1]) == Some(minutes as int));
    }
    let sec_parts = split_char(secs, '.');
    proof {
        lemma_split_from_nonempty(secs@, '.', 0);
    }
    let ghost sv = views(sec_parts@);
    assert(sv == split_on(secs@, '.'));
    if sec_parts.len() != 2 {
        return None;
    }
    assert(sv[0] == sec_parts@[0]@ && sv[1] == sec_parts@[1]@);
    let seconds = match parse_u64(sec_parts[0].as_str()) {
        Some(v) => v,
        None => {
            return None;
        },
    };
    let fraction = sec_parts[1].as_str();
    let fraction_value = match parse_u64(fraction) {
        Some(v) => v,
        None => {
            return None;
        },
    };
    proof {
        lemma_parse_unsigned_nonneg(sv[0]);
        lemma_parse_unsigned_nonneg(sv[1]);
    }
    assert(u64_value(sv[0]) == Some(seconds as int));
    assert(u64_value(sv[1]) == Some(fraction_value as int));
    let width = fraction.unicode_len();
    Some((hours, minutes, seconds, fraction_value, width))
}

/// The time in milliseconds of an LRC tag `[h:]m:s.f`.
fn parse_lrc_timestamp(tag: &str) -> (r: Option<u64>)
    requires
        lrc_timestamp(tag@) matches Some(t) ==> t <= u64::MAX,
    ensures
        r is Some <==> lrc_timestamp(tag@) is Some,
        r matches Some(v) ==> lrc_timestamp(tag@) == Some(v as int),
{
    match timestamp_fields(tag) {
        Some((hours, minutes, seconds, fraction_value, width)) => {
            let milliseconds = if width == 1 {
                fraction_value * 100
            } else if width == 2 {
                fraction_value * 10
            } else {
                fraction_value
            };
            Some(hours * 3_600_000 + minutes * 60_000 + seconds * 1_000 + milliseconds)
        },
        None => None,
    }
}

/// One trimmed LRC line, when it is one.
fn parse_lrc_line(line: &str) -> (r: Option<LyricLine>)
    requires
        lrc_line(line@) matches Some(e) ==> e.0 <= u64::MAX,
    ensures
        r is Some <==> lrc_line(line@) is Some,
        r matches Some(l) ==> lrc_line(line@) == Some(entry_of(l)),
{
    let n = line.unicode_len();
    if n == 0 || line.get_char(0) != '[' {
        return None;
    }
    let close = find_char_from(line, ']', 0);
    if close >= n {
        return None;
    }
    proof {
        lemma_find_from_bounds(line@, ']', 0);
    }
    let tag = line.substring_char(1, close);
    let rest = line.substring_char(close + 1, n);
    let text = trim_str(rest);
    match parse_lrc_timestamp(tag) {
        Some(timestamp_ms) => Some(LyricLine { timestamp_ms, text }),
        None => None,
    }
}

/// The lines of `content` that are LRC lines, in time order; lines with
/// the same time stamp keep their order.
pub fn parse_lrc(content: &str) -> (r: Vec<LyricLine>)
    requires
        lrc_in_range(content@),
    ensures
        stably_ordered(entries_of(r@), lrc_entries(split_on(content@, '\n'))),
{
    let pieces = split_char(content, '\n');
    let ghost pv = views(pieces@);
    let mut lines: Vec<LyricLine> = Vec::new();
    let mut i: usize = 0;
    while i < pieces.len()
        invariant
            pv == views(pieces@),
            pv == split_on(content@, '\n'),
            lrc_in_range(content@),
            i <= pieces@.len(),
            keys_ascending(entries_of(lines@)),
            forall|t: int|
                #[trigger] with_key(entries_of(lines@), t) == with_key(
                    lrc_entries(pv.take(i as int)),
                    t,
                ),
        decreases pieces@.len() - i,
    {
        assert(pv.take(i + 1).drop_last() =~= pv.take(i as int));
        assert(pv[i as int] == pieces@[i as int]@);
        let trimmed = trim_str(pieces[i].as_str());
        if trimmed.as_str().unicode_len() > 0 {
            assert(lrc_line(trim(pv[i as int])) matches Some(e) ==> e.0 <= u64::MAX);
            match parse_lrc_line(trimmed.as_str()) {
                Some(line) => {
                    let ghost e = entry_of(line);
                    let ghost old_entries = entries_of(lines@);
                    insert_by_time(&mut lines, line);
                    proof {
                        assert(lrc_entries(pv.take(i + 1)) == lrc_entries(pv.take(i as int)).push(e));
                        assert forall|t: int| #[trigger]
                            with_key(entries_of(lines@), t) == with_key(
                                lrc_entries(pv.take(i + 1)),
                                t,
                            ) by {
                            lemma_with_key_push(old_entries, e, t);
                            lemma_with_key_push(lrc_entries(pv.take(i as int)), e, t);
                        }
                    }
                },
                None => {
                    assert(lrc_entries(pv.take(i + 1)) == lrc_entries(pv.take(i as int)));
                },
            }
        } else {
            assert(lrc_entries(pv.take(i + 1)) == lrc_entries(pv.take(i as int)));
        }
        i = i + 1;
    }
    assert(pv.take(i as int) =~= pv);
    lines
}

/// Inserts `line` after every line stamped no later than it.
fn insert_by_time(lines: &mut Vec<LyricLine>, line: LyricLine)
    requires
        keys_ascending(entries_of(old(lines)@)),
    ensures
        keys_ascending(entries_of(final(lines)@)),
        forall|t: int|
            #[trigger] with_key(entries_of(final(lines)@), t) == with_key(
                entries_of(old(lines)@).push(entry_of(line)),
                t,
            ),
{
    let ghost before = entries_of(lines@);
    let ghost x = entry_of(line);
    let mut p: usize = 0;
    while p < lines.len() && lines[p].timestamp_ms <= line.timestamp_ms
        invariant
            p <= lines@.len(),
            before == entries_of(lines@),
            x == entry_of(line),
            forall|k: int| 0 <= k < p ==> (#[trigger] before[k]).0 <= x.0,
        decreases lines@.len() - p,
    {
        p = p + 1;
    }
    proof {
        if p < before.len() {
            assert(before[p as int].0 > x.0);
        }
    }
    lines.insert(p, line);
    proof {
        let after = entries_of(lines@);
        assert(after =~= before.take(p as int).push(x) + before.skip(p as int));
        lemma_insert_after_keys(before, x, p as int);
    }
}

/// Whether every time stamp in `content` fits in 64 bits, so that
/// `parse_lrc` may be called on it.
pub fn lrc_fits(content: &str) -> (r: bool)
    ensures
        r == lrc_in_range(content@),
{
    let pieces = split_char(content, '\n');
    let ghost pv = views(pieces@);
    let mut i: usize = 0;
    while i < pieces.len()
        invariant
            pv == views(pieces@),
            pv == split_on(content@, '\n'),
            i <= pieces@.len(),
            forall|k: int|
                0 <= k < i ==> (#[trigger] lrc_line(trim(pv[k])) matches Some(e) ==> e.0
                    <= u64::MAX),
        decreases pieces@.len() - i,
    {
        assert(pv[i as int] == pieces@[i as int]@);
        let trimmed = trim_str(pieces[i].as_str());
        if !line_in_range(trimmed.as_str()) {
            return false;
        }
        i = i + 1;
    }
    true
}

/// Whether the time stamp of the trimmed line `line`, if it has one, fits
/// in 64 bits.
fn line_in_range(line: &str) -> (r: bool)
    ensures
        r == (lrc_line(line@) matches Some(e) ==> e.0 <= u64::MAX),
{
    let n = line.unicode_len();
    if n == 0 || line.get_char(0) != '[' {
        return true;
    }
    let close = find_char_from(line, ']', 0);
    if close >= n {
        return true;
    }
    proof {
        lemma_find_from_bounds(line@, ']', 0);
    }
    let tag = line.substring_char(1, close);
    timestamp_in_range(tag)
}

/// Whether the time of the tag `tag`, if it has one, fits in 64 bits.
fn timestamp_in_range(tag: &str) -> (r: bool)
    ensures
        r == (lrc_timestamp(tag@) matches Some(t) ==> t <= u64::MAX),
{
    match timestamp_fields(tag) {
        Some((hours, minutes, seconds, fraction_value, width)) => {
            let ms: u128 = if width == 1 {
                fraction_value as u128 * 100
            } else if width == 2 {
                fraction_value as u128 * 10
            } else {
                fraction_value as u128
            };
            let total: u128 = hours as u128 * 3_600_000 + minutes as u128 * 60_000 + seconds as u128
                * 1_000 + ms;
            total <= 0xffff_ffff_ffff_ffffu128
        },
        None => true,
    }
}

} // verus!
