//! Validated identifiers (plugin, service, contribution point, command,
//! capability and event type ids) and semantic versions.
use vstd::prelude::*;
use vstd::string::*;

use crate::text::{concat2, concat3, all_digits, decimal, decimal_string, digit_char, digits_value, is_digit, unsigned_body, find_from, lemma_find_from_bounds, parse_u64, split_from, parse_unsigned, lemma_parse_unsigned_nonneg, lemma_split_from_nonempty, seq_lt, split_char, split_on, str_eq, str_lt, views};

verus! {

/// The error of an identifier or version check: a human readable message.
pub type IdError = String;

/// Characters allowed inside one identifier segment: `[A-Za-z0-9._-]`.
pub open spec fn is_segment_char(c: char) -> bool {
    ('a' <= c && c <= 'z') || ('A' <= c && c <= 'Z') || ('0' <= c && c <= '9') || c == '.'
        || c == '_' || c == '-'
}

pub open spec fn all_segment_chars_spec(s: Seq<char>) -> bool {
    forall|i: int| 0 <= i < s.len() ==> is_segment_char(#[trigger] s[i])
}

/// Length of `s` in UTF-8 bytes (what `str::len` reports).
pub open spec fn byte_len(s: Seq<char>) -> int {
    vstd::utf8::encode_utf8(s).len() as int
}

/// `None` when `value` is a valid identifier segment, otherwise the message
/// that `validate_segment` reports.
pub open spec fn segment_error(value: Seq<char>, label: Seq<char>) -> Option<Seq<char>> {
    if value.len() == 0 {
        Some(label + " must not be empty"@)
    } else if byte_len(value) > 128 {
        Some(label + " must be at most 128 characters"@)
    } else if !all_segment_chars_spec(value) {
        Some(label + " '"@ + value + "' may only contain [A-Za-z0-9._-]"@)
    } else {
        None
    }
}

/// `None` when `value` is a valid dotted identifier (one or two segments),
/// otherwise the message that `validate_dotted` reports.
pub open spec fn dotted_error(value: Seq<char>, label: Seq<char>) -> Option<Seq<char>> {
    let parts = split_on(value, '.');
    if byte_len(value) > 192 {
        Some(label + " must be at most 192 characters"@)
    } else if parts.len() <= 1 {
        segment_error(parts[0], label)
    } else if segment_error(parts[0], label) is Some {
        segment_error(parts[0], label)
    } else if segment_error(parts[1], label) is Some {
        segment_error(parts[1], label)
    } else if parts.len() > 2 {
        Some(label + " '"@ + value + "' must have at most two dot-separated segments"@)
    } else {
        None
    }
}

/// A value of ASCII segment characters, at most 128 long, with exactly one
/// dot strictly inside, is a valid two-segment dotted identifier.
pub proof fn lemma_one_dot_valid(s: Seq<char>, k: int, label: Seq<char>)
    requires
        0 < k < s.len() - 1,
        s.len() <= 128,
        s[k] == '.',
        vstd::utf8::is_ascii_chars(s),
        forall|i: int|
            0 <= i < s.len() && i != k ==> #[trigger] s[i] != '.' && is_segment_char(s[i]),
    ensures
        dotted_error(s, label) is None,
{
    vstd::utf8::is_ascii_chars_encode_utf8(s);
    lemma_find_from_bounds(s, '.', 0);
    lemma_find_from_bounds(s, '.', k + 1);
    let a = s.subrange(0, k);
    let b = s.subrange(k + 1, s.len() as int);
    assert(find_from(s, '.', 0) == k);
    assert(find_from(s, '.', k + 1) == s.len());
    assert(split_from(s, '.', k + 1) == seq![b]);
    assert(split_on(s, '.') == seq![a, b]);
    assert(vstd::utf8::is_ascii_chars(a));
    assert(vstd::utf8::is_ascii_chars(b));
    vstd::utf8::is_ascii_chars_encode_utf8(a);
    vstd::utf8::is_ascii_chars_encode_utf8(b);
    assert(all_segment_chars_spec(a));
    assert forall|i: int| 0 <= i < b.len() implies is_segment_char(#[trigger] b[i]) by {
        assert(b[i] == s[k + 1 + i]);
    }
}

/// A non-empty value of ASCII segment characters, at most 128 long, is a
/// valid segment.
pub proof fn lemma_segment_valid(s: Seq<char>, label: Seq<char>)
    requires
        0 < s.len() <= 128,
        vstd::utf8::is_ascii_chars(s),
        all_segment_chars_spec(s),
    ensures
        segment_error(s, label) is None,
{
    vstd::utf8::is_ascii_chars_encode_utf8(s);
}

pub fn segment_char_ok(c: char) -> (r: bool)
    ensures
        r == is_segment_char(c),
{
    ('a' <= c && c <= 'z') || ('A' <= c && c <= 'Z') || ('0' <= c && c <= '9') || c == '.'
        || c == '_' || c == '-'
}

fn all_segment_chars(value: &str) -> (r: bool)
    ensures
        r == all_segment_chars_spec(value@),
{
    let n = value.unicode_len();
    let mut i: usize = 0;
    while i < n
        invariant
            n == value@.len(),
            i <= n,
            forall|j: int| 0 <= j < i ==> is_segment_char(#[trigger] value@[j]),
        decreases n - i,
    {
        if !segment_char_ok(value.get_char(i)) {
            return false;
        }
        i = i + 1;
    }
    true
}

/// Checks one identifier segment: non-empty, at most 128 bytes, and made of
/// `[A-Za-z0-9._-]` only.
pub fn validate_segment(value: &str, label: &str) -> (r: Result<(), IdError>)
    ensures
        r is Ok <==> segment_error(value@, label@) is None,
        r matches Err(e) ==> Some(e@) == segment_error(value@, label@),
{
    if value.unicode_len() == 0 {
        return Err(concat2(label, " must not be empty"));
    }
    if value.as_bytes().len() > 128 {
        return Err(concat2(label, " must be at most 128 characters"));
    }
    if !all_segment_chars(value) {
        let mut message = concat3(label, " '", value);
        message.append("' may only contain [A-Za-z0-9._-]");
        return Err(message);
    }
    Ok(())
}

/// Checks a dotted identifier: at most 192 bytes and one or two valid
/// segments separated by `.`.
pub fn validate_dotted(value: &str, label: &str) -> (r: Result<(), IdError>)
    ensures
        r is Ok <==> dotted_error(value@, label@) is None,
        r matches Err(e) ==> Some(e@) == dotted_error(value@, label@),
{
    if value.as_bytes().len() > 192 {
        return Err(concat2(label, " must be at most 192 characters"));
    }
    let parts = split_char(value, '.');
    proof {
        lemma_split_from_nonempty(value@, '.', 0);
    }
    let ghost pv = views(parts@);
    assert(pv[0] == parts@[0]@);
    if parts.len() <= 1 {
        return validate_segment(parts[0].as_str(), label);
    }
    assert(pv[1] == parts@[1]@);
    validate_segment(parts[0].as_str(), label)?;
    validate_segment(parts[1].as_str(), label)?;
    if parts.len() > 2 {
        let mut message = concat3(label, " '", value);
        message.append("' must have at most two dot-separated segments");
        return Err(message);
    }
    Ok(())
}

/// Identifier of a plugin: one segment.
#[derive(Clone, PartialEq, Eq, Hash, PartialOrd, Ord, Debug)]
pub struct PluginId(String);

impl View for PluginId {
    type V = Seq<char>;

    closed spec fn view(&self) -> Seq<char> {
        self.0@
    }
}

impl PluginId {
    /// Accepts `value` when it is a valid segment.
    pub fn new(value: &str) -> (r: Result<PluginId, IdError>)
        ensures
            r is Ok <==> segment_error(value@, "plugin id"@) is None,
            r matches Ok(id) ==> id@ == value@,
            r matches Err(e) ==> Some(e@) == segment_error(value@, "plugin id"@),
    {
        validate_segment(value, "plugin id")?;
        Ok(PluginId(String::from_str(value)))
    }

    pub fn as_str(&self) -> (r: &str)
        ensures
            r@ == self@,
    {
        self.0.as_str()
    }

    /// The id as an owned string (its `Display` form).
    pub fn to_string(&self) -> (r: String)
        ensures
            r@ == self@,
    {
        self.0.clone()
    }

    pub fn same(&self, other: &PluginId) -> (r: bool)
        ensures
            r == (self@ == other@),
    {
        str_eq(self.0.as_str(), other.0.as_str())
    }

    pub fn precedes(&self, other: &PluginId) -> (r: bool)
        ensures
            r == seq_lt(self@, other@),
    {
        str_lt(self.0.as_str(), other.0.as_str())
    }

    pub fn duplicate(&self) -> (r: PluginId)
        ensures
            r@ == self@,
            r == *self,
    {
        PluginId(self.0.clone())
    }
}

/// Identifier of a service: one or two dotted segments.
#[derive(Clone, PartialEq, Eq, Hash, PartialOrd, Ord, Debug)]
pub struct ServiceId(String);

impl View for ServiceId {
    type V = Seq<char>;

    closed spec fn view(&self) -> Seq<char> {
        self.0@
    }
}

impl ServiceId {
    pub fn new(value: &str) -> (r: Result<ServiceId, IdError>)
        ensures
            r is Ok <==> dotted_error(value@, "service id"@) is None,
            r matches Ok(id) ==> id@ == value@,
            r matches Err(e) ==> Some(e@) == dotted_error(value@, "service id"@),
    {
        validate_dotted(value, "service id")?;
        Ok(ServiceId(String::from_str(value)))
    }

    pub fn as_str(&self) -> (r: &str)
        ensures
            r@ == self@,
    {
        self.0.as_str()
    }

    pub fn to_string(&self) -> (r: String)
        ensures
            r@ == self@,
    {
        self.0.clone()
    }

    pub fn same(&self, other: &ServiceId) -> (r: bool)
        ensures
            r == (self@ == other@),
    {
        str_eq(self.0.as_str(), other.0.as_str())
    }

    pub fn precedes(&self, other: &ServiceId) -> (r: bool)
        ensures
            r == seq_lt(self@, other@),
    {
        str_lt(self.0.as_str(), other.0.as_str())
    }

    pub fn duplicate(&self) -> (r: ServiceId)
        ensures
            r@ == self@,
            r == *self,
    {
        ServiceId(self.0.clone())
    }
}

/// Identifier of a contribution point: one or two dotted segments.
#[derive(Clone, PartialEq, Eq, Hash, PartialOrd, Ord, Debug)]
pub struct ContributionPointId(String);

impl View for ContributionPointId {
    type V = Seq<char>;

    closed spec fn view(&self) -> Seq<char> {
        self.0@
    }
}

impl ContributionPointId {
    pub fn new(value: &str) -> (r: Result<ContributionPointId, IdError>)
        ensures
            r is Ok <==> dotted_error(value@, "contribution point id"@) is None,
            r matches Ok(id) ==> id@ == value@,
            r matches Err(e) ==> Some(e@) == dotted_error(value@, "contribution point id"@),
    {
        validate_dotted(value, "contribution point id")?;
        Ok(ContributionPointId(String::from_str(value)))
    }

    pub fn as_str(&self) -> (r: &str)
        ensures
            r@ == self@,
    {
        self.0.as_str()
    }

    pub fn to_string(&self) -> (r: String)
        ensures
            r@ == self@,
    {
        self.0.clone()
    }

    pub fn same(&self, other: &ContributionPointId) -> (r: bool)
        ensures
            r == (self@ == other@),
    {
        str_eq(self.0.as_str(), other.0.as_str())
    }

    pub fn precedes(&self, other: &ContributionPointId) -> (r: bool)
        ensures
            r == seq_lt(self@, other@),
    {
        str_lt(self.0.as_str(), other.0.as_str())
    }

    pub fn duplicate(&self) -> (r: ContributionPointId)
        ensures
            r@ == self@,
            r == *self,
    {
        ContributionPointId(self.0.clone())
    }
}

/// Identifier of a command: one or two dotted segments.
#[derive(Clone, PartialEq, Eq, Hash, PartialOrd, Ord, Debug)]
pub struct CommandId(String);

impl View for CommandId {
    type V = Seq<char>;

    closed spec fn view(&self) -> Seq<char> {
        self.0@
    }
}

impl CommandId {
    pub fn new(value: &str) -> (r: Result<CommandId, IdError>)
        ensures
            r is Ok <==> dotted_error(value@, "command id"@) is None,
            r matches Ok(id) ==> id@ == value@,
            r matches Err(e) ==> Some(e@) == dotted_error(value@, "command id"@),
    {
        validate_dotted(value, "command id")?;
        Ok(CommandId(String::from_str(value)))
    }

    pub fn as_str(&self) -> (r: &str)
        ensures
            r@ == self@,
    {
        self.0.as_str()
    }

    pub fn to_string(&self) -> (r: String)
        ensures
            r@ == self@,
    {
        self.0.clone()
    }

    pub fn same(&self, other: &CommandId) -> (r: bool)
        ensures
            r == (self@ == other@),
    {
        str_eq(self.0.as_str(), other.0.as_str())
    }

    pub fn duplicate(&self) -> (r: CommandId)
        ensures
            r@ == self@,
            r == *self,
    {
        CommandId(self.0.clone())
    }
}

/// A permission a plugin declares: one or two dotted segments.
#[derive(Clone, PartialEq, Eq, Hash, PartialOrd, Ord, Debug)]
pub struct Capability(String);

impl View for Capability {
    type V = Seq<char>;

    closed spec fn view(&self) -> Seq<char> {
        self.0@
    }
}

impl Capability {
    pub fn new(value: &str) -> (r: Result<Capability, IdError>)
        ensures
            r is Ok <==> dotted_error(value@, "capability"@) is None,
            r matches Ok(id) ==> id@ == value@,
            r matches Err(e) ==> Some(e@) == dotted_error(value@, "capability"@),
    {
        validate_dotted(value, "capability")?;
        Ok(Capability(String::from_str(value)))
    }

    pub fn as_str(&self) -> (r: &str)
        ensures
            r@ == self@,
    {
        self.0.as_str()
    }

    pub fn to_string(&self) -> (r: String)
        ensures
            r@ == self@,
    {
        self.0.clone()
    }

    pub fn same(&self, other: &Capability) -> (r: bool)
        ensures
            r == (self@ == other@),
    {
        str_eq(self.0.as_str(), other.0.as_str())
    }

    pub fn duplicate(&self) -> (r: Capability)
        ensures
            r@ == self@,
            r == *self,
    {
        Capability(self.0.clone())
    }
}

/// Kind of a host or plugin event: one or two dotted segments.
#[derive(Clone, PartialEq, Eq, Hash, PartialOrd, Ord, Debug)]
pub struct EventType(String);

impl View for EventType {
    type V = Seq<char>;

    closed spec fn view(&self) -> Seq<char> {
        self.0@
    }
}

impl EventType {
    pub fn new(value: &str) -> (r: Result<EventType, IdError>)
        ensures
            r is Ok <==> dotted_error(value@, "event type"@) is None,
            r matches Ok(id) ==> id@ == value@,
            r matches Err(e) ==> Some(e@) == dotted_error(value@, "event type"@),
    {
        validate_dotted(value, "event type")?;
        Ok(EventType(String::from_str(value)))
    }

    pub fn as_str(&self) -> (r: &str)
        ensures
            r@ == self@,
    {
        self.0.as_str()
    }

    pub fn to_string(&self) -> (r: String)
        ensures
            r@ == self@,
    {
        self.0.clone()
    }

    pub fn same(&self, other: &EventType) -> (r: bool)
        ensures
            r == (self@ == other@),
    {
        str_eq(self.0.as_str(), other.0.as_str())
    }

    pub fn duplicate(&self) -> (r: EventType)
        ensures
            r@ == self@,
            r == *self,
    {
        EventType(self.0.clone())
    }
}

/// `str::parse::<u32>`: the value of `s` when it is an unsigned decimal
/// number that fits in a `u32`.
pub open spec fn parse_u32_spec(s: Seq<char>) -> Option<u32> {
    match parse_unsigned(s) {
        Some(v) => if 0 <= v <= u32::MAX {
            Some(v as u32)
        } else {
            None
        },
        None => None,
    }
}

/// What `Version::parse` gives for `s`: the three numbers, or the message.
pub open spec fn parse_version_spec(s: Seq<char>) -> Result<(u32, u32, u32), Seq<char>> {
    let parts = split_on(s, '.');
    let head = "version '"@ + s;
    if parse_u32_spec(parts[0]) is None {
        Err(head + "' has non-numeric major"@)
    } else if parts.len() < 2 {
        Err(head + "' is missing minor"@)
    } else if parse_u32_spec(parts[1]) is None {
        Err(head + "' has non-numeric minor"@)
    } else if parts.len() < 3 {
        Err(head + "' is missing patch"@)
    } else if parse_u32_spec(parts[2]) is None {
        Err(head + "' has non-numeric patch"@)
    } else if parts.len() > 3 {
        Err(head + "' must have exactly 3 segments"@)
    } else {
        Ok((parse_u32_spec(parts[0])->0, parse_u32_spec(parts[1])->0, parse_u32_spec(parts[2])->0))
    }
}

/// Strict order of versions: by major, then minor, then patch.
pub open spec fn version_lt(a: (u32, u32, u32), b: (u32, u32, u32)) -> bool {
    a.0 < b.0 || (a.0 == b.0 && (a.1 < b.1 || (a.1 == b.1 && a.2 < b.2)))
}

/// `major.minor.patch` as text.
pub open spec fn version_text(v: (u32, u32, u32)) -> Seq<char> {
    decimal(v.0 as nat) + "."@ + decimal(v.1 as nat) + "."@ + decimal(v.2 as nat)
}

/// The decimal form of `n` is a non-empty run of digits whose value is `n`.
proof fn lemma_decimal_digits(n: nat)
    ensures
        decimal(n).len() >= 1,
        all_digits(decimal(n)),
        digits_value(decimal(n)) == n,
    decreases n,
{
    if n < 10 {
        let d = decimal(n);
        assert(d == seq![digit_char(n)]);
        assert(d.drop_last() =~= Seq::<char>::empty());
        assert(digit_char(n) as int - '0' as int == n);
        assert(digits_value(d) == digits_value(d.drop_last()) * 10 + (d.last() as int - '0' as int));
        assert(digits_value(d.drop_last()) == 0);
    } else {
        lemma_decimal_digits(n / 10);
        let d = decimal(n);
        let h = decimal(n / 10);
        let m = (n % 10) as nat;
        assert(d == h + seq![digit_char(m)]);
        assert(d.drop_last() =~= h);
        assert(d.last() == digit_char(m));
        assert(digit_char(m) as int - '0' as int == m);
        assert(digits_value(d) == digits_value(h) * 10 + m);
        assert((n / 10) * 10 + n % 10 == n) by (nonlinear_arith);
        assert(all_digits(d)) by {
            assert forall|i: int| 0 <= i < d.len() implies is_digit(#[trigger] d[i]) by {
                if i < h.len() {
                    assert(d[i] == h[i]);
                }
            }
        }
    }
}

/// The first `c` at or after `from` is at `k` when `s` has `c` at `k` and
/// none before it from `from` on; `s.len()` when there is none from `from`.
proof fn lemma_find_at(s: Seq<char>, c: char, from: int, k: int)
    requires
        0 <= from <= k <= s.len(),
        k < s.len() ==> s[k] == c,
        forall|i: int| from <= i < k ==> s[i] != c,
    ensures
        find_from(s, c, from) == k,
    decreases k - from,
{
    if from < k {
        lemma_find_at(s, c, from + 1, k);
    }
}

/// A version's text reads back as that version.
pub proof fn lemma_version_text_parses(v: (u32, u32, u32))
    ensures
        parse_version_spec(version_text(v)) == Ok::<(u32, u32, u32), Seq<char>>(v),
{
    let a = decimal(v.0 as nat);
    let b = decimal(v.1 as nat);
    let c = decimal(v.2 as nat);
    lemma_decimal_digits(v.0 as nat);
    lemma_decimal_digits(v.1 as nat);
    lemma_decimal_digits(v.2 as nat);
    let s = version_text(v);
    assert(s == a + "."@ + b + "."@ + c);
    reveal_strlit(".");
    let la = a.len() as int;
    let lb = b.len() as int;
    let lc = c.len() as int;
    assert(s.len() == la + 1 + lb + 1 + lc);
    assert(s.subrange(0, la) =~= a);
    assert(s.subrange(la + 1, la + 1 + lb) =~= b);
    assert(s.subrange(la + lb + 2, s.len() as int) =~= c);
    assert(s[la] == '.');
    assert(s[la + 1 + lb] == '.');
    assert forall|i: int| 0 <= i < la implies s[i] != '.' by {
        assert(s[i] == a[i]);
        assert(is_digit(a[i]));
    }
    assert forall|i: int| la + 1 <= i < la + 1 + lb implies s[i] != '.' by {
        assert(s[i] == b[i - la - 1]);
        assert(is_digit(b[i - la - 1]));
    }
    assert forall|i: int| la + lb + 2 <= i < s.len() implies s[i] != '.' by {
        assert(s[i] == c[i - la - lb - 2]);
        assert(is_digit(c[i - la - lb - 2]));
    }
    lemma_find_at(s, '.', 0, la);
    lemma_find_at(s, '.', la + 1, la + 1 + lb);
    lemma_find_at(s, '.', la + lb + 2, s.len() as int);
    let p2 = split_from(s, '.', la + lb + 2);
    assert(p2 == seq![c]);
    let p1 = split_from(s, '.', la + 1);
    assert(p1 == seq![b] + p2);
    let p0 = split_from(s, '.', 0);
    assert(p0 == seq![a] + p1);
    let parts = split_on(s, '.');
    assert(parts =~= seq![a, b, c]);
    assert(unsigned_body(a) == a);
    assert(unsigned_body(b) == b);
    assert(unsigned_body(c) == c);
}

/// A `major.minor.patch` version.
#[derive(Clone, Copy, PartialEq, Eq, Hash, Debug, Structural)]
pub struct Version {
    major: u32,
    minor: u32,
    patch: u32,
}

impl View for Version {
    type V = (u32, u32, u32);

    closed spec fn view(&self) -> (u32, u32, u32) {
        (self.major, self.minor, self.patch)
    }
}

fn parse_u32(s: &str) -> (r: Option<u32>)
    ensures
        r == parse_u32_spec(s@),
{
    proof {
        lemma_parse_unsigned_nonneg(s@);
    }
    match parse_u64(s) {
        Some(v) => if v <= 4294967295u64 {
            Some(v as u32)
        } else {
            None
        },
        None => None,
    }
}

impl Version {
    pub fn new(major: u32, minor: u32, patch: u32) -> (r: Version)
        ensures
            r@ == (major, minor, patch),
    {
        Version { major, minor, patch }
    }

    pub fn major(&self) -> (r: u32)
        ensures
            r == self@.0,
    {
        self.major
    }

    pub fn minor(&self) -> (r: u32)
        ensures
            r == self@.1,
    {
        self.minor
    }

    pub fn patch(&self) -> (r: u32)
        ensures
            r == self@.2,
    {
        self.patch
    }

    /// `self < other` in version order.
    pub fn precedes(&self, other: &Version) -> (r: bool)
        ensures
            r == version_lt(self@, other@),
    {
        self.major < other.major || (self.major == other.major && (self.minor < other.minor || (
        self.minor == other.minor && self.patch < other.patch)))
    }

    /// Same version.
    pub fn same(&self, other: &Version) -> (r: bool)
        ensures
            r == (self@ == other@),
    {
        self.major == other.major && self.minor == other.minor && self.patch == other.patch
    }

    /// A plugin requiring host version `self` runs on `host` when both have
    /// the same major version and `self <= host`.
    pub fn is_compatible_with(&self, host: &Version) -> (r: bool)
        ensures
            r == (self@.0 == host@.0 && !version_lt(host@, self@)),
    {
        self.major == host.major && !host.precedes(self)
    }

    /// Reads `major.minor.patch`; each part is an unsigned decimal `u32`.
    pub fn parse(value: &str) -> (r: Result<Version, IdError>)
        ensures
            r matches Ok(v) ==> parse_version_spec(value@) == Ok::<(u32, u32, u32), Seq<char>>(
                v@,
            ),
            r matches Err(e) ==> parse_version_spec(value@) == Err::<(u32, u32, u32), Seq<char>>(
                e@,
            ),
    {
        let parts = split_char(value, '.');
        proof {
            lemma_split_from_nonempty(value@, '.', 0);
        }
        let ghost pv = views(parts@);
        assert(pv[0] == parts@[0]@);
        let major = match parse_u32(parts[0].as_str()) {
            Some(v) => v,
            None => {
                let mut m = concat2("version '", value);
                m.append("' has non-numeric major");
                return Err(m);
            },
        };
        if parts.len() < 2 {
            let mut m = concat2("version '", value);
            m.append("' is missing minor");
            return Err(m);
        }
        assert(pv[1] == parts@[1]@);
        let minor = match parse_u32(parts[1].as_str()) {
            Some(v) => v,
            None => {
                let mut m = concat2("version '", value);
                m.append("' has non-numeric minor");
                return Err(m);
            },
        };
        if parts.len() < 3 {
            let mut m = concat2("version '", value);
            m.append("' is missing patch");
            return Err(m);
        }
        assert(pv[2] == parts@[2]@);
        let patch = match parse_u32(parts[2].as_str()) {
            Some(v) => v,
            None => {
                let mut m = concat2("version '", value);
                m.append("' has non-numeric patch");
                return Err(m);
            },
        };
        if parts.len() > 3 {
            let mut m = concat2("version '", value);
            m.append("' must have exactly 3 segments");
            return Err(m);
        }
        Ok(Version { major, minor, patch })
    }

    /// `major.minor.patch` (the `Display` form).
    pub fn to_string(&self) -> (r: String)
        ensures
            r@ == version_text(self@),
    {
        let mut s = decimal_string(self.major as u64);
        s.append(".");
        let minor = decimal_string(self.minor as u64);
        s.append(minor.as_str());
        s.append(".");
        let patch = decimal_string(self.patch as u64);
        s.append(patch.as_str());
        s
    }
}

/// Ids and other values that compare by their view.
pub trait Keyed: View + Sized {
    fn same_key(&self, other: &Self) -> (r: bool)
        ensures
            r == (self@ == other@),
    ;
}

/// The views of a sequence of values.
pub open spec fn keys_of<T: View>(s: Seq<T>) -> Seq<T::V> {
    s.map_values(|t: T| t@)
}

/// Whether `v` holds a value with the view of `x`.
pub fn contains_key<T: Keyed>(v: &Vec<T>, x: &T) -> (r: bool)
    ensures
        r == keys_of(v@).contains(x@),
{
    let mut i: usize = 0;
    while i < v.len()
        invariant
            i <= v.len(),
            forall|k: int| 0 <= k < i ==> v@[k]@ != x@,
        decreases v.len() - i,
    {
        if v[i].same_key(x) {
            assert(keys_of(v@)[i as int] == x@);
            return true;
        }
        i = i + 1;
    }
    assert(!keys_of(v@).contains(x@)) by {
        if keys_of(v@).contains(x@) {
            let k = choose|k: int| 0 <= k < keys_of(v@).len() && keys_of(v@)[k] == x@;
            assert(v@[k]@ == x@);
        }
    }
    false
}

impl Keyed for PluginId {
    fn same_key(&self, other: &Self) -> (r: bool) {
        self.same(other)
    }
}

impl Keyed for ServiceId {
    fn same_key(&self, other: &Self) -> (r: bool) {
        self.same(other)
    }
}

impl Keyed for ContributionPointId {
    fn same_key(&self, other: &Self) -> (r: bool) {
        self.same(other)
    }
}

impl Keyed for CommandId {
    fn same_key(&self, other: &Self) -> (r: bool) {
        self.same(other)
    }
}

impl Keyed for Capability {
    fn same_key(&self, other: &Self) -> (r: bool) {
        self.same(other)
    }
}

impl Keyed for EventType {
    fn same_key(&self, other: &Self) -> (r: bool) {
        self.same(other)
    }
}

} // verus!
