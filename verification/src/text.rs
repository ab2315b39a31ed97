//! Text primitives shared by the identifier, version and lyrics code:
//! splitting on a separator, trimming white space, decimal numbers and
//! lexicographic comparison of character sequences.
use vstd::prelude::*;
use vstd::string::*;

verus! {

/// Index of the first `c` in `s` at or after `from`; `s.len()` when there is none.
pub open spec fn find_from(s: Seq<char>, c: char, from: int) -> int
    decreases s.len() - from,
{
    if from >= s.len() {
        s.len() as int
    } else if s[from] == c {
        from
    } else {
        find_from(s, c, from + 1)
    }
}

pub proof fn lemma_find_from_bounds(s: Seq<char>, c: char, from: int)
    requires
        0 <= from <= s.len(),
    ensures
        from <= find_from(s, c, from) <= s.len(),
        find_from(s, c, from) < s.len() ==> s[find_from(s, c, from)] == c,
        forall|k: int| from <= k < find_from(s, c, from) ==> s[k] != c,
    decreases s.len() - from,
{
    if from < s.len() && s[from] != c {
        lemma_find_from_bounds(s, c, from + 1);
    }
}

/// The pieces of `s` between occurrences of `c`, starting at `start`
/// (what `str::split` yields).
pub open spec fn split_from(s: Seq<char>, c: char, start: int) -> Seq<Seq<char>>
    decreases s.len() - start,
{
    if start < 0 || start > s.len() {
        Seq::empty()
    } else {
        let j = find_from(s, c, start);
        if j >= s.len() || j < start {
            seq![s.subrange(start, s.len() as int)]
        } else {
            seq![s.subrange(start, j)] + split_from(s, c, j + 1)
        }
    }
}

/// `s.split(c)` as a sequence of pieces.
pub open spec fn split_on(s: Seq<char>, c: char) -> Seq<Seq<char>> {
    split_from(s, c, 0)
}

pub proof fn lemma_split_from_nonempty(s: Seq<char>, c: char, start: int)
    requires
        0 <= start <= s.len(),
    ensures
        split_from(s, c, start).len() >= 1,
        split_from(s, c, start)[0] == s.subrange(start, find_from(s, c, start)),
    decreases s.len() - start,
{
    lemma_find_from_bounds(s, c, start);
}

/// Index of the first `c` in `s` at or after `from`, or the length of `s`.
pub fn find_char_from(s: &str, c: char, from: usize) -> (r: usize)
    requires
        from <= s@.len(),
    ensures
        r as int == find_from(s@, c, from as int),
{
    let n = s.unicode_len();
    let mut i = from;
    while i < n
        invariant
            n == s@.len(),
            from <= i <= n,
            find_from(s@, c, i as int) == find_from(s@, c, from as int),
        decreases n - i,
    {
        if s.get_char(i) == c {
            return i;
        }
        i = i + 1;
    }
    i
}

pub open spec fn views(v: Seq<String>) -> Seq<Seq<char>> {
    v.map_values(|p: String| p@)
}

/// Splits `s` on every `c` (as `str::split` does), returning owned pieces.
pub fn split_char(s: &str, c: char) -> (parts: Vec<String>)
    ensures
        views(parts@) == split_on(s@, c),
{
    let n = s.unicode_len();
    let mut parts: Vec<String> = Vec::new();
    let mut start: usize = 0;
    loop
        invariant
            n == s@.len(),
            start <= n,
            views(parts@) + split_from(s@, c, start as int) == split_from(s@, c, 0),
        decreases n - start,
    {
        let j = find_char_from(s, c, start);
        proof {
            lemma_find_from_bounds(s@, c, start as int);
        }
        let piece = s.substring_char(start, j).to_owned();
        let ghost before = views(parts@);
        parts.push(piece);
        assert(views(parts@) == before.push(piece@));
        if j >= n {
            assert(split_from(s@, c, start as int) == seq![s@.subrange(start as int, n as int)]);
            assert(views(parts@) == split_from(s@, c, 0));
            return parts;
        }
        assert(split_from(s@, c, start as int) == seq![s@.subrange(start as int, j as int)]
            + split_from(s@, c, j + 1));
        assert(views(parts@) + split_from(s@, c, j + 1) == before + split_from(
            s@,
            c,
            start as int,
        ));
        start = j + 1;
    }
}

/// Unicode `White_Space` characters, as `char::is_whitespace` reports them.
pub open spec fn is_white_space(c: char) -> bool {
    ('\u{9}' <= c && c <= '\u{d}') || c == ' ' || c == '\u{85}' || c == '\u{a0}' || c
        == '\u{1680}' || ('\u{2000}' <= c && c <= '\u{200a}') || c == '\u{2028}' || c
        == '\u{2029}' || c == '\u{202f}' || c == '\u{205f}' || c == '\u{3000}'
}

pub fn white_space(c: char) -> (r: bool)
    ensures
        r == is_white_space(c),
{
    ('\u{9}' <= c && c <= '\u{d}') || c == ' ' || c == '\u{85}' || c == '\u{a0}' || c
        == '\u{1680}' || ('\u{2000}' <= c && c <= '\u{200a}') || c == '\u{2028}' || c
        == '\u{2029}' || c == '\u{202f}' || c == '\u{205f}' || c == '\u{3000}'
}

/// Number of leading white-space characters of `s`, counting from `from`.
pub open spec fn leading_ws(s: Seq<char>, from: int) -> int
    decreases s.len() - from,
{
    if from >= s.len() || !is_white_space(s[from]) {
        from
    } else {
        leading_ws(s, from + 1)
    }
}

/// End of `s[..to]` once trailing white space is removed, never going below `low`.
pub open spec fn trailing_ws(s: Seq<char>, low: int, to: int) -> int
    decreases to - low,
{
    if to <= low || !is_white_space(s[to - 1]) {
        to
    } else {
        trailing_ws(s, low, to - 1)
    }
}

/// `str::trim`: `s` without leading and trailing white space.
pub open spec fn trim(s: Seq<char>) -> Seq<char> {
    let a = leading_ws(s, 0);
    s.subrange(a, trailing_ws(s, a, s.len() as int))
}

pub proof fn lemma_leading_ws_bounds(s: Seq<char>, from: int)
    requires
        0 <= from <= s.len(),
    ensures
        from <= leading_ws(s, from) <= s.len(),
    decreases s.len() - from,
{
    if from < s.len() && is_white_space(s[from]) {
        lemma_leading_ws_bounds(s, from + 1);
    }
}

pub proof fn lemma_trailing_ws_bounds(s: Seq<char>, low: int, to: int)
    requires
        0 <= low <= to <= s.len(),
    ensures
        low <= trailing_ws(s, low, to) <= to,
    decreases to - low,
{
    if to > low && is_white_space(s[to - 1]) {
        lemma_trailing_ws_bounds(s, low, to - 1);
    }
}

/// `s.trim()` as an owned string.
pub fn trim_str(s: &str) -> (r: String)
    ensures
        r@ == trim(s@),
{
    let n = s.unicode_len();
    let mut a: usize = 0;
    while a < n && white_space(s.get_char(a))
        invariant
            n == s@.len(),
            a <= n,
            leading_ws(s@, a as int) == leading_ws(s@, 0),
        decreases n - a,
    {
        a = a + 1;
    }
    let mut b: usize = n;
    while b > a && white_space(s.get_char(b - 1))
        invariant
            n == s@.len(),
            a <= b <= n,
            a as int == leading_ws(s@, 0),
            trailing_ws(s@, a as int, b as int) == trailing_ws(s@, a as int, n as int),
        decreases b - a,
    {
        b = b - 1;
    }
    s.substring_char(a, b).to_owned()
}

/// The value of a (possibly empty) run of decimal digits.
pub open spec fn digits_value(s: Seq<char>) -> int
    decreases s.len(),
{
    if s.len() == 0 {
        0
    } else {
        digits_value(s.drop_last()) * 10 + (s.last() as int - '0' as int)
    }
}

pub open spec fn is_digit(c: char) -> bool {
    '0' <= c && c <= '9'
}

pub open spec fn all_digits(s: Seq<char>) -> bool {
    forall|i: int| 0 <= i < s.len() ==> is_digit(#[trigger] s[i])
}

/// The digits that `str::parse` reads for an unsigned type: one optional `+`
/// is skipped.
pub open spec fn unsigned_body(s: Seq<char>) -> Seq<char> {
    if s.len() > 0 && s[0] == '+' {
        s.skip(1)
    } else {
        s
    }
}

/// What `str::parse::<uN>` computes, before the range check: `Some(value)`
/// for an optional `+` followed by at least one decimal digit, `None` otherwise.
pub open spec fn parse_unsigned(s: Seq<char>) -> Option<int> {
    let body = unsigned_body(s);
    if body.len() > 0 && all_digits(body) {
        Some(digits_value(body))
    } else {
        None
    }
}

/// The first `c` at or after `from` is at `k` when `s` has `c` at `k` and
/// none before it from `from` on; `s.len()` when there is none from `from`.
pub proof fn lemma_find_at(s: Seq<char>, c: char, from: int, k: int)
    requires
        0 <= from <= k <= s.len(),
        k < s.len() ==> s[k] == c,
        forall|i: int| from <= i < k ==> s[i] != c,
    ensures
        find_from(s, c, from) == k,
    decreases k - from,
{
    if from < k {
        lemma_find_at(s, c, from + 1, k);
    }
}

/// Splitting `a c b` on `c`, where neither piece holds `c`, gives the two
/// pieces.
pub proof fn lemma_split_two(a: Seq<char>, b: Seq<char>, c: char)
    requires
        !a.contains(c),
        !b.contains(c),
    ensures
        split_on(a + seq![c] + b, c) == seq![a, b],
{
    let s = a + seq![c] + b;
    let la = a.len() as int;
    assert forall|i: int| 0 <= i < la implies s[i] != c by {
        assert(s[i] == a[i]);
    }
    assert forall|i: int| la + 1 <= i < s.len() implies s[i] != c by {
        assert(s[i] == b[i - la - 1]);
    }
    assert(s[la] == c);
    lemma_find_at(s, c, 0, la);
    lemma_find_at(s, c, la + 1, s.len() as int);
    assert(s.subrange(0, la) =~= a);
    assert(s.subrange(la + 1, s.len() as int) =~= b);
    assert(split_from(s, c, la + 1) == seq![b]);
    assert(split_from(s, c, 0) == seq![a] + seq![b]);
    assert(split_on(s, c) =~= seq![a, b]);
}

/// Splitting `a c b c d` on `c`, where no piece holds `c`, gives the three
/// pieces.
pub proof fn lemma_split_three(a: Seq<char>, b: Seq<char>, d: Seq<char>, c: char)
    requires
        !a.contains(c),
        !b.contains(c),
        !d.contains(c),
    ensures
        split_on(a + seq![c] + b + seq![c] + d, c) == seq![a, b, d],
{
    let s = a + seq![c] + b + seq![c] + d;
    let la = a.len() as int;
    let lb = b.len() as int;
    assert forall|i: int| 0 <= i < la implies s[i] != c by {
        assert(s[i] == a[i]);
    }
    assert forall|i: int| la + 1 <= i < la + 1 + lb implies s[i] != c by {
        assert(s[i] == b[i - la - 1]);
    }
    assert forall|i: int| la + lb + 2 <= i < s.len() implies s[i] != c by {
        assert(s[i] == d[i - la - lb - 2]);
    }
    assert(s[la] == c);
    assert(s[la + 1 + lb] == c);
    lemma_find_at(s, c, 0, la);
    lemma_find_at(s, c, la + 1, la + 1 + lb);
    lemma_find_at(s, c, la + lb + 2, s.len() as int);
    assert(s.subrange(0, la) =~= a);
    assert(s.subrange(la + 1, la + 1 + lb) =~= b);
    assert(s.subrange(la + lb + 2, s.len() as int) =~= d);
    assert(split_from(s, c, la + lb + 2) == seq![d]);
    assert(split_from(s, c, la + 1) == seq![b] + seq![d]);
    assert(split_from(s, c, 0) == seq![a] + (seq![b] + seq![d]));
    assert(split_on(s, c) =~= seq![a, b, d]);
}

pub proof fn lemma_digits_value_nonneg(s: Seq<char>)
    requires
        all_digits(s),
    ensures
        digits_value(s) >= 0,
    decreases s.len(),
{
    if s.len() > 0 {
        assert(all_digits(s.drop_last()));
        lemma_digits_value_nonneg(s.drop_last());
    }
}

pub proof fn lemma_parse_unsigned_nonneg(s: Seq<char>)
    ensures
        parse_unsigned(s) matches Some(v) ==> v >= 0,
{
    if parse_unsigned(s) is Some {
        lemma_digits_value_nonneg(unsigned_body(s));
    }
}

/// `str::parse::<u64>`: the value of `s`, or `None` when it is not an unsigned
/// decimal number or does not fit in a `u64`.
pub fn parse_u64(s: &str) -> (r: Option<u64>)
    ensures
        r == (match parse_unsigned(s@) {
            Some(v) => if v <= u64::MAX {
                Some(v as u64)
            } else {
                None
            },
            None => None,
        }),
{
    let n = s.unicode_len();
    let mut i: usize = 0;
    if n > 0 && s.get_char(0) == '+' {
        i = 1;
    }
    let ghost body = unsigned_body(s@);
    assert(body == s@.subrange(i as int, n as int));
    if i >= n {
        return None;
    }
    let ghost start = i as int;
    let mut value: u64 = 0;
    let mut overflow = false;
    while i < n
        invariant
            n == s@.len(),
            body == s@.subrange(start, n as int),
            body == unsigned_body(s@),
            0 <= start <= i <= n,
            start < n,
            all_digits(s@.subrange(start, i as int)),
            !overflow ==> value == digits_value(s@.subrange(start, i as int)),
            overflow ==> digits_value(s@.subrange(start, i as int)) > u64::MAX,
        decreases n - i,
    {
        let c = s.get_char(i);
        assert(s@[i as int] == c);
        assert(body[i - start] == s@[i as int]);
        if !('0' <= c && c <= '9') {
            assert(!is_digit(body[i - start]));
            assert(!all_digits(body));
            assert(parse_unsigned(s@) is None);
            return None;
        }
        let ghost prev = s@.subrange(start, i as int);
        let ghost next = s@.subrange(start, i + 1);
        assert(next.drop_last() == prev);
        assert(next.last() == c);
        assert(all_digits(next));
        proof {
            lemma_digits_value_nonneg(prev);
        }
        let d = (c as u32 - '0' as u32) as u64;
        assert(d as int == c as int - '0' as int);
        if !overflow {
            if value > (u64::MAX - d) / 10 {
                overflow = true;
                assert(digits_value(next) > u64::MAX) by (nonlinear_arith)
                    requires
                        value > (u64::MAX - d) / 10,
                        digits_value(next) == value * 10 + d,
                        0 <= d <= 9,
                ;
            } else {
                assert(value * 10 + d <= u64::MAX) by (nonlinear_arith)
                    requires
                        value <= (u64::MAX - d) / 10,
                        0 <= d <= 9,
                ;
                value = value * 10 + d;
            }
        } else {
            assert(digits_value(next) > u64::MAX) by (nonlinear_arith)
                requires
                    digits_value(prev) > u64::MAX,
                    digits_value(next) == digits_value(prev) * 10 + d,
                    0 <= d <= 9,
            ;
        }
        i = i + 1;
    }
    assert(s@.subrange(start, n as int) == body);
    if overflow {
        None
    } else {
        Some(value)
    }
}

/// `str::parse::<usize>`: the value of `s`, or `None` when it is not an
/// unsigned decimal number or does not fit in a `usize`.
pub fn parse_usize(s: &str) -> (r: Option<usize>)
    ensures
        r == (match parse_unsigned(s@) {
            Some(v) => if v <= usize::MAX {
                Some(v as usize)
            } else {
                None
            },
            None => None,
        }),
{
    proof {
        lemma_parse_unsigned_nonneg(s@);
        assert(usize::MAX <= u64::MAX);
    }
    match parse_u64(s) {
        Some(v) => if v <= usize::MAX as u64 {
            Some(v as usize)
        } else {
            None
        },
        None => None,
    }
}

/// What `str::parse::<iN>` computes, before the range check: an optional
/// `+` or `-` followed by at least one decimal digit.
pub open spec fn parse_signed(s: Seq<char>) -> Option<int> {
    if s.len() > 0 && s[0] == '-' {
        let body = s.skip(1);
        if body.len() > 0 && all_digits(body) {
            Some(-digits_value(body))
        } else {
            None
        }
    } else {
        parse_unsigned(s)
    }
}

/// `str::parse::<i64>`: the value of `s`, or `None` when it is not a
/// decimal number or does not fit in an `i64`.
pub fn parse_i64(s: &str) -> (r: Option<i64>)
    ensures
        r == (match parse_signed(s@) {
            Some(v) => if i64::MIN <= v <= i64::MAX {
                Some(v as i64)
            } else {
                None
            },
            None => None,
        }),
{
    let n = s.unicode_len();
    if n > 0 && s.get_char(0) == '-' {
        if n == 1 {
            return None;
        }
        let rest = s.substring_char(1, n);
        assert(rest@ =~= s@.skip(1));
        if rest.get_char(0) == '+' {
            assert(!is_digit(rest@[0]));
            return None;
        }
        assert(unsigned_body(rest@) == rest@);
        proof {
            lemma_parse_unsigned_nonneg(rest@);
        }
        match parse_u64(rest) {
            Some(v) => if v < 9223372036854775808u64 {
                Some(-(v as i64))
            } else if v == 9223372036854775808u64 {
                Some(i64::MIN)
            } else {
                None
            },
            None => None,
        }
    } else {
        proof {
            lemma_parse_unsigned_nonneg(s@);
        }
        match parse_u64(s) {
            Some(v) => if v <= 9223372036854775807u64 {
                Some(v as i64)
            } else {
                None
            },
            None => None,
        }
    }
}

/// Decimal notation of `n`, without leading zeros.
pub open spec fn decimal(n: nat) -> Seq<char>
    decreases n,
{
    if n < 10 {
        seq![digit_char(n)]
    } else {
        decimal(n / 10) + seq![digit_char(n % 10)]
    }
}

pub open spec fn digit_char(d: nat) -> char {
    if d == 0 {
        '0'
    } else if d == 1 {
        '1'
    } else if d == 2 {
        '2'
    } else if d == 3 {
        '3'
    } else if d == 4 {
        '4'
    } else if d == 5 {
        '5'
    } else if d == 6 {
        '6'
    } else if d == 7 {
        '7'
    } else if d == 8 {
        '8'
    } else {
        '9'
    }
}

fn digit_str(d: u64) -> (r: &'static str)
    requires
        d < 10,
    ensures
        r@ == seq![digit_char(d as nat)],
{
    proof {
        reveal_strlit("0");
        reveal_strlit("1");
        reveal_strlit("2");
        reveal_strlit("3");
        reveal_strlit("4");
        reveal_strlit("5");
        reveal_strlit("6");
        reveal_strlit("7");
        reveal_strlit("8");
        reveal_strlit("9");
    }
    if d == 0 {
        "0"
    } else if d == 1 {
        "1"
    } else if d == 2 {
        "2"
    } else if d == 3 {
        "3"
    } else if d == 4 {
        "4"
    } else if d == 5 {
        "5"
    } else if d == 6 {
        "6"
    } else if d == 7 {
        "7"
    } else if d == 8 {
        "8"
    } else {
        "9"
    }
}

/// `n.to_string()` for an unsigned integer.
pub fn decimal_string(n: u64) -> (r: String)
    ensures
        r@ == decimal(n as nat),
    decreases n,
{
    if n < 10 {
        String::from_str(digit_str(n))
    } else {
        let head = decimal_string(n / 10);
        head.concat(digit_str(n % 10))
    }
}

/// Lexicographic order on character sequences (the order of `String`).
pub open spec fn seq_lt(a: Seq<char>, b: Seq<char>) -> bool
    decreases a.len(),
{
    if a.len() == 0 {
        b.len() > 0
    } else if b.len() == 0 {
        false
    } else if a[0] != b[0] {
        a[0] < b[0]
    } else {
        seq_lt(a.drop_first(), b.drop_first())
    }
}

pub open spec fn seq_le(a: Seq<char>, b: Seq<char>) -> bool {
    seq_lt(a, b) || a == b
}

pub proof fn lemma_seq_lt_irreflexive(a: Seq<char>)
    ensures
        !seq_lt(a, a),
    decreases a.len(),
{
    if a.len() > 0 {
        lemma_seq_lt_irreflexive(a.drop_first());
    }
}

pub proof fn lemma_seq_lt_trichotomy(a: Seq<char>, b: Seq<char>)
    ensures
        seq_lt(a, b) || seq_lt(b, a) || a == b,
        !(seq_lt(a, b) && seq_lt(b, a)),
    decreases a.len(),
{
    if a.len() > 0 && b.len() > 0 && a[0] == b[0] {
        lemma_seq_lt_trichotomy(a.drop_first(), b.drop_first());
        if a.drop_first() == b.drop_first() {
            assert(a == seq![a[0]] + a.drop_first());
            assert(b == seq![b[0]] + b.drop_first());
        }
    }
    if a.len() == 0 && b.len() == 0 {
        assert(a == b);
    }
}

pub proof fn lemma_seq_lt_transitive(a: Seq<char>, b: Seq<char>, c: Seq<char>)
    requires
        seq_lt(a, b),
        seq_lt(b, c),
    ensures
        seq_lt(a, c),
    decreases a.len(),
{
    if a.len() > 0 && b.len() > 0 && c.len() > 0 && a[0] == b[0] && b[0] == c[0] {
        lemma_seq_lt_transitive(a.drop_first(), b.drop_first(), c.drop_first());
    }
}

/// `a < b` for strings.
pub fn str_lt(a: &str, b: &str) -> (r: bool)
    ensures
        r == seq_lt(a@, b@),
{
    let na = a.unicode_len();
    let nb = b.unicode_len();
    let mut i: usize = 0;
    assert(a@.skip(0) == a@);
    assert(b@.skip(0) == b@);
    while i < na && i < nb
        invariant
            na == a@.len(),
            nb == b@.len(),
            i <= na,
            i <= nb,
            seq_lt(a@, b@) == seq_lt(a@.skip(i as int), b@.skip(i as int)),
        decreases na - i,
    {
        let x = a.get_char(i);
        let y = b.get_char(i);
        assert(a@.skip(i as int)[0] == x);
        assert(b@.skip(i as int)[0] == y);
        if x != y {
            return x < y;
        }
        assert(a@.skip(i as int).drop_first() == a@.skip(i + 1));
        assert(b@.skip(i as int).drop_first() == b@.skip(i + 1));
        i = i + 1;
    }
    i >= na && i < nb
}

/// `a == b` for strings.
pub fn str_eq(a: &str, b: &str) -> (r: bool)
    ensures
        r == (a@ == b@),
{
    let na = a.unicode_len();
    let nb = b.unicode_len();
    if na != nb {
        return false;
    }
    let mut i: usize = 0;
    while i < na
        invariant
            na == a@.len(),
            nb == b@.len(),
            na == nb,
            i <= na,
            forall|k: int| 0 <= k < i ==> a@[k] == b@[k],
        decreases na - i,
    {
        if a.get_char(i) != b.get_char(i) {
            return false;
        }
        i = i + 1;
    }
    assert(a@ == b@);
    true
}

/// `a` followed by `b`.
pub fn concat2(a: &str, b: &str) -> (r: String)
    ensures
        r@ == a@ + b@,
{
    let mut s = String::from_str(a);
    s.append(b);
    s
}

/// `a`, `b` and `c` one after the other.
pub fn concat3(a: &str, b: &str, c: &str) -> (r: String)
    ensures
        r@ == a@ + b@ + c@,
{
    let mut s = String::from_str(a);
    s.append(b);
    s.append(c);
    s
}

/// `parts` joined with `sep` between neighbours.
pub open spec fn join(parts: Seq<Seq<char>>, sep: Seq<char>) -> Seq<char>
    decreases parts.len(),
{
    if parts.len() == 0 {
        Seq::empty()
    } else if parts.len() == 1 {
        parts[0]
    } else {
        join(parts.drop_last(), sep) + sep + parts.last()
    }
}

/// `s` begins with `p`.
pub open spec fn starts_with(s: Seq<char>, p: Seq<char>) -> bool {
    p.len() <= s.len() && s.subrange(0, p.len() as int) == p
}

pub fn has_prefix(s: &str, p: &str) -> (r: bool)
    ensures
        r == starts_with(s@, p@),
{
    let n = s.unicode_len();
    let m = p.unicode_len();
    if m > n {
        return false;
    }
    let mut i: usize = 0;
    while i < m
        invariant
            n == s@.len(),
            m == p@.len(),
            m <= n,
            i <= m,
            forall|k: int| 0 <= k < i ==> s@[k] == p@[k],
        decreases m - i,
    {
        if s.get_char(i) != p.get_char(i) {
            return false;
        }
        i = i + 1;
    }
    assert(s@.subrange(0, m as int) =~= p@);
    true
}

} // verus!
