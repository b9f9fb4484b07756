//! Character-level scanning of command-line text: character classes,
//! trimming, splitting, and decimal integer parsing with the same accept /
//! reject behaviour (and error kinds) as the standard library's
//! `str::parse` for integers.

use vstd::prelude::*;
use vstd::string::*;

verus! {

// ---- character classes ----

pub open spec fn is_digit(c: char) -> bool {
    '0' <= c && c <= '9'
}

pub open spec fn digit_value(c: char) -> nat {
    (c as int - '0' as int) as nat
}

pub open spec fn is_hex_digit(c: char) -> bool {
    is_digit(c) || ('a' <= c && c <= 'f') || ('A' <= c && c <= 'F')
}

pub open spec fn hex_value(c: char) -> nat {
    if is_digit(c) {
        digit_value(c)
    } else if 'a' <= c && c <= 'f' {
        (c as int - 'a' as int + 10) as nat
    } else {
        (c as int - 'A' as int + 10) as nat
    }
}

/// The lower-case hex digit for `d` (below 16).
pub open spec fn hex_digit_char(d: nat) -> char {
    (if d < 10 { 48 + d } else { 87 + d }) as char
}

/// ASCII whitespace as the standard library defines it: space, tab, line
/// feed, form feed and carriage return.
pub open spec fn is_ascii_ws(c: char) -> bool {
    c == ' ' || c == '\t' || c == '\n' || c == '\x0C' || c == '\r'
}

/// The Unicode `White_Space` property, which `char::is_whitespace` and
/// `str::trim` use.
pub open spec fn is_ws(c: char) -> bool {
    let u = c as u32;
    (0x09 <= u && u <= 0x0D) || u == 0x20 || u == 0x85 || u == 0xA0 || u == 0x1680 || (0x2000
        <= u && u <= 0x200A) || u == 0x2028 || u == 0x2029 || u == 0x202F || u == 0x205F || u
        == 0x3000
}

pub fn char_is_digit(c: char) -> (r: bool)
    ensures
        r == is_digit(c),
{
    '0' <= c && c <= '9'
}

pub fn char_is_hex_digit(c: char) -> (r: bool)
    ensures
        r == is_hex_digit(c),
{
    ('0' <= c && c <= '9') || ('a' <= c && c <= 'f') || ('A' <= c && c <= 'F')
}

pub fn char_hex_value(c: char) -> (r: u8)
    requires
        is_hex_digit(c),
    ensures
        r as nat == hex_value(c),
        r < 16,
{
    let u = c as u32;
    if '0' <= c && c <= '9' {
        (u - ('0' as u32)) as u8
    } else if 'a' <= c && c <= 'f' {
        (u - ('a' as u32) + 10) as u8
    } else {
        (u - ('A' as u32) + 10) as u8
    }
}

pub fn char_is_ascii_ws(c: char) -> (r: bool)
    ensures
        r == is_ascii_ws(c),
{
    c == ' ' || c == '\t' || c == '\n' || c == '\x0C' || c == '\r'
}

pub fn char_is_ws(c: char) -> (r: bool)
    ensures
        r == is_ws(c),
{
    let u = c as u32;
    (0x09 <= u && u <= 0x0D) || u == 0x20 || u == 0x85 || u == 0xA0 || u == 0x1680 || (0x2000
        <= u && u <= 0x200A) || u == 0x2028 || u == 0x2029 || u == 0x202F || u == 0x205F || u
        == 0x3000
}

/// The ASCII upper-case form of `c` (`char::to_ascii_uppercase`).
pub open spec fn upper_char(c: char) -> char {
    if 'a' <= c && c <= 'z' {
        ((c as u32) - 32) as char
    } else {
        c
    }
}

/// `str::to_ascii_uppercase`: ASCII letters upper-cased, every other
/// character kept.
pub open spec fn ascii_upper(s: Seq<char>) -> Seq<char> {
    Seq::new(s.len(), |i: int| upper_char(s[i]))
}

/// The ASCII lower-case form of `c` (`char::to_ascii_lowercase`).
pub open spec fn lower_char(c: char) -> char {
    if 'A' <= c && c <= 'Z' {
        ((c as u32) + 32) as char
    } else {
        c
    }
}

/// `str::to_ascii_lowercase`.
pub open spec fn ascii_lower(s: Seq<char>) -> Seq<char> {
    Seq::new(s.len(), |i: int| lower_char(s[i]))
}

/// Lower-casing first changes nothing about the upper-case form.
pub proof fn lemma_upper_of_lower(s: Seq<char>)
    ensures
        ascii_upper(ascii_lower(s)) == ascii_upper(s),
{
    assert forall|i: int| 0 <= i < s.len() implies #[trigger] upper_char(lower_char(s[i])) == upper_char(
        s[i],
    ) by {
        let c = s[i];
        if 'A' <= c && c <= 'Z' {
            let l = ((c as u32) + 32) as char;
            assert('a' <= l && l <= 'z');
            assert(((l as u32) - 32) as char == c);
        }
    }
    assert(ascii_upper(ascii_lower(s)) =~= ascii_upper(s));
}

pub fn char_upper(c: char) -> (r: char)
    ensures
        r == upper_char(c),
{
    if 'a' <= c && c <= 'z' {
        let b: u8 = ((c as u32) - 32) as u8;
        b as char
    } else {
        c
    }
}

/// The characters of `s`, ASCII letters upper-cased.
pub fn upper_chars(s: &str) -> (v: Vec<char>)
    ensures
        v@ == ascii_upper(s@),
{
    let cs = chars_of(s);
    let mut v: Vec<char> = Vec::new();
    let mut i: usize = 0;
    while i < cs.len()
        invariant
            cs@ == s@,
            0 <= i <= cs.len(),
            v@ == ascii_upper(s@).subrange(0, i as int),
        decreases cs.len() - i,
    {
        v.push(char_upper(cs[i]));
        i = i + 1;
        assert(v@ =~= ascii_upper(s@).subrange(0, i as int));
    }
    assert(ascii_upper(s@).subrange(0, i as int) =~= ascii_upper(s@));
    v
}

// ---- strings as character vectors ----

/// The characters of `s`, in order.
pub fn chars_of(s: &str) -> (v: Vec<char>)
    ensures
        v@ == s@,
{
    let n = s.unicode_len();
    let mut v: Vec<char> = Vec::new();
    let mut i: usize = 0;
    while i < n
        invariant
            n == s@.len(),
            0 <= i <= n,
            v@ == s@.subrange(0, i as int),
        decreases n - i,
    {
        v.push(s.get_char(i));
        i = i + 1;
        assert(v@ =~= s@.subrange(0, i as int));
    }
    assert(s@.subrange(0, n as int) =~= s@);
    v
}

/// Whether two strings hold the same characters.
pub fn str_eq(a: &str, b: &str) -> (r: bool)
    ensures
        r == (a@ == b@),
{
    let ca = chars_of(a);
    let cb = chars_of(b);
    chars_eq(ca.as_slice(), cb.as_slice())
}

/// Whether two character slices are equal.
pub fn chars_eq(a: &[char], b: &[char]) -> (r: bool)
    ensures
        r == (a@ == b@),
{
    if a.len() != b.len() {
        return false;
    }
    let mut i: usize = 0;
    while i < a.len()
        invariant
            a.len() == b.len(),
            0 <= i <= a.len(),
            forall|j: int| 0 <= j < i ==> a@[j] == b@[j],
        decreases a.len() - i,
    {
        if a[i] != b[i] {
            return false;
        }
        i = i + 1;
    }
    assert(a@ =~= b@);
    true
}

/// Whether `a` holds exactly the characters of `b`.
pub fn chars_eq_str(a: &[char], b: &str) -> (r: bool)
    ensures
        r == (a@ == b@),
{
    let cb = chars_of(b);
    chars_eq(a, cb.as_slice())
}

/// Whether `s[from..to]` holds exactly the characters of `b`.
pub fn range_eq_str(s: &[char], from: usize, to: usize, b: &str) -> (r: bool)
    requires
        from <= to <= s.len(),
    ensures
        r == (s@.subrange(from as int, to as int) == b@),
{
    let cb = chars_of(b);
    if to - from != cb.len() {
        proof {
            if s@.subrange(from as int, to as int) == b@ {
                assert(s@.subrange(from as int, to as int).len() == cb@.len());
            }
        }
        return false;
    }
    let mut i: usize = 0;
    while i < cb.len()
        invariant
            to - from == cb.len(),
            from <= to <= s.len(),
            cb@ == b@,
            0 <= i <= cb.len(),
            forall|j: int| 0 <= j < i ==> s@[from + j] == cb@[j],
        decreases cb.len() - i,
    {
        if s[from + i] != cb[i] {
            proof {
                if s@.subrange(from as int, to as int) == b@ {
                    assert(s@.subrange(from as int, to as int)[i as int] == s@[from + i]);
                }
            }
            return false;
        }
        i = i + 1;
    }
    assert(s@.subrange(from as int, to as int) =~= b@);
    true
}

// ---- trimming ----

pub open spec fn trim_start(s: Seq<char>) -> Seq<char>
    decreases s.len(),
{
    if s.len() > 0 && is_ws(s[0]) {
        trim_start(s.drop_first())
    } else {
        s
    }
}

pub open spec fn trim_end(s: Seq<char>) -> Seq<char>
    decreases s.len(),
{
    if s.len() > 0 && is_ws(s.last()) {
        trim_end(s.drop_last())
    } else {
        s
    }
}

/// What `str::trim` leaves: the text without leading and trailing Unicode
/// whitespace.
pub open spec fn trim(s: Seq<char>) -> Seq<char> {
    trim_end(trim_start(s))
}

/// Bounds `(from, to)` of `trim(s)` inside `s`.
pub fn trim_bounds(s: &[char]) -> (r: (usize, usize))
    ensures
        r.0 <= r.1 <= s.len(),
        s@.subrange(r.0 as int, r.1 as int) == trim(s@),
{
    let mut from: usize = 0;
    assert(s@.subrange(0, s.len() as int) =~= s@);
    while from < s.len() && char_is_ws(s[from])
        invariant
            0 <= from <= s.len(),
            trim_start(s@) == trim_start(s@.subrange(from as int, s.len() as int)),
        decreases s.len() - from,
    {
        assert(s@.subrange(from as int, s.len() as int).drop_first() =~= s@.subrange(
            from + 1,
            s.len() as int,
        ));
        from = from + 1;
    }
    let ghost ts = s@.subrange(from as int, s.len() as int);
    assert(trim_start(ts) == ts);
    let mut to: usize = s.len();
    while to > from && char_is_ws(s[to - 1])
        invariant
            from <= to <= s.len(),
            trim_end(ts) == trim_end(s@.subrange(from as int, to as int)),
        decreases to - from,
    {
        assert(s@.subrange(from as int, to as int).drop_last() =~= s@.subrange(
            from as int,
            to - 1,
        ));
        to = to - 1;
    }
    (from, to)
}

// ---- integers ----

/// The failure kinds of integer parsing, as `core::num::IntErrorKind`
/// names them.
#[derive(Debug, Clone, Copy, PartialEq, Eq, Structural)]
pub enum IntErrorKind {
    Empty,
    InvalidDigit,
    PosOverflow,
    NegOverflow,
}

impl IntErrorKind {
    /// The standard library's description of each failure kind.
    pub open spec fn spec_description(self) -> Seq<char> {
        match self {
            IntErrorKind::Empty => "cannot parse integer from empty string"@,
            IntErrorKind::InvalidDigit => "invalid digit found in string"@,
            IntErrorKind::PosOverflow => "number too large to fit in target type"@,
            IntErrorKind::NegOverflow => "number too small to fit in target type"@,
        }
    }

    pub fn description(&self) -> (r: &'static str)
        ensures
            r@ == self.spec_description(),
    {
        match self {
            IntErrorKind::Empty => "cannot parse integer from empty string",
            IntErrorKind::InvalidDigit => "invalid digit found in string",
            IntErrorKind::PosOverflow => "number too large to fit in target type",
            IntErrorKind::NegOverflow => "number too small to fit in target type",
        }
    }
}

/// Left-to-right accumulation of decimal digits, stopping at the first
/// non-digit (`InvalidDigit`) or at the first prefix whose value exceeds
/// `max` (`overflow`).
pub open spec fn digits_value(s: Seq<char>, max: nat, overflow: IntErrorKind) -> Result<
    nat,
    IntErrorKind,
>
    decreases s.len(),
{
    if s.len() == 0 {
        Ok(0)
    } else {
        match digits_value(s.drop_last(), max, overflow) {
            Err(e) => Err(e),
            Ok(v) => if !is_digit(s.last()) {
                Err(IntErrorKind::InvalidDigit)
            } else if v * 10 + digit_value(s.last()) > max {
                Err(overflow)
            } else {
                Ok(v * 10 + digit_value(s.last()))
            },
        }
    }
}

/// What `str::parse` gives for an unsigned integer type whose maximum is
/// `max`: an optional leading `+`, then decimal digits.
pub open spec fn parse_unsigned(s: Seq<char>, max: nat) -> Result<nat, IntErrorKind> {
    if s.len() == 0 {
        Err(IntErrorKind::Empty)
    } else if (s[0] == '+' || s[0] == '-') && s.len() == 1 {
        Err(IntErrorKind::InvalidDigit)
    } else if s[0] == '+' {
        digits_value(s.drop_first(), max, IntErrorKind::PosOverflow)
    } else {
        digits_value(s, max, IntErrorKind::PosOverflow)
    }
}

/// What `str::parse::<i64-like>` gives for a signed type whose range is
/// `-(neg_max) ..= pos_max`.
pub open spec fn parse_signed(s: Seq<char>, pos_max: nat, neg_max: nat) -> Result<
    int,
    IntErrorKind,
> {
    if s.len() == 0 {
        Err(IntErrorKind::Empty)
    } else if (s[0] == '+' || s[0] == '-') && s.len() == 1 {
        Err(IntErrorKind::InvalidDigit)
    } else if s[0] == '-' {
        match digits_value(s.drop_first(), neg_max, IntErrorKind::NegOverflow) {
            Ok(v) => Ok(-v),
            Err(e) => Err(e),
        }
    } else if s[0] == '+' {
        match digits_value(s.drop_first(), pos_max, IntErrorKind::PosOverflow) {
            Ok(v) => Ok(v as int),
            Err(e) => Err(e),
        }
    } else {
        match digits_value(s, pos_max, IntErrorKind::PosOverflow) {
            Ok(v) => Ok(v as int),
            Err(e) => Err(e),
        }
    }
}

proof fn lemma_digits_value_bound(s: Seq<char>, max: nat, overflow: IntErrorKind)
    ensures
        digits_value(s, max, overflow) matches Ok(v) ==> v <= max,
    decreases s.len(),
{
    if s.len() > 0 {
        lemma_digits_value_bound(s.drop_last(), max, overflow);
    }
}

/// Accumulates the decimal digits of `s[from..to]` as `digits_value` does.
fn scan_digits(s: &[char], from: usize, to: usize, max: u64, overflow: IntErrorKind) -> (r: Result<
    u64,
    IntErrorKind,
>)
    requires
        from <= to <= s.len(),
    ensures
        r matches Ok(v) ==> digits_value(s@.subrange(from as int, to as int), max as nat, overflow)
            == Ok::<nat, IntErrorKind>(v as nat),
        r matches Err(e) ==> digits_value(s@.subrange(from as int, to as int), max as nat, overflow)
            == Err::<nat, IntErrorKind>(e),
{
    let mut v: u64 = 0;
    let mut i: usize = from;
    assert(s@.subrange(from as int, from as int) =~= Seq::<char>::empty());
    while i < to
        invariant
            from <= i <= to <= s.len(),
            v <= max,
            digits_value(s@.subrange(from as int, i as int), max as nat, overflow) == Ok::<
                nat,
                IntErrorKind,
            >(v as nat),
        decreases to - i,
    {
        let c = s[i];
        let ghost pre = s@.subrange(from as int, i as int);
        let ghost cur = s@.subrange(from as int, i + 1);
        assert(cur.drop_last() =~= pre);
        assert(cur.last() == c);
        if !char_is_digit(c) {
            proof {
                lemma_digits_value_prefix_err(s@.subrange(from as int, to as int), (i - from) as nat, max as nat, overflow);
                assert(s@.subrange(from as int, to as int).subrange(0, i + 1 - from) =~= cur);
            }
            return Err(IntErrorKind::InvalidDigit);
        }
        let d: u64 = (c as u32 - '0' as u32) as u64;
        if d > max || v > (max - d) / 10 {
            proof {
                assert(v * 10 + d > max) by (nonlinear_arith)
                    requires
                        d > max || v > (max - d) / 10,
                        d < 10,
                ;
                assert(digit_value(c) == d as nat);
                assert(digits_value(cur, max as nat, overflow) == Err::<nat, IntErrorKind>(overflow));
                assert(s@.subrange(from as int, to as int).subrange(0, i + 1 - from) =~= cur);
                lemma_digits_value_prefix_err(s@.subrange(from as int, to as int), (i - from) as nat, max as nat, overflow);
            }
            return Err(overflow);
        }
        proof {
            assert(v * 10 + d <= max) by (nonlinear_arith)
                requires
                    v <= (max - d) / 10,
                    d <= max,
            ;
        }
        v = v * 10 + d;
        i = i + 1;
    }
    Ok(v)
}

/// Once a prefix fails, the whole text fails the same way.
proof fn lemma_digits_value_prefix_err(s: Seq<char>, k: nat, max: nat, overflow: IntErrorKind)
    requires
        k < s.len(),
        digits_value(s.subrange(0, k as int + 1), max, overflow) is Err,
    ensures
        digits_value(s, max, overflow) == digits_value(s.subrange(0, k as int + 1), max, overflow),
    decreases s.len(),
{
    if k + 1 < s.len() {
        assert(s.drop_last().subrange(0, k as int + 1) =~= s.subrange(0, k as int + 1));
        lemma_digits_value_prefix_err(s.drop_last(), k, max, overflow);
    } else {
        assert(s.subrange(0, k as int + 1) =~= s);
    }
}

/// Parses `s[from..to]` as an unsigned integer no larger than `max`.
pub fn parse_unsigned_range(s: &[char], from: usize, to: usize, max: u64) -> (r: Result<
    u64,
    IntErrorKind,
>)
    requires
        from <= to <= s.len(),
    ensures
        r matches Ok(v) ==> parse_unsigned(s@.subrange(from as int, to as int), max as nat) == Ok::<
            nat,
            IntErrorKind,
        >(v as nat),
        r matches Err(e) ==> parse_unsigned(s@.subrange(from as int, to as int), max as nat)
            == Err::<nat, IntErrorKind>(e),
{
    let ghost t = s@.subrange(from as int, to as int);
    if from == to {
        return Err(IntErrorKind::Empty);
    }
    if (s[from] == '+' || s[from] == '-') && to - from == 1 {
        return Err(IntErrorKind::InvalidDigit);
    }
    if s[from] == '+' {
        assert(t.drop_first() =~= s@.subrange(from + 1, to as int));
        scan_digits(s, from + 1, to, max, IntErrorKind::PosOverflow)
    } else {
        scan_digits(s, from, to, max, IntErrorKind::PosOverflow)
    }
}

/// Parses `s[from..to]` as a signed integer in `-neg_max ..= pos_max`.
pub fn parse_signed_range(s: &[char], from: usize, to: usize, pos_max: u64, neg_max: u64) -> (r:
    Result<i128, IntErrorKind>)
    requires
        from <= to <= s.len(),
    ensures
        r matches Ok(v) ==> parse_signed(s@.subrange(from as int, to as int), pos_max as nat, neg_max as nat)
            == Ok::<int, IntErrorKind>(v as int),
        r matches Err(e) ==> parse_signed(s@.subrange(from as int, to as int), pos_max as nat, neg_max as nat)
            == Err::<int, IntErrorKind>(e),
        r matches Ok(v) ==> -(neg_max as int) <= v <= pos_max,
{
    let ghost t = s@.subrange(from as int, to as int);
    if from == to {
        return Err(IntErrorKind::Empty);
    }
    if (s[from] == '+' || s[from] == '-') && to - from == 1 {
        return Err(IntErrorKind::InvalidDigit);
    }
    if s[from] == '-' {
        assert(t.drop_first() =~= s@.subrange(from + 1, to as int));
        match scan_digits(s, from + 1, to, neg_max, IntErrorKind::NegOverflow) {
            Ok(v) => Ok(-(v as i128)),
            Err(e) => Err(e),
        }
    } else if s[from] == '+' {
        assert(t.drop_first() =~= s@.subrange(from + 1, to as int));
        match scan_digits(s, from + 1, to, pos_max, IntErrorKind::PosOverflow) {
            Ok(v) => Ok(v as i128),
            Err(e) => Err(e),
        }
    } else {
        match scan_digits(s, from, to, pos_max, IntErrorKind::PosOverflow) {
            Ok(v) => Ok(v as i128),
            Err(e) => Err(e),
        }
    }
}

/// `str::parse::<u32>`.
pub fn parse_u32(s: &str) -> (r: Result<u32, IntErrorKind>)
    ensures
        r matches Ok(v) ==> parse_unsigned(s@, u32::MAX as nat) == Ok::<nat, IntErrorKind>(v as nat),
        r matches Err(e) ==> parse_unsigned(s@, u32::MAX as nat) == Err::<nat, IntErrorKind>(e),
{
    let cs = chars_of(s);
    assert(cs@.subrange(0, cs@.len() as int) =~= s@);
    match parse_unsigned_range(cs.as_slice(), 0, cs.len(), u32::MAX as u64) {
        Ok(v) => {
            proof {
                lemma_parse_unsigned_bound(s@, u32::MAX as nat);
            }
            Ok(v as u32)
        },
        Err(e) => Err(e),
    }
}

/// `str::parse::<u64>`.
pub fn parse_u64(s: &str) -> (r: Result<u64, IntErrorKind>)
    ensures
        r matches Ok(v) ==> parse_unsigned(s@, u64::MAX as nat) == Ok::<nat, IntErrorKind>(v as nat),
        r matches Err(e) ==> parse_unsigned(s@, u64::MAX as nat) == Err::<nat, IntErrorKind>(e),
{
    let cs = chars_of(s);
    assert(cs@.subrange(0, cs@.len() as int) =~= s@);
    parse_unsigned_range(cs.as_slice(), 0, cs.len(), u64::MAX)
}

/// `str::parse::<i32>`.
pub fn parse_i32(s: &str) -> (r: Result<i32, IntErrorKind>)
    ensures
        r matches Ok(v) ==> parse_signed(s@, i32::MAX as nat, 0x8000_0000) == Ok::<int, IntErrorKind>(v as int),
        r matches Err(e) ==> parse_signed(s@, i32::MAX as nat, 0x8000_0000) == Err::<int, IntErrorKind>(e),
{
    let cs = chars_of(s);
    assert(cs@.subrange(0, cs@.len() as int) =~= s@);
    match parse_signed_range(cs.as_slice(), 0, cs.len(), i32::MAX as u64, 0x8000_0000u64) {
        Ok(v) => Ok(v as i32),
        Err(e) => Err(e),
    }
}

pub proof fn lemma_parse_unsigned_bound(s: Seq<char>, max: nat)
    ensures
        parse_unsigned(s, max) matches Ok(v) ==> v <= max,
{
    lemma_digits_value_bound(s, max, IntErrorKind::PosOverflow);
    if s.len() > 0 {
        lemma_digits_value_bound(s.drop_first(), max, IntErrorKind::PosOverflow);
    }
}

} // verus!
