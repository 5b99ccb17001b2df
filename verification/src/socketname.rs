//! The address syntax a client accepts for "where is the server": a
//! literal IPv4 `ip:port`, a literal bracketed IPv6 `[ip]:port`, or a
//! `host:port` pair whose host is resolved at connect time. A bare string
//! with no colon, or a non-numeric port, is a configuration error.

use vstd::prelude::*;
use vstd::string::{StrSliceExecFns, StringExecFns};

verus! {

/// Whether `c` is a decimal digit.
pub open spec fn is_digit(c: char) -> bool {
    '0' as u32 <= c as u32 <= '9' as u32
}

/// The value of the decimal digit `c`.
pub open spec fn digit_val(c: char) -> int {
    c as u32 - '0' as u32
}

/// The number a digit string denotes, most significant digit first.
pub open spec fn digits_val(s: Seq<char>) -> int
    decreases s.len(),
{
    if s.len() == 0 {
        0
    } else {
        digits_val(s.drop_last()) * 10 + digit_val(s.last())
    }
}

/// Every character of `s` is a decimal digit.
pub open spec fn all_digits(s: Seq<char>) -> bool {
    forall|i: int| 0 <= i < s.len() ==> is_digit(#[trigger] s[i])
}

proof fn lemma_digits_val_nonneg(s: Seq<char>)
    requires
        all_digits(s),
    ensures
        digits_val(s) >= 0,
    decreases s.len(),
{
    if s.len() > 0 {
        assert(all_digits(s.drop_last()));
        lemma_digits_val_nonneg(s.drop_last());
        assert(is_digit(s.last()));
    }
}

proof fn lemma_digits_val_take_step(s: Seq<char>, m: int)
    requires
        0 <= m < s.len(),
    ensures
        digits_val(s.take(m + 1)) == digits_val(s.take(m)) * 10 + digit_val(s[m]),
{
    assert(s.take(m + 1).drop_last() =~= s.take(m));
    assert(s.take(m + 1).last() == s[m]);
}

/// A digit string is at least as large as any of its prefixes.
proof fn lemma_digits_val_prefix_le(s: Seq<char>, m: int)
    requires
        all_digits(s),
        0 <= m <= s.len(),
    ensures
        digits_val(s.take(m)) <= digits_val(s),
    decreases s.len() - m,
{
    if m == s.len() {
        assert(s.take(m) =~= s);
    } else {
        lemma_digits_val_take_step(s, m);
        assert(all_digits(s.take(m)));
        lemma_digits_val_nonneg(s.take(m));
        assert(is_digit(s[m]));
        lemma_digits_val_prefix_le(s, m + 1);
    }
}

/// Why a port failed to parse as a 16-bit number, mirroring the integer
/// parser of the standard library.
#[derive(Clone, Copy, Debug, PartialEq, Eq, Structural)]
pub enum IntParseError {
    Empty,
    InvalidDigit,
    PosOverflow,
}

/// What parsing the digit part of a port yields, scanning left to right
/// with the running value `acc`: the first non-digit is an invalid digit,
/// and a value past the 16-bit maximum is an overflow, whichever comes
/// first.
pub open spec fn spec_parse_port_digits(digits: Seq<char>, acc: int) -> Result<u16, IntParseError>
    decreases digits.len(),
{
    if digits.len() == 0 {
        Result::Ok(acc as u16)
    } else if !is_digit(digits[0]) {
        Result::Err(IntParseError::InvalidDigit)
    } else if acc * 10 + digit_val(digits[0]) > 0xffff {
        Result::Err(IntParseError::PosOverflow)
    } else {
        spec_parse_port_digits(digits.drop_first(), acc * 10 + digit_val(digits[0]))
    }
}

/// What parsing a port yields: an empty string is empty, a lone sign is an
/// invalid digit, an optional leading `+` is accepted, and the digits are
/// read left to right.
pub open spec fn spec_parse_port(s: Seq<char>) -> Result<u16, IntParseError> {
    if s.len() == 0 {
        Result::Err(IntParseError::Empty)
    } else if s[0] == '+' {
        if s.len() == 1 {
            Result::Err(IntParseError::InvalidDigit)
        } else {
            spec_parse_port_digits(s.drop_first(), 0)
        }
    } else {
        spec_parse_port_digits(s, 0)
    }
}

/// Parses the port text `s[start..end]`.
fn parse_port_range(s: &str, start: usize, end: usize) -> (r: Result<u16, IntParseError>)
    requires
        start <= end <= s@.len(),
    ensures
        r == spec_parse_port(s@.subrange(start as int, end as int)),
{
    let ghost text = s@.subrange(start as int, end as int);
    if start == end {
        proof {
            assert(text.len() == 0);
        }
        return Result::Err(IntParseError::Empty);
    }
    let first = s.get_char(start);
    proof {
        assert(text[0] == s@[start as int]);
    }
    let dstart: usize = if first == '+' {
        if start + 1 == end {
            proof {
                assert(text.len() == 1);
            }
            return Result::Err(IntParseError::InvalidDigit);
        }
        start + 1
    } else {
        start
    };
    let ghost digits = s@.subrange(dstart as int, end as int);
    proof {
        if first == '+' {
            assert(digits =~= text.drop_first());
        } else {
            assert(digits =~= text);
        }
        assert(spec_parse_port(text) == spec_parse_port_digits(digits, 0));
        assert(digits.skip(0) =~= digits);
        assert(digits.take(0) =~= Seq::<char>::empty());
    }
    let mut m: usize = dstart;
    let mut acc: u32 = 0;
    while m < end
        invariant
            dstart <= m <= end <= s@.len(),
            text == s@.subrange(start as int, end as int),
            digits == s@.subrange(dstart as int, end as int),
            spec_parse_port(text) == spec_parse_port_digits(digits, 0),
            acc <= 0xffff,
            acc as int == digits_val(digits.take(m - dstart)),
            spec_parse_port_digits(digits, 0) == spec_parse_port_digits(
                digits.skip(m - dstart),
                acc as int,
            ),
        decreases end - m,
    {
        let c = s.get_char(m);
        let ghost rest = digits.skip(m - dstart);
        proof {
            assert(rest[0] == digits[m - dstart]);
            assert(digits[m - dstart] == s@[m as int]);
            assert(rest.drop_first() =~= digits.skip(m + 1 - dstart));
        }
        if !(c as u32 >= '0' as u32 && c as u32 <= '9' as u32) {
            proof {
                assert(!is_digit(rest[0]));
                assert(spec_parse_port_digits(rest, acc as int) == Result::<
                    u16,
                    IntParseError,
                >::Err(IntParseError::InvalidDigit));
            }
            return Result::Err(IntParseError::InvalidDigit);
        }
        let d = c as u32 - '0' as u32;
        if acc * 10 + d > 0xffff {
            proof {
                assert(is_digit(rest[0]));
                assert(acc as int * 10 + digit_val(rest[0]) > 0xffff);
                assert(spec_parse_port_digits(rest, acc as int) == Result::<
                    u16,
                    IntParseError,
                >::Err(IntParseError::PosOverflow));
            }
            return Result::Err(IntParseError::PosOverflow);
        }
        proof {
            assert(is_digit(rest[0]));
            lemma_digits_val_take_step(digits, m - dstart);
            assert(spec_parse_port_digits(rest, acc as int) == spec_parse_port_digits(
                rest.drop_first(),
                acc as int * 10 + digit_val(rest[0]),
            ));
        }
        acc = acc * 10 + d;
        m = m + 1;
    }
    proof {
        assert(digits.skip(end - dstart).len() == 0);
        assert(spec_parse_port_digits(digits.skip(end - dstart), acc as int) == Result::<
            u16,
            IntParseError,
        >::Ok(acc as u16));
    }
    Result::Ok(acc as u16)
}

/// The first position at or past `start` that does not hold a digit, or
/// the string's end.
pub open spec fn digit_run_end(s: Seq<char>, start: int) -> int
    decreases s.len() - start,
    when 0 <= start <= s.len()
{
    if start >= s.len() {
        start
    } else if !is_digit(s[start]) {
        start
    } else {
        digit_run_end(s, start + 1)
    }
}

proof fn lemma_digit_run_end(s: Seq<char>, start: int)
    requires
        0 <= start <= s.len(),
    ensures
        start <= digit_run_end(s, start) <= s.len(),
        forall|k: int| start <= k < digit_run_end(s, start) ==> is_digit(#[trigger] s[k]),
        digit_run_end(s, start) < s.len() ==> !is_digit(s[digit_run_end(s, start)]),
    decreases s.len() - start,
{
    if start < s.len() && is_digit(s[start]) {
        lemma_digit_run_end(s, start + 1);
    }
}

/// A run of digits from `start` up to a non-digit at `p` pins the run's
/// end at `p`.
proof fn lemma_digit_run_end_forced(s: Seq<char>, start: int, p: int)
    requires
        0 <= start <= p <= s.len(),
        forall|k: int| start <= k < p ==> is_digit(#[trigger] s[k]),
        p < s.len() ==> !is_digit(s[p]),
    ensures
        digit_run_end(s, start) == p,
    decreases p - start,
{
    if start < p {
        lemma_digit_run_end_forced(s, start + 1, p);
    }
}

/// The first position at or past `start` that holds a colon, or the
/// string's end.
pub open spec fn first_colon_from(s: Seq<char>, start: int) -> int
    decreases s.len() - start,
    when 0 <= start <= s.len()
{
    if start >= s.len() {
        start
    } else if s[start] == ':' {
        start
    } else {
        first_colon_from(s, start + 1)
    }
}

proof fn lemma_first_colon_from(s: Seq<char>, start: int)
    requires
        0 <= start <= s.len(),
    ensures
        start <= first_colon_from(s, start) <= s.len(),
        forall|k: int| start <= k < first_colon_from(s, start) ==> #[trigger] s[k] != ':',
        first_colon_from(s, start) < s.len() ==> s[first_colon_from(s, start)] == ':',
    decreases s.len() - start,
{
    if start < s.len() && s[start] != ':' {
        lemma_first_colon_from(s, start + 1);
    }
}

/// Finds the first colon at or past `start`, or returns `n`.
fn scan_colon(s: &str, n: usize, start: usize) -> (r: usize)
    requires
        n == s@.len(),
        start <= n,
    ensures
        r == first_colon_from(s@, start as int),
{
    let mut m: usize = start;
    while m < n
        invariant
            start <= m <= n == s@.len(),
            first_colon_from(s@, start as int) == first_colon_from(s@, m as int),
        decreases n - m,
    {
        if s.get_char(m) == ':' {
            return m;
        }
        m = m + 1;
    }
    m
}

/// Whether the character at `i` is a decimal digit.
fn char_is_digit(s: &str, i: usize) -> (r: bool)
    requires
        i < s@.len(),
    ensures
        r == is_digit(s@[i as int]),
{
    let c = s.get_char(i);
    c as u32 >= '0' as u32 && c as u32 <= '9' as u32
}

/// The text of an address octet: one to three digits, no leading zero
/// unless the octet is `0` itself, value at most 255.
pub open spec fn is_octet_text(s: Seq<char>) -> bool {
    &&& 1 <= s.len() <= 3
    &&& all_digits(s)
    &&& s.len() > 1 ==> s[0] != '0'
    &&& digits_val(s) <= 255
}

/// The text of a port in a literal address: digits only (leading zeros
/// allowed), value at most the 16-bit maximum.
pub open spec fn is_port_text(s: Seq<char>) -> bool {
    &&& s.len() >= 1
    &&& all_digits(s)
    &&& digits_val(s) <= 0xffff
}

/// The dots at `p1 < p2 < p3` and the colon at `pc` split `s` into four
/// octets and a port: the shape of a literal IPv4 socket address.
pub open spec fn is_ipv4_split(s: Seq<char>, p1: int, p2: int, p3: int, pc: int) -> bool {
    &&& 0 <= p1 < p2 < p3 < pc < s.len()
    &&& s[p1] == '.' && s[p2] == '.' && s[p3] == '.' && s[pc] == ':'
    &&& is_octet_text(s.subrange(0, p1))
    &&& is_octet_text(s.subrange(p1 + 1, p2))
    &&& is_octet_text(s.subrange(p2 + 1, p3))
    &&& is_octet_text(s.subrange(p3 + 1, pc))
    &&& is_port_text(s.subrange(pc + 1, s.len() as int))
}

/// Whether `s` is a literal IPv4 socket address `a.b.c.d:port`.
pub open spec fn is_ipv4_socket_text(s: Seq<char>) -> bool {
    exists|p1: int, p2: int, p3: int, pc: int| #[trigger] is_ipv4_split(s, p1, p2, p3, pc)
}

/// An IPv4 socket address as plain values: the four octets, most
/// significant first, and the port.
#[derive(Clone, Copy, Debug, PartialEq, Eq)]
pub struct SocketAddrV4 {
    pub octets: [u8; 4],
    pub port: u16,
}

/// Whether `sa` carries the octets and port that the literal `s` denotes.
pub open spec fn ipv4_result_matches(s: Seq<char>, sa: SocketAddrV4) -> bool {
    exists|p1: int, p2: int, p3: int, pc: int|
        {
            &&& #[trigger] is_ipv4_split(s, p1, p2, p3, pc)
            &&& sa.octets@[0] as int == digits_val(s.subrange(0, p1))
            &&& sa.octets@[1] as int == digits_val(s.subrange(p1 + 1, p2))
            &&& sa.octets@[2] as int == digits_val(s.subrange(p2 + 1, p3))
            &&& sa.octets@[3] as int == digits_val(s.subrange(p3 + 1, pc))
            &&& sa.port as int == digits_val(s.subrange(pc + 1, s.len() as int))
        }
}

/// In a literal IPv4 socket address the dot and colon positions are pinned
/// by the digit runs, so the split is unique.
proof fn lemma_split_positions(s: Seq<char>, p1: int, p2: int, p3: int, pc: int)
    requires
        is_ipv4_split(s, p1, p2, p3, pc),
    ensures
        p1 == digit_run_end(s, 0),
        p2 == digit_run_end(s, p1 + 1),
        p3 == digit_run_end(s, p2 + 1),
        pc == digit_run_end(s, p3 + 1),
    decreases 0int,
{
    assert(!is_digit('.'));
    assert(!is_digit(':'));
    assert forall|k: int| 0 <= k < p1 implies is_digit(#[trigger] s[k]) by {
        assert(s.subrange(0, p1)[k] == s[k]);
    }
    lemma_digit_run_end_forced(s, 0, p1);
    assert forall|k: int| p1 + 1 <= k < p2 implies is_digit(#[trigger] s[k]) by {
        assert(s.subrange(p1 + 1, p2)[k - (p1 + 1)] == s[k]);
    }
    lemma_digit_run_end_forced(s, p1 + 1, p2);
    assert forall|k: int| p2 + 1 <= k < p3 implies is_digit(#[trigger] s[k]) by {
        assert(s.subrange(p2 + 1, p3)[k - (p2 + 1)] == s[k]);
    }
    lemma_digit_run_end_forced(s, p2 + 1, p3);
    assert forall|k: int| p3 + 1 <= k < pc implies is_digit(#[trigger] s[k]) by {
        assert(s.subrange(p3 + 1, pc)[k - (p3 + 1)] == s[k]);
    }
    lemma_digit_run_end_forced(s, p3 + 1, pc);
}

/// Where `s` is a literal IPv4 socket address, its split stands exactly
/// at the digit runs.
proof fn lemma_ipv4_text_forced(s: Seq<char>)
    ensures
        is_ipv4_socket_text(s) ==> ({
            let p1 = digit_run_end(s, 0);
            let p2 = digit_run_end(s, p1 + 1);
            let p3 = digit_run_end(s, p2 + 1);
            let pc = digit_run_end(s, p3 + 1);
            is_ipv4_split(s, p1, p2, p3, pc)
        }),
{
    if is_ipv4_socket_text(s) {
        let (p1, p2, p3, pc) = choose|p1: int, p2: int, p3: int, pc: int|
            #[trigger] is_ipv4_split(s, p1, p2, p3, pc);
        lemma_split_positions(s, p1, p2, p3, pc);
    }
}

/// Scans one octet starting at `start`: its value and the position one
/// past its digits on success; on failure, the digit run from `start`
/// forms no valid octet.
fn scan_octet(s: &str, n: usize, start: usize) -> (r: Option<(u8, usize)>)
    requires
        n == s@.len(),
        start <= n,
    ensures
        match r {
            Option::Some(ve) => {
                &&& start < ve.1 <= n
                &&& ve.1 == digit_run_end(s@, start as int)
                &&& is_octet_text(s@.subrange(start as int, ve.1 as int))
                &&& ve.0 as int == digits_val(s@.subrange(start as int, ve.1 as int))
            },
            Option::None => !is_octet_text(
                s@.subrange(start as int, digit_run_end(s@, start as int)),
            ),
        },
{
    proof {
        lemma_digit_run_end(s@, start as int);
    }
    let ghost re = digit_run_end(s@, start as int);
    let ghost run = s@.subrange(start as int, re);
    let mut e: usize = start;
    let mut v: u32 = 0;
    while e < n && char_is_digit(s, e)
        invariant
            start <= e <= n == s@.len(),
            re == digit_run_end(s@, start as int),
            run == s@.subrange(start as int, re),
            e <= re,
            forall|k: int| start <= k < e ==> is_digit(#[trigger] s@[k]),
            e - start <= 3,
            e - start == 0 ==> v == 0,
            e - start == 1 ==> v <= 9,
            e - start == 2 ==> v <= 99,
            e - start == 3 ==> v <= 999,
            v as int == digits_val(s@.subrange(start as int, e as int)),
        decreases n - e,
    {
        proof {
            lemma_digit_run_end(s@, start as int);
            if e == re {
                assert(!is_digit(s@[e as int]));
                assert(false);
            }
        }
        if e - start >= 3 {
            // a fourth digit: the run is longer than any valid octet
            proof {
                assert(run.len() > 3);
            }
            return Option::None;
        }
        let d = s.get_char(e) as u32 - '0' as u32;
        proof {
            lemma_digits_val_take_step(run, e - start);
            assert(run.take(e - start) =~= s@.subrange(start as int, e as int));
            assert(run.take(e - start + 1) =~= s@.subrange(start as int, e as int + 1));
            assert(run[e - start] == s@[e as int]);
        }
        v = v * 10 + d;
        e = e + 1;
    }
    proof {
        lemma_digit_run_end_forced(s@, start as int, e as int);
        assert(run =~= s@.subrange(start as int, e as int));
    }
    if e == start {
        proof {
            assert(run.len() == 0);
        }
        return Option::None;
    }
    if e - start > 1 && s.get_char(start) == '0' {
        proof {
            assert(run[0] == '0');
        }
        return Option::None;
    }
    if v > 255 {
        return Option::None;
    }
    proof {
        assert(all_digits(run)) by {
            assert forall|k: int| 0 <= k < run.len() implies is_digit(#[trigger] run[k]) by {
                assert(run[k] == s@[start + k]);
            }
        }
        assert(is_octet_text(run));
    }
    Option::Some((v as u8, e))
}

/// Parses `s` as a literal IPv4 socket address; `None` exactly where `s`
/// has no such shape.
fn parse_ipv4(s: &str, n: usize) -> (r: Option<SocketAddrV4>)
    requires
        n == s@.len(),
    ensures
        match r {
            Option::Some(sa) => ipv4_result_matches(s@, sa),
            Option::None => !is_ipv4_socket_text(s@),
        },
{
    proof {
        assert(!is_digit('.'));
        assert(!is_digit(':'));
    }
    let o1 = match scan_octet(s, n, 0) {
        Option::Some(ve) => ve,
        Option::None => {
            proof {
                lemma_ipv4_text_forced(s@);
            }
            return Option::None;
        },
    };
    let e1 = o1.1;
    if e1 >= n || s.get_char(e1) != '.' {
        proof {
            lemma_ipv4_text_forced(s@);
        }
        return Option::None;
    }
    let o2 = match scan_octet(s, n, e1 + 1) {
        Option::Some(ve) => ve,
        Option::None => {
            proof {
                lemma_ipv4_text_forced(s@);
            }
            return Option::None;
        },
    };
    let e2 = o2.1;
    if e2 >= n || s.get_char(e2) != '.' {
        proof {
            lemma_ipv4_text_forced(s@);
        }
        return Option::None;
    }
    let o3 = match scan_octet(s, n, e2 + 1) {
        Option::Some(ve) => ve,
        Option::None => {
            proof {
                lemma_ipv4_text_forced(s@);
            }
            return Option::None;
        },
    };
    let e3 = o3.1;
    if e3 >= n || s.get_char(e3) != '.' {
        proof {
            lemma_ipv4_text_forced(s@);
        }
        return Option::None;
    }
    let o4 = match scan_octet(s, n, e3 + 1) {
        Option::Some(ve) => ve,
        Option::None => {
            proof {
                lemma_ipv4_text_forced(s@);
            }
            return Option::None;
        },
    };
    let e4 = o4.1;
    if e4 >= n || s.get_char(e4) != ':' {
        proof {
            lemma_ipv4_text_forced(s@);
        }
        return Option::None;
    }
    // the port: digits to the string's end, value at most the 16-bit maximum
    let port = match scan_port_to_end(s, n, e4 + 1) {
        Option::Some(v) => v,
        Option::None => {
            // a split would put its port text exactly after the colon
            proof {
                lemma_ipv4_text_forced(s@);
            }
            return Option::None;
        },
    };
    let sa = SocketAddrV4 { octets: [o1.0, o2.0, o3.0, o4.0], port };
    proof {
        assert(is_ipv4_split(s@, e1 as int, e2 as int, e3 as int, e4 as int));
        assert(sa.octets@[0] == o1.0 && sa.octets@[1] == o2.0 && sa.octets@[2] == o3.0
            && sa.octets@[3] == o4.0);
    }
    Option::Some(sa)
}

/// Whether `c` is a hexadecimal digit, either case.
pub open spec fn is_hex_digit(c: char) -> bool {
    ||| is_digit(c)
    ||| 'a' as u32 <= c as u32 <= 'f' as u32
    ||| 'A' as u32 <= c as u32 <= 'F' as u32
}

/// The value of the hexadecimal digit `c`.
pub open spec fn hex_digit_val(c: char) -> int {
    if is_digit(c) {
        digit_val(c)
    } else if 'a' as u32 <= c as u32 <= 'f' as u32 {
        c as u32 - 'a' as u32 + 10
    } else {
        c as u32 - 'A' as u32 + 10
    }
}

/// The number a hexadecimal digit string denotes, most significant digit
/// first.
pub open spec fn hex_val(s: Seq<char>) -> int
    decreases s.len(),
{
    if s.len() == 0 {
        0
    } else {
        hex_val(s.drop_last()) * 16 + hex_digit_val(s.last())
    }
}

proof fn lemma_hex_val_take_step(s: Seq<char>, m: int)
    requires
        0 <= m < s.len(),
    ensures
        hex_val(s.take(m + 1)) == hex_val(s.take(m)) * 16 + hex_digit_val(s[m]),
{
    assert(s.take(m + 1).drop_last() =~= s.take(m));
    assert(s.take(m + 1).last() == s[m]);
}

/// The first position at or past `start` that holds no hexadecimal digit,
/// or the string's end.
pub open spec fn hex_run_end(s: Seq<char>, start: int) -> int
    decreases s.len() - start,
    when 0 <= start <= s.len()
{
    if start >= s.len() {
        start
    } else if !is_hex_digit(s[start]) {
        start
    } else {
        hex_run_end(s, start + 1)
    }
}

proof fn lemma_hex_run_end(s: Seq<char>, start: int)
    requires
        0 <= start <= s.len(),
    ensures
        start <= hex_run_end(s, start) <= s.len(),
        forall|k: int| start <= k < hex_run_end(s, start) ==> is_hex_digit(#[trigger] s[k]),
        hex_run_end(s, start) < s.len() ==> !is_hex_digit(s[hex_run_end(s, start)]),
    decreases s.len() - start,
{
    if start < s.len() && is_hex_digit(s[start]) {
        lemma_hex_run_end(s, start + 1);
    }
}

proof fn lemma_hex_run_end_forced(s: Seq<char>, start: int, p: int)
    requires
        0 <= start <= p <= s.len(),
        forall|k: int| start <= k < p ==> is_hex_digit(#[trigger] s[k]),
        p < s.len() ==> !is_hex_digit(s[p]),
    ensures
        hex_run_end(s, start) == p,
    decreases p - start,
{
    if start < p {
        lemma_hex_run_end_forced(s, start + 1, p);
    }
}

/// One group of a literal IPv6 address: the full run of hexadecimal
/// digits at `i`, one to four of them, with its value and the position
/// one past the run.
pub open spec fn group_at(s: Seq<char>, i: int) -> Option<(u16, int)> {
    let e = hex_run_end(s, i);
    if 1 <= e - i <= 4 {
        Option::Some((hex_val(s.subrange(i, e)) as u16, e))
    } else {
        Option::None
    }
}

/// One embedded address octet: the full digit run at `i`, where it forms
/// a valid octet, with its value and the position one past the run.
pub open spec fn octet_at(s: Seq<char>, i: int) -> Option<(u8, int)> {
    let e = digit_run_end(s, i);
    if is_octet_text(s.subrange(i, e)) {
        Option::Some((digits_val(s.subrange(i, e)) as u8, e))
    } else {
        Option::None
    }
}

/// An embedded IPv4 address at `i`, as the two 16-bit groups its four
/// octets stand for, with the position one past the last octet.
pub open spec fn v4_groups_at(s: Seq<char>, i: int) -> Option<((u16, u16), int)> {
    match octet_at(s, i) {
        Option::Some(a) => if a.1 < s.len() && s[a.1] == '.' {
            match octet_at(s, a.1 + 1) {
                Option::Some(b) => if b.1 < s.len() && s[b.1] == '.' {
                    match octet_at(s, b.1 + 1) {
                        Option::Some(c) => if c.1 < s.len() && s[c.1] == '.' {
                            match octet_at(s, c.1 + 1) {
                                Option::Some(d) => Option::Some(
                                    (
                                        (
                                            (a.0 * 256 + b.0) as u16,
                                            (c.0 * 256 + d.0) as u16,
                                        ),
                                        d.1,
                                    ),
                                ),
                                Option::None => Option::None,
                            }
                        } else {
                            Option::None
                        },
                        Option::None => Option::None,
                    }
                } else {
                    Option::None
                },
                Option::None => Option::None,
            }
        } else {
            Option::None
        },
        Option::None => Option::None,
    }
}

/// Reads up to `limit` colon-separated groups of a literal IPv6 address
/// from `pos`: where at least two slots remain, an embedded IPv4 address
/// may stand as the last two groups and end the run. Yields the groups
/// gathered onto `acc`, the position after them, and whether an embedded
/// address ended the run.
pub open spec fn spec_read_groups(
    s: Seq<char>,
    pos: int,
    i: int,
    limit: int,
    acc: Seq<u16>,
) -> (Seq<u16>, int, bool)
    decreases limit - i,
    when 0 <= i <= limit
{
    if i >= limit {
        (acc, pos, false)
    } else if i > 0 && !(pos < s.len() && s[pos] == ':') {
        (acc, pos, false)
    } else {
        let sp = if i == 0 {
            pos
        } else {
            pos + 1
        };
        let v4 = if i + 2 <= limit {
            v4_groups_at(s, sp)
        } else {
            Option::None
        };
        match v4 {
            Option::Some(ge) => (acc.push(ge.0.0).push(ge.0.1), ge.1, true),
            Option::None => match group_at(s, sp) {
                Option::Some(g) => spec_read_groups(s, g.1, i + 1, limit, acc.push(g.0)),
                Option::None => (acc, pos, false),
            },
        }
    }
}

/// Reading groups adds at most one group per remaining slot.
proof fn lemma_read_groups_len(s: Seq<char>, pos: int, i: int, limit: int, acc: Seq<u16>)
    requires
        0 <= i <= limit,
    ensures
        ({
            let r = spec_read_groups(s, pos, i, limit, acc);
            acc.len() <= r.0.len() <= acc.len() + (limit - i)
        }),
    decreases limit - i,
{
    if i < limit && (i == 0 || (pos < s.len() && s[pos] == ':')) {
        let sp = if i == 0 {
            pos
        } else {
            pos + 1
        };
        let v4 = if i + 2 <= limit {
            v4_groups_at(s, sp)
        } else {
            Option::<((u16, u16), int)>::None
        };
        if v4 is None {
            match group_at(s, sp) {
                Option::Some(g) => {
                    lemma_read_groups_len(s, g.1, i + 1, limit, acc.push(g.0));
                },
                Option::None => {},
            }
        }
    }
}

/// The eight 16-bit segments of a literal IPv6 address starting at `pos`:
/// either eight groups outright, or fewer groups, a `::` standing for one
/// or more zero groups, and a tail of groups; an embedded IPv4 address may
/// only complete the eight or end the tail. Yields the segments and the
/// position one past the address.
pub open spec fn spec_ipv6_groups(s: Seq<char>, pos: int) -> Option<(Seq<u16>, int)> {
    let head = spec_read_groups(s, pos, 0, 8, Seq::<u16>::empty());
    if head.0.len() == 8 {
        Option::Some((head.0, head.1))
    } else if head.2 {
        Option::None
    } else if head.1 + 1 < s.len() && s[head.1] == ':' && s[head.1 + 1] == ':' {
        let tail = spec_read_groups(s, head.1 + 2, 0, 7 - head.0.len() as int, Seq::<u16>::empty());
        Option::Some(
            (
                head.0 + Seq::new((8 - head.0.len() - tail.0.len()) as nat, |k: int| 0u16) + tail.0,
                tail.1,
            ),
        )
    } else {
        Option::None
    }
}

/// The close of a literal IPv6 socket address at `p`: the bracket, the
/// colon, and the port running to the string's end.
pub open spec fn spec_v6_bracket_end(s: Seq<char>, segs: Seq<u16>, scope: u32, p: int) -> Option<
    (Seq<u16>, u32, u16),
> {
    if p + 1 < s.len() && s[p] == ']' && s[p + 1] == ':' && is_port_text(
        s.subrange(p + 2, s.len() as int),
    ) {
        Option::Some((segs, scope, digits_val(s.subrange(p + 2, s.len() as int)) as u16))
    } else {
        Option::None
    }
}

/// A literal IPv6 socket address `[address]:port`, with an optional
/// numeric scope after `%`: its eight segments, its scope (zero where
/// none is written), and its port. `None` where `s` has no such shape.
pub open spec fn spec_ipv6_socket(s: Seq<char>) -> Option<(Seq<u16>, u32, u16)> {
    if s.len() == 0 || s[0] != '[' {
        Option::None
    } else {
        match spec_ipv6_groups(s, 1) {
            Option::None => Option::None,
            Option::Some(a) => if a.1 < s.len() && s[a.1] == '%' {
                let e = digit_run_end(s, a.1 + 1);
                if e > a.1 + 1 && digits_val(s.subrange(a.1 + 1, e)) <= 0xffff_ffff {
                    spec_v6_bracket_end(
                        s,
                        a.0,
                        digits_val(s.subrange(a.1 + 1, e)) as u32,
                        e,
                    )
                } else {
                    Option::None
                }
            } else {
                spec_v6_bracket_end(s, a.0, 0, a.1)
            },
        }
    }
}

/// An IPv6 socket address as plain values: the eight 16-bit segments,
/// most significant first, the scope, and the port.
#[derive(Clone, Copy, Debug, PartialEq, Eq)]
pub struct SocketAddrV6 {
    pub segments: [u16; 8],
    pub scope_id: u32,
    pub port: u16,
}

/// Whether `sa` carries the segments, scope, and port that the literal
/// `s` denotes.
pub open spec fn ipv6_result_matches(s: Seq<char>, sa: SocketAddrV6) -> bool {
    spec_ipv6_socket(s) == Option::Some((sa.segments@, sa.scope_id, sa.port))
}

/// Whether the character at `i` is a hexadecimal digit.
fn char_is_hex(s: &str, i: usize) -> (r: bool)
    requires
        i < s@.len(),
    ensures
        r == is_hex_digit(s@[i as int]),
{
    let c = s.get_char(i) as u32;
    (c >= '0' as u32 && c <= '9' as u32) || (c >= 'a' as u32 && c <= 'f' as u32) || (c >= 'A'
        as u32 && c <= 'F' as u32)
}

/// The value of the hexadecimal digit at `i`.
fn hex_at(s: &str, i: usize) -> (r: u32)
    requires
        i < s@.len(),
        is_hex_digit(s@[i as int]),
    ensures
        r == hex_digit_val(s@[i as int]),
        r <= 15,
{
    let c = s.get_char(i) as u32;
    if c >= '0' as u32 && c <= '9' as u32 {
        c - '0' as u32
    } else if c >= 'a' as u32 && c <= 'f' as u32 {
        c - 'a' as u32 + 10
    } else {
        c - 'A' as u32 + 10
    }
}

/// Scans one address group at `i`: its value and the position one past
/// its digits, or `None` where the run at `i` forms no valid group.
fn scan_hex_group(s: &str, n: usize, i: usize) -> (r: Option<(u16, usize)>)
    requires
        n == s@.len(),
        i <= n,
    ensures
        match r {
            Option::Some(g) => group_at(s@, i as int) == Option::Some((g.0, g.1 as int)) && i
                < g.1 <= n,
            Option::None => group_at(s@, i as int) is None,
        },
{
    proof {
        lemma_hex_run_end(s@, i as int);
    }
    let ghost re = hex_run_end(s@, i as int);
    let ghost run = s@.subrange(i as int, re);
    let mut e: usize = i;
    let mut v: u32 = 0;
    while e < n && char_is_hex(s, e)
        invariant
            i <= e <= n == s@.len(),
            re == hex_run_end(s@, i as int),
            run == s@.subrange(i as int, re),
            e <= re,
            forall|k: int| i <= k < e ==> is_hex_digit(#[trigger] s@[k]),
            e - i <= 4,
            e - i == 0 ==> v == 0,
            e - i == 1 ==> v <= 0xf,
            e - i == 2 ==> v <= 0xff,
            e - i == 3 ==> v <= 0xfff,
            e - i == 4 ==> v <= 0xffff,
            v as int == hex_val(s@.subrange(i as int, e as int)),
        decreases n - e,
    {
        proof {
            lemma_hex_run_end(s@, i as int);
            if e == re {
                assert(!is_hex_digit(s@[e as int]));
                assert(false);
            }
        }
        if e - i >= 4 {
            // a fifth digit: the run is longer than any valid group
            proof {
                assert(run.len() > 4);
            }
            return Option::None;
        }
        let d = hex_at(s, e);
        proof {
            lemma_hex_val_take_step(run, e - i);
            assert(run.take(e - i) =~= s@.subrange(i as int, e as int));
            assert(run.take(e - i + 1) =~= s@.subrange(i as int, e as int + 1));
            assert(run[e - i] == s@[e as int]);
        }
        v = v * 16 + d;
        e = e + 1;
    }
    proof {
        lemma_hex_run_end_forced(s@, i as int, e as int);
        assert(run =~= s@.subrange(i as int, e as int));
    }
    if e == i {
        proof {
            assert(run.len() == 0);
        }
        return Option::None;
    }
    Option::Some((v as u16, e))
}

/// Scans an embedded IPv4 address at `i`: the two 16-bit groups its
/// octets stand for and the position one past them.
fn scan_v4_groups(s: &str, n: usize, i: usize) -> (r: Option<((u16, u16), usize)>)
    requires
        n == s@.len(),
        i <= n,
    ensures
        match r {
            Option::Some(ge) => v4_groups_at(s@, i as int) == Option::Some((ge.0, ge.1 as int))
                && i < ge.1 <= n,
            Option::None => v4_groups_at(s@, i as int) is None,
        },
{
    let a = match scan_octet(s, n, i) {
        Option::Some(x) => x,
        Option::None => {
            return Option::None;
        },
    };
    if !(a.1 < n && s.get_char(a.1) == '.') {
        return Option::None;
    }
    let b = match scan_octet(s, n, a.1 + 1) {
        Option::Some(x) => x,
        Option::None => {
            return Option::None;
        },
    };
    if !(b.1 < n && s.get_char(b.1) == '.') {
        return Option::None;
    }
    let c = match scan_octet(s, n, b.1 + 1) {
        Option::Some(x) => x,
        Option::None => {
            return Option::None;
        },
    };
    if !(c.1 < n && s.get_char(c.1) == '.') {
        return Option::None;
    }
    let d = match scan_octet(s, n, c.1 + 1) {
        Option::Some(x) => x,
        Option::None => {
            return Option::None;
        },
    };
    let g1: u16 = (a.0 as u16) * 256 + (b.0 as u16);
    let g2: u16 = (c.0 as u16) * 256 + (d.0 as u16);
    Option::Some(((g1, g2), d.1))
}

/// Scans a port running to the string's end: digits only, value at most
/// the 16-bit maximum.
fn scan_port_to_end(s: &str, n: usize, start: usize) -> (r: Option<u16>)
    requires
        n == s@.len(),
        start <= n,
    ensures
        match r {
            Option::Some(v) => is_port_text(s@.subrange(start as int, n as int)) && v as int
                == digits_val(s@.subrange(start as int, n as int)),
            Option::None => !is_port_text(s@.subrange(start as int, n as int)),
        },
{
    let ghost ptext = s@.subrange(start as int, n as int);
    proof {
        assert(ptext.take(0) =~= Seq::<char>::empty());
    }
    if start == n {
        proof {
            assert(ptext.len() == 0);
        }
        return Option::None;
    }
    let mut m: usize = start;
    let mut acc: u32 = 0;
    while m < n
        invariant
            start <= m <= n == s@.len(),
            ptext == s@.subrange(start as int, n as int),
            acc <= 0xffff,
            acc as int == digits_val(ptext.take(m - start)),
            forall|k: int| start <= k < m ==> is_digit(#[trigger] s@[k]),
        decreases n - m,
    {
        let c = s.get_char(m);
        proof {
            assert(ptext[m - start] == s@[m as int]);
        }
        if !(c as u32 >= '0' as u32 && c as u32 <= '9' as u32) {
            proof {
                assert(!is_digit(ptext[m - start]));
            }
            return Option::None;
        }
        let d = c as u32 - '0' as u32;
        if acc * 10 + d > 0xffff {
            proof {
                if is_port_text(ptext) {
                    lemma_digits_val_take_step(ptext, m - start);
                    lemma_digits_val_prefix_le(ptext, m - start + 1);
                    assert(digits_val(ptext.take(m - start + 1)) > 0xffff);
                    assert(false);
                }
            }
            return Option::None;
        }
        proof {
            lemma_digits_val_take_step(ptext, m - start);
        }
        acc = acc * 10 + d;
        m = m + 1;
    }
    proof {
        assert(ptext.take(n - start) =~= ptext);
        assert(all_digits(ptext)) by {
            assert forall|k: int| 0 <= k < ptext.len() implies is_digit(#[trigger] ptext[k]) by {
                assert(ptext[k] == s@[start + k]);
            }
        }
    }
    Option::Some(acc as u16)
}

/// Reads up to `limit` colon-separated groups from `pos`: the groups, the
/// position after them, and whether an embedded IPv4 address ended the
/// run.
fn scan_groups(s: &str, n: usize, pos: usize, limit: usize) -> (r: (Vec<u16>, usize, bool))
    requires
        n == s@.len(),
        pos <= n,
        limit <= 8,
    ensures
        spec_read_groups(s@, pos as int, 0, limit as int, Seq::<u16>::empty()) == (r.0@, r.1
            as int, r.2),
        r.1 <= n,
{
    let mut groups: Vec<u16> = Vec::new();
    let mut p: usize = pos;
    let mut i: usize = 0;
    proof {
        assert(groups@ =~= Seq::<u16>::empty());
    }
    while i < limit
        invariant
            n == s@.len(),
            pos <= p <= n,
            i <= limit <= 8,
            spec_read_groups(s@, pos as int, 0, limit as int, Seq::<u16>::empty())
                == spec_read_groups(s@, p as int, i as int, limit as int, groups@),
        decreases limit - i,
    {
        let sp: usize = if i > 0 {
            if !(p < n && s.get_char(p) == ':') {
                proof {
                    assert(spec_read_groups(s@, p as int, i as int, limit as int, groups@) == (
                        groups@,
                        p as int,
                        false,
                    ));
                }
                return (groups, p, false);
            }
            p + 1
        } else {
            p
        };
        if i + 2 <= limit {
            match scan_v4_groups(s, n, sp) {
                Option::Some(ge) => {
                    let ghost before = groups@;
                    groups.push(ge.0.0);
                    groups.push(ge.0.1);
                    proof {
                        assert(groups@ =~= before.push(ge.0.0).push(ge.0.1));
                        assert(spec_read_groups(s@, p as int, i as int, limit as int, before)
                            == (groups@, ge.1 as int, true));
                    }
                    return (groups, ge.1, true);
                },
                Option::None => {},
            }
        }
        match scan_hex_group(s, n, sp) {
            Option::Some(g) => {
                let ghost before = groups@;
                groups.push(g.0);
                proof {
                    assert(spec_read_groups(s@, p as int, i as int, limit as int, before)
                        == spec_read_groups(s@, g.1 as int, i + 1 as int, limit as int, before.push(
                        g.0,
                    )));
                    assert(groups@ =~= before.push(g.0));
                }
                p = g.1;
                i = i + 1;
            },
            Option::None => {
                proof {
                    assert(spec_read_groups(s@, p as int, i as int, limit as int, groups@) == (
                        groups@,
                        p as int,
                        false,
                    ));
                }
                return (groups, p, false);
            },
        }
    }
    proof {
        assert(spec_read_groups(s@, p as int, i as int, limit as int, groups@) == (
            groups@,
            p as int,
            false,
        ));
    }
    (groups, p, false)
}

/// Parses `s` as a literal IPv6 socket address `[address]:port`; `None`
/// exactly where `s` has no such shape.
fn parse_ipv6(s: &str, n: usize) -> (r: Option<SocketAddrV6>)
    requires
        n == s@.len(),
    ensures
        match r {
            Option::Some(sa) => ipv6_result_matches(s@, sa),
            Option::None => spec_ipv6_socket(s@) is None,
        },
{
    if n == 0 || s.get_char(0) != '[' {
        return Option::None;
    }
    let head = scan_groups(s, n, 1, 8);
    proof {
        lemma_read_groups_len(s@, 1, 0, 8, Seq::<u16>::empty());
    }
    let (mut segs, p0, head_v4) = head;
    let mut p: usize = p0;
    if segs.len() != 8 {
        if head_v4 {
            return Option::None;
        }
        if !(p < n && s.get_char(p) == ':' && p + 1 < n && s.get_char(p + 1) == ':') {
            return Option::None;
        }
        let hl = segs.len();
        let tail = scan_groups(s, n, p + 2, 7 - hl);
        proof {
            lemma_read_groups_len(s@, (p + 2) as int, 0, (7 - hl) as int, Seq::<u16>::empty());
        }
        let (tgroups, tend, _tail_v4) = tail;
        let tl = tgroups.len();
        let ghost head0 = segs@;
        let mut z: usize = 0;
        proof {
            assert(segs@ =~= head0 + Seq::new(0nat, |k: int| 0u16));
        }
        while z < 8 - hl - tl
            invariant
                hl + tl <= 7,
                z <= 8 - hl - tl,
                head0.len() == hl,
                segs@ == head0 + Seq::new(z as nat, |k: int| 0u16),
            decreases 8 - hl - tl - z,
        {
            segs.push(0);
            z = z + 1;
            proof {
                assert(segs@ =~= head0 + Seq::new(z as nat, |k: int| 0u16));
            }
        }
        let ghost zeros = Seq::new((8 - hl - tl) as nat, |k: int| 0u16);
        let mut t: usize = 0;
        proof {
            assert(segs@ =~= head0 + zeros + tgroups@.take(0));
        }
        while t < tl
            invariant
                hl + tl <= 7,
                t <= tl == tgroups@.len(),
                head0.len() == hl,
                zeros == Seq::new((8 - hl - tl) as nat, |k: int| 0u16),
                segs@ == head0 + zeros + tgroups@.take(t as int),
            decreases tl - t,
        {
            segs.push(tgroups[t]);
            t = t + 1;
            proof {
                assert(segs@ =~= head0 + zeros + tgroups@.take(t as int));
            }
        }
        proof {
            assert(tgroups@.take(tl as int) =~= tgroups@);
            assert(segs@ == head0 + zeros + tgroups@);
        }
        p = tend;
    }
    proof {
        assert(spec_ipv6_groups(s@, 1) == Option::Some((segs@, p as int)));
    }
    // the optional numeric scope after '%'
    let mut scope: u32 = 0;
    let mut bp: usize = p;
    if p < n && s.get_char(p) == '%' {
        let ghost stext_end = digit_run_end(s@, (p + 1) as int);
        proof {
            lemma_digit_run_end(s@, (p + 1) as int);
        }
        let mut m: usize = p + 1;
        let mut acc: u64 = 0;
        while m < n && char_is_digit(s, m)
            invariant
                n == s@.len(),
                s@.len() > 0 && s@[0] == '[',
                spec_ipv6_groups(s@, 1) == Option::Some((segs@, p as int)),
                p < n && s@[p as int] == '%',
                p + 1 <= m <= n,
                stext_end == digit_run_end(s@, (p + 1) as int),
                m <= stext_end,
                forall|k: int| p + 1 <= k < m ==> is_digit(#[trigger] s@[k]),
                acc <= 0xffff_ffff,
                acc as int == digits_val(s@.subrange((p + 1) as int, m as int)),
            decreases n - m,
        {
            proof {
                lemma_digit_run_end(s@, (p + 1) as int);
                if m == stext_end {
                    assert(!is_digit(s@[m as int]));
                    assert(false);
                }
            }
            let d = s.get_char(m) as u32 - '0' as u32;
            proof {
                let run = s@.subrange((p + 1) as int, stext_end);
                assert(run.take(m - (p + 1)) =~= s@.subrange((p + 1) as int, m as int));
                assert(run.take(m - (p + 1) + 1) =~= s@.subrange((p + 1) as int, (m + 1) as int));
                assert(run[m - (p + 1)] == s@[m as int]);
                lemma_digits_val_take_step(run, m - (p + 1));
            }
            let next: u64 = acc * 10 + (d as u64);
            if next > 0xffff_ffff {
                proof {
                    let run = s@.subrange((p + 1) as int, stext_end);
                    assert(all_digits(run)) by {
                        assert forall|k: int| 0 <= k < run.len() implies is_digit(
                            #[trigger] run[k],
                        ) by {
                            assert(run[k] == s@[p + 1 + k]);
                        }
                    }
                    lemma_digits_val_prefix_le(run, m - (p + 1) + 1);
                    assert(digits_val(run) > 0xffff_ffff);
                }
                return Option::None;
            }
            acc = next;
            m = m + 1;
        }
        proof {
            lemma_digit_run_end_forced(s@, (p + 1) as int, m as int);
        }
        if m == p + 1 {
            return Option::None;
        }
        scope = acc as u32;
        bp = m;
        proof {
            assert(digits_val(s@.subrange((p + 1) as int, m as int)) == acc);
        }
    }
    // the bracket, the colon, and the port to the string's end
    if !(bp < n && s.get_char(bp) == ']' && bp + 1 < n && s.get_char(bp + 1) == ':') {
        return Option::None;
    }
    let port = match scan_port_to_end(s, n, bp + 2) {
        Option::Some(v) => v,
        Option::None => {
            return Option::None;
        },
    };
    let sa = SocketAddrV6 {
        segments: [segs[0], segs[1], segs[2], segs[3], segs[4], segs[5], segs[6], segs[7]],
        scope_id: scope,
        port,
    };
    proof {
        assert(sa.segments@ =~= segs@);
    }
    Option::Some(sa)
}

/// A socket name: a literal IPv4 or IPv6 socket address, or a host name
/// with a port, the host to be resolved at connect time.
#[derive(Debug)]
pub enum SocketName {
    Dns(String, u16),
    Addr(SocketAddrV4),
    Addr6(SocketAddrV6),
}

/// Why a socket name failed to parse.
#[derive(Clone, Copy, Debug, PartialEq, Eq, Structural)]
pub enum SocketNameError {
    ParseIntError(IntParseError),
    FormatError,
}

impl SocketNameError {
    /// What the error's message says.
    pub open spec fn spec_message(self) -> Seq<char> {
        match self {
            SocketNameError::ParseIntError(IntParseError::Empty) => "cannot parse integer from empty string"@,
            SocketNameError::ParseIntError(IntParseError::InvalidDigit) => "invalid digit found in string"@,
            SocketNameError::ParseIntError(IntParseError::PosOverflow) => "number too large to fit in target type"@,
            SocketNameError::FormatError => "Doesn't match the either format. Expect something like 'auth.cosi.clarkson.edu:8765' or '128.153.145.3'."@,
        }
    }

    /// The error's message.
    pub fn message(&self) -> (r: &'static str)
        ensures
            r@ == self.spec_message(),
    {
        match self {
            SocketNameError::ParseIntError(IntParseError::Empty) => "cannot parse integer from empty string",
            SocketNameError::ParseIntError(IntParseError::InvalidDigit) => "invalid digit found in string",
            SocketNameError::ParseIntError(IntParseError::PosOverflow) => "number too large to fit in target type",
            SocketNameError::FormatError => "Doesn't match the either format. Expect something like 'auth.cosi.clarkson.edu:8765' or '128.153.145.3'.",
        }
    }
}

/// The port text of a `host:port` name: the characters between the first
/// colon and the second colon or the string's end.
pub open spec fn dns_port_text(s: Seq<char>) -> Seq<char> {
    let fc = first_colon_from(s, 0);
    s.subrange(fc + 1, first_colon_from(s, fc + 1))
}

impl SocketName {
    /// Parses a socket name: a literal IPv4 or bracketed IPv6 socket
    /// address is taken as an address; otherwise a string with a colon is
    /// a host name with the port text that follows the first colon; a
    /// string with no colon at all does not match either format.
    pub fn from_str(s: &str) -> (r: Result<SocketName, SocketNameError>)
        ensures
            match r {
                Result::Ok(SocketName::Addr(sa)) => ipv4_result_matches(s@, sa),
                Result::Ok(SocketName::Addr6(sa)) => {
                    &&& !is_ipv4_socket_text(s@)
                    &&& ipv6_result_matches(s@, sa)
                },
                Result::Ok(SocketName::Dns(host, port)) => {
                    &&& !is_ipv4_socket_text(s@)
                    &&& spec_ipv6_socket(s@) is None
                    &&& first_colon_from(s@, 0) < s@.len()
                    &&& host@ == s@.subrange(0, first_colon_from(s@, 0))
                    &&& spec_parse_port(dns_port_text(s@)) == Result::<u16, IntParseError>::Ok(port)
                },
                Result::Err(SocketNameError::ParseIntError(k)) => {
                    &&& !is_ipv4_socket_text(s@)
                    &&& spec_ipv6_socket(s@) is None
                    &&& first_colon_from(s@, 0) < s@.len()
                    &&& spec_parse_port(dns_port_text(s@)) == Result::<u16, IntParseError>::Err(k)
                },
                Result::Err(SocketNameError::FormatError) => {
                    &&& !is_ipv4_socket_text(s@)
                    &&& spec_ipv6_socket(s@) is None
                    &&& first_colon_from(s@, 0) == s@.len()
                },
            },
    {
        let n = s.unicode_len();
        match parse_ipv4(s, n) {
            Option::Some(sa) => {
                return Result::Ok(SocketName::Addr(sa));
            },
            Option::None => {},
        }
        match parse_ipv6(s, n) {
            Option::Some(sa) => {
                return Result::Ok(SocketName::Addr6(sa));
            },
            Option::None => {},
        }
        {
            {
                let fc = scan_colon(s, n, 0);
                if fc == n {
                    return Result::Err(SocketNameError::FormatError);
                }
                proof {
                    lemma_first_colon_from(s@, 0);
                    lemma_first_colon_from(s@, fc as int + 1);
                }
                let pend = scan_colon(s, n, fc + 1);
                match parse_port_range(s, fc + 1, pend) {
                    Result::Ok(port) => {
                        let host = String::from_str(s.substring_char(0, fc));
                        Result::Ok(SocketName::Dns(host, port))
                    },
                    Result::Err(k) => Result::Err(SocketNameError::ParseIntError(k)),
                }
            }
        }
    }
}

} // verus!
