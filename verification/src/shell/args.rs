//! Argument parsing for shell commands: file names, `write` arguments,
//! numbers and IPv4 addresses.

use vstd::prelude::*;
use crate::text::{is_ws, is_ws_spec, trim, trim_spec, contains_char};

verus! {

/// A file name the shell accepts: not empty, at most 255 bytes, without
/// `/`, `\` or NUL.
pub open spec fn valid_filename_spec(name: Seq<char>) -> bool {
    &&& name.len() > 0
    &&& !name.contains('/')
    &&& !name.contains('\\')
    &&& !name.contains('\0')
    &&& (vstd::utf8::encode_utf8(name).len() as usize) <= 255
}

/// Whether the shell accepts `name` as a file name.
pub fn is_valid_filename(name: &str) -> (r: bool)
    ensures
        r == valid_filename_spec(name@),
{
    name.unicode_len() > 0 && !contains_char(name, '/') && !contains_char(name, '\\') && !contains_char(name, '\0')
        && name.len() <= 255
}

/// Index of the first whitespace character in `s` from `i` (the length if
/// none).
pub open spec fn first_ws_from(s: Seq<char>, i: int) -> int
    decreases s.len() - i,
{
    if i >= s.len() || i < 0 {
        s.len() as int
    } else if is_ws_spec(s[i]) {
        i
    } else {
        first_ws_from(s, i + 1)
    }
}

proof fn lemma_first_ws_from(s: Seq<char>, i: int)
    requires
        0 <= i <= s.len(),
    ensures
        i <= first_ws_from(s, i) <= s.len(),
        forall|k: int| i <= k < first_ws_from(s, i) ==> !is_ws_spec(#[trigger] s[k]),
        first_ws_from(s, i) < s.len() ==> is_ws_spec(s[first_ws_from(s, i)]),
    decreases s.len() - i,
{
    if i < s.len() && !is_ws_spec(s[i]) {
        lemma_first_ws_from(s, i + 1);
    }
}

/// The text after the name, without one pair of surrounding double quotes.
pub open spec fn unquote(rest: Seq<char>) -> Seq<char> {
    if rest.len() >= 2 && rest[0] == '"' && rest.last() == '"' {
        rest.subrange(1, rest.len() - 1)
    } else {
        rest
    }
}

/// `write` arguments: a valid file name, whitespace, then the content
/// (double quotes around it are dropped).
pub open spec fn write_args_spec(s: Seq<char>) -> Option<(Seq<char>, Seq<char>)> {
    let t = trim_spec(s);
    let k = first_ws_from(t, 0);
    if t.len() == 0 || k >= t.len() {
        None
    } else if !valid_filename_spec(t.subrange(0, k)) {
        None
    } else if trim_spec(t.subrange(k, t.len() as int)).len() == 0 {
        None
    } else {
        Some((t.subrange(0, k), unquote(trim_spec(t.subrange(k, t.len() as int)))))
    }
}

proof fn lemma_trim_no_ws(s: Seq<char>)
    requires
        forall|k: int| 0 <= k < s.len() ==> !is_ws_spec(#[trigger] s[k]),
    ensures
        trim_spec(s) == s,
{
    crate::text::lemma_trim_window(s, 0, s.len() as int);
    assert(s.subrange(0, s.len() as int) =~= s);
}

/// Splits `write` arguments into the file name and the content.
pub fn parse_write_args(s: &str) -> (r: Option<(&str, String)>)
    ensures
        match write_args_spec(s@) {
            Some((p, c)) => r matches Some((rp, rc)) && rp@ == p && rc@ == c,
            None => r is None,
        },
{
    let t = trim(s);
    let n = t.unicode_len();
    if n == 0 {
        return None;
    }
    proof {
        lemma_first_ws_from(t@, 0);
    }
    let mut k: usize = 0;
    while k < n && !is_ws(t.get_char(k))
        invariant
            n == t@.len(),
            k <= n,
            first_ws_from(t@, k as int) == first_ws_from(t@, 0),
        decreases n - k,
    {
        k = k + 1;
    }
    if k >= n {
        return None;
    }
    let path0 = t.substring_char(0, k);
    proof {
        assert forall|j: int| 0 <= j < path0@.len() implies !is_ws_spec(#[trigger] path0@[j]) by {
            assert(path0@[j] == t@[j]);
        }
        lemma_trim_no_ws(path0@);
    }
    let path = trim(path0);
    if !is_valid_filename(path) {
        return None;
    }
    let rest = trim(t.substring_char(k, n));
    let m = rest.unicode_len();
    if m == 0 {
        return None;
    }
    if m >= 2 && rest.get_char(0) == '"' && rest.get_char(m - 1) == '"' {
        Some((path, rest.substring_char(1, m - 1).to_owned()))
    } else {
        Some((path, rest.to_owned()))
    }
}

/// The value of a digit in base `radix` (10 or 16), if it is one.
pub open spec fn digit_val(c: char, radix: nat) -> Option<nat> {
    if '0' <= c <= '9' {
        Some((c as nat - '0' as nat) as nat)
    } else if radix == 16 && 'a' <= c <= 'f' {
        Some((c as nat - 'a' as nat + 10) as nat)
    } else if radix == 16 && 'A' <= c <= 'F' {
        Some((c as nat - 'A' as nat + 10) as nat)
    } else {
        None
    }
}

/// The value of a string of digits (none if a character is not a digit).
pub open spec fn digits_val(t: Seq<char>, radix: nat) -> Option<nat>
    decreases t.len(),
{
    if t.len() == 0 {
        Some(0)
    } else {
        match (digits_val(t.drop_last(), radix), digit_val(t.last(), radix)) {
            (Some(v), Some(d)) => Some(v * radix + d),
            _ => None,
        }
    }
}

/// An unsigned number as the standard library reads it: an optional `+`,
/// then at least one digit, at most `max`.
pub open spec fn parse_unsigned_spec(t: Seq<char>, radix: nat, max: nat) -> Option<nat> {
    let u = if t.len() > 0 && t[0] == '+' { t.drop_first() } else { t };
    if u.len() == 0 {
        None
    } else {
        match digits_val(u, radix) {
            Some(v) => if v <= max { Some(v) } else { None },
            None => None,
        }
    }
}

/// Reads an unsigned number of at most `max` in base `radix`.
pub fn parse_unsigned(s: &str, radix: u64, max: u64) -> (r: Option<u64>)
    requires
        radix == 10 || radix == 16,
    ensures
        match parse_unsigned_spec(s@, radix as nat, max as nat) {
            Some(v) => r == Some(v as u64),
            None => r is None,
        },
{
    let n = s.unicode_len();
    let start: usize = if n > 0 && s.get_char(0) == '+' { 1 } else { 0 };
    let ghost u = if s@.len() > 0 && s@[0] == '+' { s@.drop_first() } else { s@ };
    assert(u =~= s@.subrange(start as int, n as int));
    if start >= n {
        return None;
    }
    let mut acc: u64 = 0;
    let mut i: usize = start;
    while i < n
        invariant
            start <= i <= n == s@.len(),
            start < n,
            radix == 10 || radix == 16,
            u == s@.subrange(start as int, n as int),
            u == (if s@.len() > 0 && s@[0] == '+' { s@.drop_first() } else { s@ }),
            digits_val(s@.subrange(start as int, i as int), radix as nat) == Some(acc as nat),
            acc <= max,
        decreases n - i,
    {
        let c = s.get_char(i);
        let d: u64 = if c >= '0' && c <= '9' {
            (c as u64) - 48
        } else if radix == 16 && c >= 'a' && c <= 'f' {
            (c as u64) - 87
        } else if radix == 16 && c >= 'A' && c <= 'F' {
            (c as u64) - 55
        } else {
            proof {
                assert(s@.subrange(start as int, n as int)[i - start] == c);
                assert(digit_val(c, radix as nat) is None);
                lemma_digits_none_sticks(s@.subrange(start as int, n as int), radix as nat, (i - start) as int);
                assert(digits_val(u, radix as nat) is None);
            }
            return None;
        };
        assert(s@.subrange(start as int, (i + 1) as int).drop_last() =~= s@.subrange(start as int, i as int));
        assert(s@.subrange(start as int, (i + 1) as int).last() == c);
        assert(digit_val(c, radix as nat) == Some(d as nat));
        let big = match acc.checked_mul(radix) {
            Some(m) => match m.checked_add(d) {
                Some(v) => if v <= max {
                    acc = v;
                    false
                } else {
                    true
                },
                None => true,
            },
            None => true,
        };
        if big {
            proof {
                assert(s@.subrange(start as int, n as int).subrange(0, (i + 1 - start) as int)
                    =~= s@.subrange(start as int, (i + 1) as int));
                lemma_digits_big_sticks(s@.subrange(start as int, n as int), radix as nat, (i + 1 - start) as int, max as nat);
            }
            return None;
        }
        i = i + 1;
    }
    assert(s@.subrange(start as int, i as int) =~= u);
    Some(acc)
}

proof fn lemma_digits_none_sticks(t: Seq<char>, radix: nat, k: int)
    requires
        0 <= k < t.len(),
        digit_val(t[k], radix) is None,
    ensures
        digits_val(t, radix) is None,
    decreases t.len(),
{
    if k < t.len() - 1 {
        lemma_digits_none_sticks(t.drop_last(), radix, k);
    }
}

proof fn lemma_digits_big_sticks(t: Seq<char>, radix: nat, k: int, max: nat)
    requires
        0 < k <= t.len(),
        radix >= 1,
        match digits_val(t.subrange(0, k), radix) {
            Some(v) => v > max,
            None => true,
        },
    ensures
        match digits_val(t, radix) {
            Some(v) => v > max,
            None => true,
        },
    decreases t.len(),
{
    if k < t.len() {
        assert(t.drop_last().subrange(0, k) =~= t.subrange(0, k));
        lemma_digits_big_sticks(t.drop_last(), radix, k, max);
        match digits_val(t.drop_last(), radix) {
            Some(v) => {
                assert(v * radix >= v) by (nonlinear_arith)
                    requires
                        radix >= 1,
                ;
            },
            None => {},
        }
    } else {
        assert(t.subrange(0, k) =~= t);
    }
}

/// A hexadecimal 32-bit number, with or without a leading `0x`.
pub open spec fn parse_hex_spec(s: Seq<char>) -> Option<nat> {
    let t = if s.len() >= 2 && s[0] == '0' && s[1] == 'x' { s.subrange(2, s.len() as int) } else { s };
    parse_unsigned_spec(t, 16, 0xFFFF_FFFF)
}

/// Reads a hexadecimal 32-bit number, with or without a leading `0x`.
pub fn parse_hex(s: &str) -> (r: Option<u32>)
    ensures
        match parse_hex_spec(s@) {
            Some(v) => r == Some(v as u32),
            None => r is None,
        },
{
    let n = s.unicode_len();
    let t = if n >= 2 && s.get_char(0) == '0' && s.get_char(1) == 'x' { s.substring_char(2, n) } else { s };
    match parse_unsigned(t, 16, 0xFFFF_FFFF) {
        Some(v) => Some(v as u32),
        None => None,
    }
}

/// A decimal port number.
pub fn parse_u16(s: &str) -> (r: Option<u16>)
    ensures
        match parse_unsigned_spec(s@, 10, 0xFFFF) {
            Some(v) => r == Some(v as u16),
            None => r is None,
        },
{
    match parse_unsigned(s, 10, 0xFFFF) {
        Some(v) => Some(v as u16),
        None => None,
    }
}

/// A decimal index or count.
pub fn parse_usize(s: &str) -> (r: Option<usize>)
    ensures
        match parse_unsigned_spec(s@, 10, usize::MAX as nat) {
            Some(v) => r == Some(v as usize),
            None => r is None,
        },
{
    match parse_unsigned(s, 10, usize::MAX as u64) {
        Some(v) => Some(v as usize),
        None => None,
    }
}

/// Index of the first `c` in `s` from `i` (the length if none).
pub open spec fn find_from(s: Seq<char>, c: char, i: int) -> int
    decreases s.len() - i,
{
    if i >= s.len() || i < 0 {
        s.len() as int
    } else if s[i] == c {
        i
    } else {
        find_from(s, c, i + 1)
    }
}

pub proof fn lemma_find_from(s: Seq<char>, c: char, i: int)
    requires
        0 <= i <= s.len(),
    ensures
        i <= find_from(s, c, i) <= s.len(),
        find_from(s, c, i) < s.len() ==> s[find_from(s, c, i)] == c,
    decreases s.len() - i,
{
    if i < s.len() && s[i] != c {
        lemma_find_from(s, c, i + 1);
    }
}

/// Index of the first `c` in `s` from `i` (the length if none).
pub fn find_char(s: &str, c: char, i: usize) -> (r: usize)
    requires
        i <= s@.len(),
    ensures
        r == find_from(s@, c, i as int),
{
    let n = s.unicode_len();
    let mut k = i;
    while k < n && s.get_char(k) != c
        invariant
            n == s@.len(),
            i <= k <= n,
            find_from(s@, c, k as int) == find_from(s@, c, i as int),
        decreases n - k,
    {
        k = k + 1;
    }
    k
}

/// A dotted IPv4 address: exactly four parts separated by `.`, each a
/// decimal number up to 255.
pub open spec fn parse_ip_spec(s: Seq<char>) -> Option<[u8; 4]> {
    let d1 = find_from(s, '.', 0);
    let d2 = find_from(s, '.', d1 + 1);
    let d3 = find_from(s, '.', d2 + 1);
    let d4 = find_from(s, '.', d3 + 1);
    if d3 >= s.len() || d4 < s.len() {
        None
    } else {
        match (
            parse_unsigned_spec(s.subrange(0, d1), 10, 255),
            parse_unsigned_spec(s.subrange(d1 + 1, d2), 10, 255),
            parse_unsigned_spec(s.subrange(d2 + 1, d3), 10, 255),
            parse_unsigned_spec(s.subrange(d3 + 1, s.len() as int), 10, 255),
        ) {
            (Some(a), Some(b), Some(c), Some(d)) => Some([a as u8, b as u8, c as u8, d as u8]),
            _ => None,
        }
    }
}

/// Reads a dotted IPv4 address.
pub fn parse_ip(s: &str) -> (r: Option<[u8; 4]>)
    ensures
        r == parse_ip_spec(s@),
{
    let n = s.unicode_len();
    proof {
        lemma_find_from(s@, '.', 0);
    }
    let d1 = find_char(s, '.', 0);
    if d1 >= n {
        return None;
    }
    proof {
        lemma_find_from(s@, '.', d1 + 1);
    }
    let d2 = find_char(s, '.', d1 + 1);
    if d2 >= n {
        return None;
    }
    proof {
        lemma_find_from(s@, '.', d2 + 1);
    }
    let d3 = find_char(s, '.', d2 + 1);
    if d3 >= n {
        return None;
    }
    proof {
        lemma_find_from(s@, '.', d3 + 1);
    }
    let d4 = find_char(s, '.', d3 + 1);
    if d4 < n {
        return None;
    }
    let a = parse_unsigned(s.substring_char(0, d1), 10, 255);
    let b = parse_unsigned(s.substring_char(d1 + 1, d2), 10, 255);
    let c = parse_unsigned(s.substring_char(d2 + 1, d3), 10, 255);
    let d = parse_unsigned(s.substring_char(d3 + 1, n), 10, 255);
    match (a, b, c, d) {
        (Some(a), Some(b), Some(c), Some(d)) => Some([a as u8, b as u8, c as u8, d as u8]),
        _ => None,
    }
}

/// Reads a dotted IPv4 address (the TCP commands' spelling).
pub fn parse_ipv4(s: &str) -> (r: Option<[u8; 4]>)
    ensures
        r == parse_ip_spec(s@),
{
    parse_ip(s)
}

} // verus!
