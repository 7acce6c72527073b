//! Text helpers over characters: Unicode whitespace and trimming.

use vstd::prelude::*;

verus! {

/// Unicode White_Space, as `char::is_whitespace` classifies it.
pub open spec fn is_ws_spec(c: char) -> bool {
    let u = c as u32;
    ||| 0x09 <= u <= 0x0D
    ||| u == 0x20
    ||| u == 0x85
    ||| u == 0xA0
    ||| u == 0x1680
    ||| 0x2000 <= u <= 0x200A
    ||| u == 0x2028
    ||| u == 0x2029
    ||| u == 0x202F
    ||| u == 0x205F
    ||| u == 0x3000
}

pub fn is_ws(c: char) -> (r: bool)
    ensures
        r == is_ws_spec(c),
{
    let u = c as u32;
    (0x09 <= u && u <= 0x0D) || u == 0x20 || u == 0x85 || u == 0xA0 || u == 0x1680 || (0x2000 <= u && u <= 0x200A)
        || u == 0x2028 || u == 0x2029 || u == 0x202F || u == 0x205F || u == 0x3000
}

/// Index of the first non-whitespace character (the length if none).
pub open spec fn trim_start_idx(s: Seq<char>) -> int
    decreases s.len(),
{
    if s.len() == 0 { 0 } else if is_ws_spec(s[0]) { 1 + trim_start_idx(s.subrange(1, s.len() as int)) } else { 0 }
}

/// `s` without leading and trailing whitespace.
pub open spec fn trim_spec(s: Seq<char>) -> Seq<char>
    decreases s.len(),
{
    if s.len() == 0 {
        s
    } else if is_ws_spec(s[0]) {
        trim_spec(s.subrange(1, s.len() as int))
    } else if is_ws_spec(s.last()) {
        trim_spec(s.drop_last())
    } else {
        s
    }
}

/// Trimming from both ends: the characters strictly between the leading
/// and trailing whitespace runs.
pub proof fn lemma_trim_window(s: Seq<char>, a: int, b: int)
    requires
        0 <= a <= b <= s.len(),
        forall|i: int| 0 <= i < a ==> is_ws_spec(#[trigger] s[i]),
        forall|i: int| b <= i < s.len() ==> is_ws_spec(#[trigger] s[i]),
        a < b ==> !is_ws_spec(s[a]) && !is_ws_spec(s[b - 1]),
    ensures
        trim_spec(s) == s.subrange(a, b),
    decreases s.len(),
{
    if s.len() == 0 {
        assert(s.subrange(a, b) =~= s);
    } else if a > 0 {
        let t = s.subrange(1, s.len() as int);
        lemma_trim_window(t, a - 1, b - 1);
        assert(t.subrange(a - 1, b - 1) =~= s.subrange(a, b));
    } else if b < s.len() {
        let t = s.drop_last();
        if a == b {
            assert(is_ws_spec(s[0]));
            let u = s.subrange(1, s.len() as int);
            lemma_trim_window(u, 0, 0);
            assert(u.subrange(0, 0) =~= s.subrange(a, b));
        } else {
            assert(is_ws_spec(s.last()));
            lemma_trim_window(t, a, b);
            assert(t.subrange(a, b) =~= s.subrange(a, b));
        }
    } else {
        assert(s.subrange(a, b) =~= s);
        if a == b {
        }
    }
}

/// `s` without leading and trailing whitespace.
pub fn trim(s: &str) -> (r: &str)
    ensures
        r@ == trim_spec(s@),
{
    let n = s.unicode_len();
    let mut a: usize = 0;
    while a < n && is_ws(s.get_char(a))
        invariant
            a <= n == s@.len(),
            forall|i: int| 0 <= i < a ==> is_ws_spec(#[trigger] s@[i]),
        decreases n - a,
    {
        a = a + 1;
    }
    let mut b: usize = n;
    while b > a && is_ws(s.get_char(b - 1))
        invariant
            a <= b <= n == s@.len(),
            forall|i: int| b <= i < n ==> is_ws_spec(#[trigger] s@[i]),
        decreases b,
    {
        b = b - 1;
    }
    proof {
        lemma_trim_window(s@, a as int, b as int);
    }
    s.substring_char(a, b)
}

/// The characters of `v` without leading and trailing whitespace.
pub fn trim_chars(v: &Vec<char>) -> (r: Vec<char>)
    ensures
        r@ == trim_spec(v@),
{
    let n = v.len();
    let mut a: usize = 0;
    while a < n && is_ws(v[a])
        invariant
            a <= n == v@.len(),
            forall|i: int| 0 <= i < a ==> is_ws_spec(#[trigger] v@[i]),
        decreases n - a,
    {
        a = a + 1;
    }
    let mut b: usize = n;
    while b > a && is_ws(v[b - 1])
        invariant
            a <= b <= n == v@.len(),
            forall|i: int| b <= i < n ==> is_ws_spec(#[trigger] v@[i]),
        decreases b,
    {
        b = b - 1;
    }
    let mut r: Vec<char> = Vec::new();
    let mut i = a;
    while i < b
        invariant
            a <= i <= b <= v@.len(),
            r@ == v@.subrange(a as int, i as int),
        decreases b - i,
    {
        r.push(v[i]);
        i = i + 1;
        assert(r@ =~= v@.subrange(a as int, i as int));
    }
    proof {
        lemma_trim_window(v@, a as int, b as int);
    }
    r
}

/// Whether `s` contains `c`.
pub fn contains_char(s: &str, c: char) -> (r: bool)
    ensures
        r == s@.contains(c),
{
    let n = s.unicode_len();
    let mut i: usize = 0;
    while i < n
        invariant
            i <= n == s@.len(),
            forall|j: int| 0 <= j < i ==> s@[j] != c,
        decreases n - i,
    {
        if s.get_char(i) == c {
            assert(s@[i as int] == c);
            return true;
        }
        i = i + 1;
    }
    false
}


/// The decimal digits of `n`, as ASCII bytes.
pub open spec fn dec_spec(n: nat) -> Seq<u8>
    decreases n,
{
    if n < 10 {
        seq![(48 + n) as u8]
    } else {
        dec_spec(n / 10).push((48 + n % 10) as u8)
    }
}

/// Appends the decimal digits of `n` to `out`.
pub fn push_decimal(out: &mut Vec<u8>, n: u64)
    ensures
        final(out)@ == old(out)@ + dec_spec(n as nat),
    decreases n,
{
    if n >= 10 {
        push_decimal(out, n / 10);
    }
    out.push(48 + (n % 10) as u8);
    assert(out@ =~= old(out)@ + dec_spec(n as nat));
}

/// An IPv4 address in dotted decimal, such as `10.0.2.15`.
pub open spec fn dotted_spec(a: [u8; 4]) -> Seq<u8> {
    dec_spec(a[0] as nat) + seq![46u8] + dec_spec(a[1] as nat) + seq![46u8]
        + dec_spec(a[2] as nat) + seq![46u8] + dec_spec(a[3] as nat)
}

/// Appends `a` in dotted decimal to `out`.
pub fn push_dotted(out: &mut Vec<u8>, a: [u8; 4])
    ensures
        final(out)@ == old(out)@ + dotted_spec(a),
{
    push_decimal(out, a[0] as u64);
    out.push(46);
    push_decimal(out, a[1] as u64);
    out.push(46);
    push_decimal(out, a[2] as u64);
    out.push(46);
    push_decimal(out, a[3] as u64);
    assert(out@ =~= old(out)@ + dotted_spec(a));
}


/// `core::str::from_utf8`: the text the bytes encode, `None` where they are
/// not valid UTF-8.
#[verifier::external_body]
pub(crate) fn utf8_text(b: &[u8]) -> (r: Option<String>)
    ensures
        r is Some <==> vstd::utf8::valid_utf8(b@),
        r matches Some(s) ==> s@ == vstd::utf8::decode_utf8(b@),
{
    match core::str::from_utf8(b) {
        Ok(s) => Some(s.to_string()),
        Err(_) => None,
    }
}

} // verus!
