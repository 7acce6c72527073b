//! Integer expression evaluation: `+ - * / %`, parentheses and unary minus
//! on literals, with 64-bit checked arithmetic.

use vstd::prelude::*;

verus! {

/// A token of an expression.
#[derive(Clone, Copy, Debug, PartialEq, Eq, Structural)]
pub enum Tok {
    Num(i64),
    Op(u8),
    LParen,
    RParen,
}

/// Why an expression could not be evaluated.
#[derive(Clone, Copy, Debug, PartialEq, Eq, Structural)]
pub enum CalcError {
    BadNumber,
    InvalidToken,
    MismatchedParens,
    StackUnderflow,
    OverflowOrDivZero,
    BadRpn,
    BadExpression,
}

impl CalcError {
    pub open spec fn text_spec(self) -> &'static str {
        match self {
            CalcError::BadNumber => "bad number",
            CalcError::InvalidToken => "invalid token",
            CalcError::MismatchedParens => "mismatched parens",
            CalcError::StackUnderflow => "stack underflow",
            CalcError::OverflowOrDivZero => "overflow/div0",
            CalcError::BadRpn => "bad rpn",
            CalcError::BadExpression => "bad expression",
        }
    }

    /// The message shown for the error.
    pub fn text(self) -> (r: &'static str)
        ensures
            r == self.text_spec(),
    {
        match self {
            CalcError::BadNumber => "bad number",
            CalcError::InvalidToken => "invalid token",
            CalcError::MismatchedParens => "mismatched parens",
            CalcError::StackUnderflow => "stack underflow",
            CalcError::OverflowOrDivZero => "overflow/div0",
            CalcError::BadRpn => "bad rpn",
            CalcError::BadExpression => "bad expression",
        }
    }
}

pub open spec fn is_digit(c: u8) -> bool {
    48 <= c <= 57
}

/// ASCII whitespace: space, tab, line feed, form feed, carriage return.
pub open spec fn is_space(c: u8) -> bool {
    c == 32 || c == 9 || c == 10 || c == 12 || c == 13
}

pub open spec fn is_op(c: u8) -> bool {
    c == 43 || c == 45 || c == 42 || c == 47 || c == 37
}

/// The value of a string of decimal digits.
pub open spec fn digits_value(d: Seq<u8>) -> nat
    decreases d.len(),
{
    if d.len() == 0 {
        0
    } else {
        digits_value(d.drop_last()) * 10 + (d.last() - 48) as nat
    }
}

/// The end of the run of digits starting at `i`.
pub open spec fn digits_end(b: Seq<u8>, i: int) -> int
    decreases b.len() - i,
{
    if i < b.len() && is_digit(b[i]) { digits_end(b, i + 1) } else { i }
}

/// A number literal: digits, or `-` and digits, within 64 bits.
pub open spec fn parse_number(t: Seq<u8>) -> Option<i64> {
    if t.len() > 0 && t[0] == 45 {
        if t.len() == 1 {
            None
        } else if digits_value(t.drop_first()) <= 0x8000_0000_0000_0000 {
            Some((0 - digits_value(t.drop_first())) as i64)
        } else {
            None
        }
    } else if t.len() > 0 && digits_value(t) <= 0x7FFF_FFFF_FFFF_FFFF {
        Some(digits_value(t) as i64)
    } else {
        None
    }
}

/// A `-` starts a number at the start and after an operator or `(`.
pub open spec fn minus_starts_number(out: Seq<Tok>) -> bool {
    out.len() == 0 || out.last() is Op || out.last() is LParen
}

/// The tokens of `b` from position `i`, after `out`.
pub open spec fn lex_from(b: Seq<u8>, i: int, out: Seq<Tok>) -> Result<Seq<Tok>, CalcError>
    decreases b.len() - i,
{
    if i < 0 || i >= b.len() {
        Ok(out)
    } else if is_space(b[i]) {
        lex_from(b, i + 1, out)
    } else if is_digit(b[i]) || (b[i] == 45 && minus_starts_number(out)) {
        let j = digits_end(b, i + 1);
        match parse_number(b.subrange(i, j)) {
            Some(n) => if i < j <= b.len() { lex_from(b, j, out.push(Tok::Num(n))) } else { Ok(out) },
            None => Err(CalcError::BadNumber),
        }
    } else if is_op(b[i]) {
        lex_from(b, i + 1, out.push(Tok::Op(b[i])))
    } else if b[i] == 40 {
        lex_from(b, i + 1, out.push(Tok::LParen))
    } else if b[i] == 41 {
        lex_from(b, i + 1, out.push(Tok::RParen))
    } else {
        Err(CalcError::InvalidToken)
    }
}

proof fn lemma_digits_end(b: Seq<u8>, i: int)
    requires
        0 <= i <= b.len(),
    ensures
        i <= digits_end(b, i) <= b.len(),
        forall|k: int| i <= k < digits_end(b, i) ==> is_digit(#[trigger] b[k]),
        digits_end(b, i) < b.len() ==> !is_digit(b[digits_end(b, i)]),
    decreases b.len() - i,
{
    if i < b.len() && is_digit(b[i]) {
        lemma_digits_end(b, i + 1);
    }
}

/// Scans the literal starting at `i` (a digit or a `-`).
fn scan_number(b: &[u8], i: usize) -> (r: (usize, Option<i64>))
    requires
        i < b@.len(),
        is_digit(b@[i as int]) || b@[i as int] == 45,
    ensures
        r.0 == digits_end(b@, i + 1),
        r.1 == parse_number(b@.subrange(i as int, r.0 as int)),
{
    proof {
        lemma_digits_end(b@, i + 1);
    }
    let neg = b[i] == 45;
    let start: usize = if neg { i + 1 } else { i };
    let mut j: usize = i + 1;
    while j < b.len() && b[j] >= 48 && b[j] <= 57
        invariant
            i < j <= b@.len(),
            digits_end(b@, j as int) == digits_end(b@, i + 1),
        decreases b@.len() - j,
    {
        j = j + 1;
    }
    let ghost t = b@.subrange(i as int, j as int);
    let mut acc: u64 = 0;
    let mut big = false;
    let mut k: usize = start;
    while k < j
        invariant
            start <= k <= j <= b@.len(),
            start == (if neg { i + 1 } else { i as int }),
            neg == (b@[i as int] == 45),
            i < j,
            forall|m: int| i + 1 <= m < j ==> is_digit(#[trigger] b@[m]),
            is_digit(b@[i as int]) || neg,
            !big ==> acc == digits_value(b@.subrange(start as int, k as int)) && acc <= 0x8000_0000_0000_0000u64,
            big ==> digits_value(b@.subrange(start as int, k as int)) > 0x8000_0000_0000_0000u64,
        decreases j - k,
    {
        let d = (b[k] - 48) as u64;
        assert(b@.subrange(start as int, (k + 1) as int).drop_last() =~= b@.subrange(start as int, k as int));
        if !big {
            if acc > 0x0CCC_CCCC_CCCC_CCCDu64 {
                big = true;
            } else {
                let v = acc * 10 + d;
                if v > 0x8000_0000_0000_0000u64 {
                    big = true;
                } else {
                    acc = v;
                }
            }
        }
        k = k + 1;
    }
    proof {
        if neg {
            assert(t.drop_first() =~= b@.subrange(start as int, j as int));
        } else {
            assert(t =~= b@.subrange(start as int, j as int));
        }
    }
    if neg {
        if j == i + 1 || big {
            (j, None)
        } else if acc == 0x8000_0000_0000_0000u64 {
            (j, Some(i64::MIN))
        } else {
            (j, Some(0 - (acc as i64)))
        }
    } else {
        if big || acc > 0x7FFF_FFFF_FFFF_FFFFu64 {
            (j, None)
        } else {
            (j, Some(acc as i64))
        }
    }
}


/// The tokens of `s`'s bytes.
pub open spec fn tokens_spec(b: Seq<u8>) -> Result<Seq<Tok>, CalcError> {
    lex_from(b, 0, Seq::empty())
}

/// Splits an expression into tokens: whitespace separates, digits (with a
/// leading `-` at the start or after an operator or `(`) form numbers.
pub fn tokenize(s: &str) -> (r: Result<Vec<Tok>, CalcError>)
    ensures
        match r {
            Ok(v) => tokens_spec(vstd::utf8::encode_utf8(s@)) == Ok::<Seq<Tok>, CalcError>(v@),
            Err(e) => tokens_spec(vstd::utf8::encode_utf8(s@)) == Err::<Seq<Tok>, CalcError>(e),
        },
{
    let b = s.as_bytes();
    let mut out: Vec<Tok> = Vec::new();
    let mut i: usize = 0;
    while i < b.len()
        invariant
            b@ == vstd::utf8::encode_utf8(s@),
            i <= b@.len(),
            lex_from(b@, 0, Seq::empty()) == lex_from(b@, i as int, out@),
        decreases b@.len() - i,
    {
        let c = b[i];
        let starts = out.len() == 0 || (match out[out.len() - 1] {
            Tok::Op(_) => true,
            Tok::LParen => true,
            _ => false,
        });
        assert(starts == minus_starts_number(out@));
        if c == 32 || c == 9 || c == 10 || c == 12 || c == 13 {
            i = i + 1;
        } else if (c >= 48 && c <= 57) || (c == 45 && starts) {
            let (j, n) = scan_number(b, i);
            proof {
                lemma_digits_end(b@, i + 1);
            }
            match n {
                Some(v) => {
                    out.push(Tok::Num(v));
                    i = j;
                },
                None => {
                    return Err(CalcError::BadNumber);
                },
            }
        } else if c == 43 || c == 45 || c == 42 || c == 47 || c == 37 {
            out.push(Tok::Op(c));
            i = i + 1;
        } else if c == 40 {
            out.push(Tok::LParen);
            i = i + 1;
        } else if c == 41 {
            out.push(Tok::RParen);
            i = i + 1;
        } else {
            return Err(CalcError::InvalidToken);
        }
    }
    Ok(out)
}

/// Binding strength of an operator.
pub open spec fn prec_spec(op: u8) -> int {
    if op == 43 || op == 45 {
        1
    } else if op == 42 || op == 47 || op == 37 {
        2
    } else {
        0
    }
}

fn prec(op: u8) -> (r: i32)
    ensures
        r == prec_spec(op),
{
    if op == 43 || op == 45 {
        1
    } else if op == 42 || op == 47 || op == 37 {
        2
    } else {
        0
    }
}

/// Moves operators binding at least as strongly as `o` from the top of the
/// stack to the output.
pub open spec fn pop_higher(out: Seq<Tok>, ops: Seq<Tok>, o: u8) -> (Seq<Tok>, Seq<Tok>)
    decreases ops.len(),
{
    if ops.len() > 0 && ops.last() is Op && prec_spec(ops.last()->Op_0) >= prec_spec(o) {
        pop_higher(out.push(ops.last()), ops.drop_last(), o)
    } else {
        (out, ops)
    }
}

/// Moves operators to the output down to the nearest `(`, which is dropped.
pub open spec fn pop_to_lparen(out: Seq<Tok>, ops: Seq<Tok>) -> (Seq<Tok>, Seq<Tok>)
    decreases ops.len(),
{
    if ops.len() == 0 {
        (out, ops)
    } else if ops.last() is LParen {
        (out, ops.drop_last())
    } else {
        pop_to_lparen(out.push(ops.last()), ops.drop_last())
    }
}

/// One token of the shunting-yard algorithm: (output, operator stack).
pub open spec fn sy_step(st: (Seq<Tok>, Seq<Tok>), t: Tok) -> (Seq<Tok>, Seq<Tok>) {
    match t {
        Tok::Num(_) => (st.0.push(t), st.1),
        Tok::Op(o) => {
            let p = pop_higher(st.0, st.1, o);
            (p.0, p.1.push(t))
        },
        Tok::LParen => (st.0, st.1.push(t)),
        Tok::RParen => pop_to_lparen(st.0, st.1),
    }
}

/// The state after the first `k` tokens.
pub open spec fn sy_scan(toks: Seq<Tok>, k: int) -> (Seq<Tok>, Seq<Tok>)
    decreases k,
{
    if k <= 0 {
        (Seq::empty(), Seq::empty())
    } else {
        sy_step(sy_scan(toks, k - 1), toks[k - 1])
    }
}

/// Empties the operator stack onto the output; a parenthesis left on it is
/// an error.
pub open spec fn sy_finish(out: Seq<Tok>, ops: Seq<Tok>) -> Result<Seq<Tok>, CalcError>
    decreases ops.len(),
{
    if ops.len() == 0 {
        Ok(out)
    } else if ops.last() is LParen || ops.last() is RParen {
        Err(CalcError::MismatchedParens)
    } else {
        sy_finish(out.push(ops.last()), ops.drop_last())
    }
}

/// The tokens in postfix order.
pub open spec fn rpn_spec(toks: Seq<Tok>) -> Result<Seq<Tok>, CalcError> {
    let st = sy_scan(toks, toks.len() as int);
    sy_finish(st.0, st.1)
}

/// The operator on top of the stack binds at least as strongly as `o`.
fn top_binds(ops: &Vec<Tok>, o: u8) -> (r: bool)
    ensures
        r == (ops@.len() > 0 && ops@.last() is Op && prec_spec(ops@.last()->Op_0) >= prec_spec(o)),
{
    if ops.len() == 0 {
        return false;
    }
    match ops[ops.len() - 1] {
        Tok::Op(top) => prec(top) >= prec(o),
        _ => false,
    }
}

/// Reorders infix tokens into postfix order (operators of equal binding
/// strength associate to the left).
pub fn shunting_yard(tokens: Vec<Tok>) -> (r: Result<Vec<Tok>, CalcError>)
    ensures
        match r {
            Ok(v) => rpn_spec(tokens@) == Ok::<Seq<Tok>, CalcError>(v@),
            Err(e) => rpn_spec(tokens@) == Err::<Seq<Tok>, CalcError>(e),
        },
{
    let mut output: Vec<Tok> = Vec::new();
    let mut ops: Vec<Tok> = Vec::new();
    let mut k: usize = 0;
    while k < tokens.len()
        invariant
            k <= tokens@.len(),
            sy_scan(tokens@, k as int) == (output@, ops@),
        decreases tokens@.len() - k,
    {
        let t = tokens[k];
        match t {
            Tok::Num(_) => {
                output.push(t);
            },
            Tok::Op(o) => {
                let ghost o0 = output@;
                let ghost s0 = ops@;
                while top_binds(&ops, o)
                    invariant
                        pop_higher(o0, s0, o) == pop_higher(output@, ops@, o),
                    decreases ops@.len(),
                {
                    let top = ops.pop().unwrap();
                    output.push(top);
                }
                assert(pop_higher(output@, ops@, o) == (output@, ops@));
                ops.push(Tok::Op(o));
            },
            Tok::LParen => {
                ops.push(t);
            },
            Tok::RParen => {
                let ghost o0 = output@;
                let ghost s0 = ops@;
                while ops.len() > 0
                    invariant_except_break
                        pop_to_lparen(o0, s0) == pop_to_lparen(output@, ops@),
                    ensures
                        pop_to_lparen(o0, s0) == (output@, ops@),
                    decreases ops@.len(),
                {
                    let top = ops.pop().unwrap();
                    if top == Tok::LParen {
                        break;
                    }
                    output.push(top);
                }
            },
        }
        k = k + 1;
    }
    while ops.len() > 0
        invariant
            sy_finish(sy_scan(tokens@, tokens@.len() as int).0, sy_scan(tokens@, tokens@.len() as int).1)
                == sy_finish(output@, ops@),
        decreases ops@.len(),
    {
        let top = ops.pop().unwrap();
        if top == Tok::LParen || top == Tok::RParen {
            return Err(CalcError::MismatchedParens);
        }
        output.push(top);
    }
    Ok(output)
}

/// `a op b` with 64-bit overflow, division by zero and the like failing.
pub open spec fn apply_spec(op: u8, a: i64, b: i64) -> Option<i64> {
    if op == 43 {
        a.checked_add(b)
    } else if op == 45 {
        a.checked_sub(b)
    } else if op == 42 {
        a.checked_mul(b)
    } else if op == 47 {
        a.checked_div(b)
    } else if op == 37 {
        a.checked_rem(b)
    } else {
        None
    }
}

/// The operand stack after the first `k` postfix tokens.
pub open spec fn rpn_run(toks: Seq<Tok>, k: int) -> Result<Seq<i64>, CalcError>
    decreases k,
{
    if k <= 0 {
        Ok(Seq::empty())
    } else {
        match rpn_run(toks, k - 1) {
            Err(e) => Err(e),
            Ok(st) => match toks[k - 1] {
                Tok::Num(n) => Ok(st.push(n)),
                Tok::Op(o) => if st.len() < 2 {
                    Err(CalcError::StackUnderflow)
                } else {
                    match apply_spec(o, st[st.len() - 2], st[st.len() - 1]) {
                        Some(v) => Ok(st.drop_last().drop_last().push(v)),
                        None => Err(CalcError::OverflowOrDivZero),
                    }
                },
                _ => Err(CalcError::BadRpn),
            },
        }
    }
}

/// The value of a postfix expression: exactly one operand must remain.
pub open spec fn rpn_value(toks: Seq<Tok>) -> Result<i64, CalcError> {
    match rpn_run(toks, toks.len() as int) {
        Err(e) => Err(e),
        Ok(st) => if st.len() == 1 { Ok(st[0]) } else { Err(CalcError::BadExpression) },
    }
}

proof fn lemma_rpn_err_sticks(toks: Seq<Tok>, j: int, n: int)
    requires
        0 <= j <= n,
        rpn_run(toks, j) is Err,
    ensures
        rpn_run(toks, n) == rpn_run(toks, j),
    decreases n - j,
{
    if n > j {
        lemma_rpn_err_sticks(toks, j, n - 1);
    }
}

/// Evaluates postfix tokens on a stack.
pub fn eval_rpn(tokens: &[Tok]) -> (r: Result<i64, CalcError>)
    ensures
        r == rpn_value(tokens@),
{
    let mut stack: Vec<i64> = Vec::new();
    let mut k: usize = 0;
    while k < tokens.len()
        invariant
            k <= tokens@.len(),
            rpn_run(tokens@, k as int) == Ok::<Seq<i64>, CalcError>(stack@),
        decreases tokens@.len() - k,
    {
        match tokens[k] {
            Tok::Num(n) => {
                stack.push(n);
            },
            Tok::Op(op) => {
                let ghost st = stack@;
                if stack.len() < 2 {
                    proof {
                        lemma_rpn_err_sticks(tokens@, k + 1, tokens@.len() as int);
                    }
                    return Err(CalcError::StackUnderflow);
                }
                let b = stack.pop().unwrap();
                let a = stack.pop().unwrap();
                assert(a == st[st.len() - 2] && b == st[st.len() - 1]);
                let r = if op == 43 {
                    a.checked_add(b)
                } else if op == 45 {
                    a.checked_sub(b)
                } else if op == 42 {
                    a.checked_mul(b)
                } else if op == 47 {
                    a.checked_div(b)
                } else if op == 37 {
                    a.checked_rem(b)
                } else {
                    None
                };
                match r {
                    Some(v) => {
                        stack.push(v);
                    },
                    None => {
                        proof {
                            lemma_rpn_err_sticks(tokens@, k + 1, tokens@.len() as int);
                        }
                        return Err(CalcError::OverflowOrDivZero);
                    },
                }
            },
            _ => {
                proof {
                    lemma_rpn_err_sticks(tokens@, k + 1, tokens@.len() as int);
                }
                return Err(CalcError::BadRpn);
            },
        }
        k = k + 1;
    }
    if stack.len() != 1 {
        return Err(CalcError::BadExpression);
    }
    Ok(stack[0])
}

/// The value of an expression, or why it has none.
pub open spec fn eval_spec(b: Seq<u8>) -> Result<i64, CalcError> {
    match tokens_spec(b) {
        Err(e) => Err(e),
        Ok(t) => match rpn_spec(t) {
            Err(e) => Err(e),
            Ok(p) => rpn_value(p),
        },
    }
}

/// Evaluates an integer expression.
pub fn eval(input: &str) -> (r: Result<i64, &'static str>)
    ensures
        match eval_spec(vstd::utf8::encode_utf8(input@)) {
            Ok(v) => r == Ok::<i64, &'static str>(v),
            Err(e) => r == Err::<i64, &'static str>(e.text_spec()),
        },
{
    let tokens = match tokenize(input) {
        Ok(t) => t,
        Err(e) => {
            return Err(e.text());
        },
    };
    let rpn = match shunting_yard(tokens) {
        Ok(t) => t,
        Err(e) => {
            return Err(e.text());
        },
    };
    match eval_rpn(rpn.as_slice()) {
        Ok(v) => Ok(v),
        Err(e) => Err(e.text()),
    }
}

/// A single operator between two numbers is applied to them.
pub proof fn single_operator(a: i64, o: u8, b: i64)
    requires
        is_op(o),
    ensures
        rpn_spec(seq![Tok::Num(a), Tok::Op(o), Tok::Num(b)]) == Ok::<Seq<Tok>, CalcError>(seq![Tok::Num(a), Tok::Num(b), Tok::Op(o)]),
        rpn_value(seq![Tok::Num(a), Tok::Num(b), Tok::Op(o)]) == match apply_spec(o, a, b) {
            Some(v) => Ok::<i64, CalcError>(v),
            None => Err::<i64, CalcError>(CalcError::OverflowOrDivZero),
        },
{
    let t = seq![Tok::Num(a), Tok::Op(o), Tok::Num(b)];
    assert(sy_scan(t, 0) == (Seq::<Tok>::empty(), Seq::<Tok>::empty()));
    assert(sy_scan(t, 1).0 =~= seq![Tok::Num(a)]);
    assert(sy_scan(t, 1).1 =~= Seq::<Tok>::empty());
    assert(sy_scan(t, 2).0 =~= seq![Tok::Num(a)]);
    assert(sy_scan(t, 2).1 =~= seq![Tok::Op(o)]);
    assert(sy_scan(t, 3).0 =~= seq![Tok::Num(a), Tok::Num(b)]);
    assert(sy_scan(t, 3).1 =~= seq![Tok::Op(o)]);
    assert(seq![Tok::Op(o)].drop_last() =~= Seq::<Tok>::empty());
    assert(seq![Tok::Num(a), Tok::Num(b)].push(Tok::Op(o)) =~= seq![Tok::Num(a), Tok::Num(b), Tok::Op(o)]);
    assert(sy_finish(seq![Tok::Num(a), Tok::Num(b)], seq![Tok::Op(o)])
        == sy_finish(seq![Tok::Num(a), Tok::Num(b), Tok::Op(o)], Seq::<Tok>::empty()));
    let p = seq![Tok::Num(a), Tok::Num(b), Tok::Op(o)];
    assert(rpn_run(p, 0) == Ok::<Seq<i64>, CalcError>(Seq::empty()));
    assert(Seq::<i64>::empty().push(a) =~= seq![a]);
    assert(rpn_run(p, 1) == Ok::<Seq<i64>, CalcError>(seq![a]));
    assert(seq![a].push(b) =~= seq![a, b]);
    assert(rpn_run(p, 2) == Ok::<Seq<i64>, CalcError>(seq![a, b]));
    assert(seq![a, b].drop_last().drop_last() =~= Seq::<i64>::empty());
    if let Some(v) = apply_spec(o, a, b) {
        assert(Seq::<i64>::empty().push(v) =~= seq![v]);
    }
}

/// Operators of equal strength group to the left: `a - b - c` is
/// `(a - b) - c`.
pub proof fn left_associative(a: i64, b: i64, c: i64)
    ensures
        rpn_spec(seq![Tok::Num(a), Tok::Op(45), Tok::Num(b), Tok::Op(45), Tok::Num(c)])
            == Ok::<Seq<Tok>, CalcError>(seq![Tok::Num(a), Tok::Num(b), Tok::Op(45), Tok::Num(c), Tok::Op(45)]),
{
    let t = seq![Tok::Num(a), Tok::Op(45), Tok::Num(b), Tok::Op(45), Tok::Num(c)];
    assert(sy_scan(t, 0) == (Seq::<Tok>::empty(), Seq::<Tok>::empty()));
    assert(sy_scan(t, 1).0 =~= seq![Tok::Num(a)]);
    assert(sy_scan(t, 1).1 =~= Seq::<Tok>::empty());
    assert(sy_scan(t, 2).0 =~= seq![Tok::Num(a)]);
    assert(sy_scan(t, 2).1 =~= seq![Tok::Op(45)]);
    assert(sy_scan(t, 3).0 =~= seq![Tok::Num(a), Tok::Num(b)]);
    assert(sy_scan(t, 3).1 =~= seq![Tok::Op(45)]);
    assert(seq![Tok::Op(45)].drop_last() =~= Seq::<Tok>::empty());
    assert(seq![Tok::Num(a), Tok::Num(b)].push(Tok::Op(45)) =~= seq![Tok::Num(a), Tok::Num(b), Tok::Op(45)]);
    assert(pop_higher(seq![Tok::Num(a), Tok::Num(b), Tok::Op(45)], Seq::<Tok>::empty(), 45)
        == (seq![Tok::Num(a), Tok::Num(b), Tok::Op(45)], Seq::<Tok>::empty()));
    assert(pop_higher(seq![Tok::Num(a), Tok::Num(b)], seq![Tok::Op(45)], 45)
        == (seq![Tok::Num(a), Tok::Num(b), Tok::Op(45)], Seq::<Tok>::empty()));
    assert(sy_scan(t, 4).0 =~= seq![Tok::Num(a), Tok::Num(b), Tok::Op(45)]);
    assert(sy_scan(t, 4).1 =~= seq![Tok::Op(45)]);
    assert(sy_scan(t, 5).0 =~= seq![Tok::Num(a), Tok::Num(b), Tok::Op(45), Tok::Num(c)]);
    assert(sy_scan(t, 5).1 =~= seq![Tok::Op(45)]);
    assert(seq![Tok::Num(a), Tok::Num(b), Tok::Op(45), Tok::Num(c)].push(Tok::Op(45))
        =~= seq![Tok::Num(a), Tok::Num(b), Tok::Op(45), Tok::Num(c), Tok::Op(45)]);
    assert(sy_finish(seq![Tok::Num(a), Tok::Num(b), Tok::Op(45), Tok::Num(c)], seq![Tok::Op(45)])
        == sy_finish(seq![Tok::Num(a), Tok::Num(b), Tok::Op(45), Tok::Num(c), Tok::Op(45)], Seq::<Tok>::empty()));
}

/// `*` binds more strongly than `+`: `a + b * c` is `a + (b * c)`.
pub proof fn product_binds_tighter(a: i64, b: i64, c: i64)
    ensures
        rpn_spec(seq![Tok::Num(a), Tok::Op(43), Tok::Num(b), Tok::Op(42), Tok::Num(c)])
            == Ok::<Seq<Tok>, CalcError>(seq![Tok::Num(a), Tok::Num(b), Tok::Num(c), Tok::Op(42), Tok::Op(43)]),
{
    let t = seq![Tok::Num(a), Tok::Op(43), Tok::Num(b), Tok::Op(42), Tok::Num(c)];
    assert(sy_scan(t, 0) == (Seq::<Tok>::empty(), Seq::<Tok>::empty()));
    assert(sy_scan(t, 1).0 =~= seq![Tok::Num(a)]);
    assert(sy_scan(t, 1).1 =~= Seq::<Tok>::empty());
    assert(sy_scan(t, 2).0 =~= seq![Tok::Num(a)]);
    assert(sy_scan(t, 2).1 =~= seq![Tok::Op(43)]);
    assert(sy_scan(t, 3).0 =~= seq![Tok::Num(a), Tok::Num(b)]);
    assert(sy_scan(t, 3).1 =~= seq![Tok::Op(43)]);
    assert(pop_higher(seq![Tok::Num(a), Tok::Num(b)], seq![Tok::Op(43)], 42)
        == (seq![Tok::Num(a), Tok::Num(b)], seq![Tok::Op(43)]));
    assert(sy_scan(t, 4).0 =~= seq![Tok::Num(a), Tok::Num(b)]);
    assert(sy_scan(t, 4).1 =~= seq![Tok::Op(43), Tok::Op(42)]);
    assert(sy_scan(t, 5).0 =~= seq![Tok::Num(a), Tok::Num(b), Tok::Num(c)]);
    assert(sy_scan(t, 5).1 =~= seq![Tok::Op(43), Tok::Op(42)]);
    assert(seq![Tok::Op(43), Tok::Op(42)].drop_last() =~= seq![Tok::Op(43)]);
    assert(seq![Tok::Op(43)].drop_last() =~= Seq::<Tok>::empty());
    assert(seq![Tok::Num(a), Tok::Num(b), Tok::Num(c)].push(Tok::Op(42)) =~= seq![Tok::Num(a), Tok::Num(b), Tok::Num(c), Tok::Op(42)]);
    assert(seq![Tok::Num(a), Tok::Num(b), Tok::Num(c), Tok::Op(42)].push(Tok::Op(43))
        =~= seq![Tok::Num(a), Tok::Num(b), Tok::Num(c), Tok::Op(42), Tok::Op(43)]);
    assert(sy_finish(seq![Tok::Num(a), Tok::Num(b), Tok::Num(c)], seq![Tok::Op(43), Tok::Op(42)])
        == sy_finish(seq![Tok::Num(a), Tok::Num(b), Tok::Num(c), Tok::Op(42)], seq![Tok::Op(43)]));
    assert(sy_finish(seq![Tok::Num(a), Tok::Num(b), Tok::Num(c), Tok::Op(42)], seq![Tok::Op(43)])
        == sy_finish(seq![Tok::Num(a), Tok::Num(b), Tok::Num(c), Tok::Op(42), Tok::Op(43)], Seq::<Tok>::empty()));
}
/// `+` and `-` bind more loosely than `*`, `/` and `%`.
pub open spec fn is_low_op(o: u8) -> bool {
    o == 43 || o == 45
}

pub open spec fn is_high_op(o: u8) -> bool {
    o == 42 || o == 47 || o == 37
}

/// The value of a postfix `a b c h l`: `b h c` first, then `a l` that.
pub open spec fn nested_value(a: i64, l: u8, b: i64, h: u8, c: i64) -> Result<i64, CalcError> {
    match apply_spec(h, b, c) {
        None => Err(CalcError::OverflowOrDivZero),
        Some(v) => match apply_spec(l, a, v) {
            None => Err(CalcError::OverflowOrDivZero),
            Some(w) => Ok(w),
        },
    }
}

/// Multiplication, division and remainder bind more strongly than addition
/// and subtraction: `a l b h c` (with `l` one of `+ -` and `h` one of
/// `* / %`) becomes the postfix `a b c h l`, whose value is `a l (b h c)`.
pub proof fn higher_binds_tighter(a: i64, l: u8, b: i64, h: u8, c: i64)
    requires
        is_low_op(l),
        is_high_op(h),
    ensures
        rpn_spec(seq![Tok::Num(a), Tok::Op(l), Tok::Num(b), Tok::Op(h), Tok::Num(c)])
            == Ok::<Seq<Tok>, CalcError>(seq![Tok::Num(a), Tok::Num(b), Tok::Num(c), Tok::Op(h), Tok::Op(l)]),
        rpn_value(seq![Tok::Num(a), Tok::Num(b), Tok::Num(c), Tok::Op(h), Tok::Op(l)]) == nested_value(a, l, b, h, c),
{
    let t = seq![Tok::Num(a), Tok::Op(l), Tok::Num(b), Tok::Op(h), Tok::Num(c)];
    assert(prec_spec(l) == 1 && prec_spec(h) == 2);
    assert(sy_scan(t, 0) == (Seq::<Tok>::empty(), Seq::<Tok>::empty()));
    assert(sy_scan(t, 1).0 =~= seq![Tok::Num(a)]);
    assert(sy_scan(t, 1).1 =~= Seq::<Tok>::empty());
    assert(sy_scan(t, 2).0 =~= seq![Tok::Num(a)]);
    assert(sy_scan(t, 2).1 =~= seq![Tok::Op(l)]);
    assert(sy_scan(t, 3).0 =~= seq![Tok::Num(a), Tok::Num(b)]);
    assert(sy_scan(t, 3).1 =~= seq![Tok::Op(l)]);
    assert(pop_higher(seq![Tok::Num(a), Tok::Num(b)], seq![Tok::Op(l)], h)
        == (seq![Tok::Num(a), Tok::Num(b)], seq![Tok::Op(l)]));
    assert(sy_scan(t, 4).0 =~= seq![Tok::Num(a), Tok::Num(b)]);
    assert(sy_scan(t, 4).1 =~= seq![Tok::Op(l), Tok::Op(h)]);
    assert(sy_scan(t, 5).0 =~= seq![Tok::Num(a), Tok::Num(b), Tok::Num(c)]);
    assert(sy_scan(t, 5).1 =~= seq![Tok::Op(l), Tok::Op(h)]);
    assert(seq![Tok::Op(l), Tok::Op(h)].drop_last() =~= seq![Tok::Op(l)]);
    assert(seq![Tok::Op(l)].drop_last() =~= Seq::<Tok>::empty());
    assert(seq![Tok::Num(a), Tok::Num(b), Tok::Num(c)].push(Tok::Op(h)) =~= seq![Tok::Num(a), Tok::Num(b), Tok::Num(c), Tok::Op(h)]);
    assert(seq![Tok::Num(a), Tok::Num(b), Tok::Num(c), Tok::Op(h)].push(Tok::Op(l))
        =~= seq![Tok::Num(a), Tok::Num(b), Tok::Num(c), Tok::Op(h), Tok::Op(l)]);
    assert(sy_finish(seq![Tok::Num(a), Tok::Num(b), Tok::Num(c)], seq![Tok::Op(l), Tok::Op(h)])
        == sy_finish(seq![Tok::Num(a), Tok::Num(b), Tok::Num(c), Tok::Op(h)], seq![Tok::Op(l)]));
    assert(sy_finish(seq![Tok::Num(a), Tok::Num(b), Tok::Num(c), Tok::Op(h)], seq![Tok::Op(l)])
        == sy_finish(seq![Tok::Num(a), Tok::Num(b), Tok::Num(c), Tok::Op(h), Tok::Op(l)], Seq::<Tok>::empty()));
    let p = seq![Tok::Num(a), Tok::Num(b), Tok::Num(c), Tok::Op(h), Tok::Op(l)];
    assert(rpn_run(p, 0) == Ok::<Seq<i64>, CalcError>(Seq::empty()));
    assert(Seq::<i64>::empty().push(a) =~= seq![a]);
    assert(rpn_run(p, 1) == Ok::<Seq<i64>, CalcError>(seq![a]));
    assert(seq![a].push(b) =~= seq![a, b]);
    assert(rpn_run(p, 2) == Ok::<Seq<i64>, CalcError>(seq![a, b]));
    assert(seq![a, b].push(c) =~= seq![a, b, c]);
    assert(rpn_run(p, 3) == Ok::<Seq<i64>, CalcError>(seq![a, b, c]));
    assert(seq![a, b, c].drop_last().drop_last() =~= seq![a]);
    if let Some(v) = apply_spec(h, b, c) {
        assert(seq![a].push(v) =~= seq![a, v]);
        assert(rpn_run(p, 4) == Ok::<Seq<i64>, CalcError>(seq![a, v]));
        assert(seq![a, v].drop_last().drop_last() =~= Seq::<i64>::empty());
        if let Some(w) = apply_spec(l, a, v) {
            assert(Seq::<i64>::empty().push(w) =~= seq![w]);
        }
    }
}

/// The stronger operator first is applied first too: `a h b l c` becomes
/// the postfix `a b h c l`.
pub proof fn higher_first_applies_first(a: i64, h: u8, b: i64, l: u8, c: i64)
    requires
        is_low_op(l),
        is_high_op(h),
    ensures
        rpn_spec(seq![Tok::Num(a), Tok::Op(h), Tok::Num(b), Tok::Op(l), Tok::Num(c)])
            == Ok::<Seq<Tok>, CalcError>(seq![Tok::Num(a), Tok::Num(b), Tok::Op(h), Tok::Num(c), Tok::Op(l)]),
{
    let t = seq![Tok::Num(a), Tok::Op(h), Tok::Num(b), Tok::Op(l), Tok::Num(c)];
    assert(prec_spec(l) == 1 && prec_spec(h) == 2);
    assert(sy_scan(t, 0) == (Seq::<Tok>::empty(), Seq::<Tok>::empty()));
    assert(sy_scan(t, 1).0 =~= seq![Tok::Num(a)]);
    assert(sy_scan(t, 1).1 =~= Seq::<Tok>::empty());
    assert(sy_scan(t, 2).0 =~= seq![Tok::Num(a)]);
    assert(sy_scan(t, 2).1 =~= seq![Tok::Op(h)]);
    assert(sy_scan(t, 3).0 =~= seq![Tok::Num(a), Tok::Num(b)]);
    assert(sy_scan(t, 3).1 =~= seq![Tok::Op(h)]);
    assert(seq![Tok::Op(h)].drop_last() =~= Seq::<Tok>::empty());
    assert(seq![Tok::Num(a), Tok::Num(b)].push(Tok::Op(h)) =~= seq![Tok::Num(a), Tok::Num(b), Tok::Op(h)]);
    assert(pop_higher(seq![Tok::Num(a), Tok::Num(b), Tok::Op(h)], Seq::<Tok>::empty(), l)
        == (seq![Tok::Num(a), Tok::Num(b), Tok::Op(h)], Seq::<Tok>::empty()));
    assert(pop_higher(seq![Tok::Num(a), Tok::Num(b)], seq![Tok::Op(h)], l)
        == (seq![Tok::Num(a), Tok::Num(b), Tok::Op(h)], Seq::<Tok>::empty()));
    assert(sy_scan(t, 4).0 =~= seq![Tok::Num(a), Tok::Num(b), Tok::Op(h)]);
    assert(sy_scan(t, 4).1 =~= seq![Tok::Op(l)]);
    assert(sy_scan(t, 5).0 =~= seq![Tok::Num(a), Tok::Num(b), Tok::Op(h), Tok::Num(c)]);
    assert(sy_scan(t, 5).1 =~= seq![Tok::Op(l)]);
    assert(seq![Tok::Op(l)].drop_last() =~= Seq::<Tok>::empty());
    assert(seq![Tok::Num(a), Tok::Num(b), Tok::Op(h), Tok::Num(c)].push(Tok::Op(l))
        =~= seq![Tok::Num(a), Tok::Num(b), Tok::Op(h), Tok::Num(c), Tok::Op(l)]);
    assert(sy_finish(seq![Tok::Num(a), Tok::Num(b), Tok::Op(h), Tok::Num(c)], seq![Tok::Op(l)])
        == sy_finish(seq![Tok::Num(a), Tok::Num(b), Tok::Op(h), Tok::Num(c), Tok::Op(l)], Seq::<Tok>::empty()));
}

} // verus!
