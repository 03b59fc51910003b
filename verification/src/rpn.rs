//! A reverse-Polish-notation calculator over `i32` values.
//!
//! A formula is split on whitespace; each token is either an integer literal,
//! pushed on the stack, or one of the five binary operators, which pops two
//! operands and pushes the result.  Every behaviour of `eval`, including each
//! error and the position it reports, is pinned to a specification-level
//! evaluation of the same token stream.

use vstd::prelude::*;
use vstd::std_specs::iter::IteratorSpec;

verus! {

/// Whitespace as the tokenizer sees it: the Unicode `White_Space` set.
pub open spec fn is_space_char(c: char) -> bool {
    c == ' ' || c == '\u{9}' || c == '\u{a}' || c == '\u{b}' || c == '\u{c}' || c == '\u{d}' || c
        == '\u{85}' || c == '\u{a0}' || c == '\u{1680}' || ('\u{2000}' <= c && c <= '\u{200a}') || c
        == '\u{2028}' || c == '\u{2029}' || c == '\u{202f}' || c == '\u{205f}' || c == '\u{3000}'
}

/// Tokens of `cur + s` where `cur` is the (possibly empty) token fragment
/// read so far: maximal runs of non-whitespace characters, in order.
pub open spec fn split_tokens_from(cur: Seq<char>, s: Seq<char>) -> Seq<Seq<char>>
    decreases s.len(),
{
    if s.len() == 0 {
        if cur.len() == 0 {
            Seq::empty()
        } else {
            seq![cur]
        }
    } else if is_space_char(s[0]) {
        (if cur.len() == 0 {
            Seq::empty()
        } else {
            seq![cur]
        }) + split_tokens_from(Seq::empty(), s.drop_first())
    } else {
        split_tokens_from(cur.push(s[0]), s.drop_first())
    }
}

/// The whitespace-separated tokens of a formula, in order.
pub open spec fn split_tokens(s: Seq<char>) -> Seq<Seq<char>> {
    split_tokens_from(Seq::empty(), s)
}

/// A decimal digit.
pub open spec fn is_digit_char(c: char) -> bool {
    '0' <= c && c <= '9'
}

/// Numeric value of a decimal digit.
pub open spec fn digit_val(c: char) -> int {
    c as int - '0' as int
}

/// Every character is a decimal digit.
pub open spec fn all_digits(s: Seq<char>) -> bool {
    forall|i: int| 0 <= i < s.len() ==> is_digit_char(#[trigger] s[i])
}

/// Value of a digit string, most significant digit first.
pub open spec fn digits_val(s: Seq<char>) -> int
    decreases s.len(),
{
    if s.len() == 0 {
        0
    } else {
        digits_val(s.drop_last()) * 10 + digit_val(s.last())
    }
}

/// The token with a single leading sign character removed.
pub open spec fn unsigned_part(t: Seq<char>) -> Seq<char> {
    if t.len() > 0 && (t[0] == '+' || t[0] == '-') {
        t.drop_first()
    } else {
        t
    }
}

/// The sign a leading `-` contributes.
pub open spec fn token_sign(t: Seq<char>) -> int {
    if t.len() > 0 && t[0] == '-' {
        -1
    } else {
        1
    }
}

/// Signed value of a well-formed literal token.
pub open spec fn literal_val(t: Seq<char>) -> int {
    token_sign(t) * digits_val(unsigned_part(t))
}

/// Whether the token is an integer literal the calculator accepts: an
/// optional sign, one or more digits, and a value that fits in an `i32`.
pub open spec fn is_i32_literal(t: Seq<char>) -> bool {
    let d = unsigned_part(t);
    d.len() > 0 && all_digits(d) && i32::MIN <= literal_val(t) <= i32::MAX
}

/// Whether the token is one of the five binary operators.
pub open spec fn is_op_token(t: Seq<char>) -> bool {
    t.len() == 1 && (t[0] == '+' || t[0] == '-' || t[0] == '*' || t[0] == '/' || t[0] == '%')
}

/// Absolute value.
pub open spec fn abs_int(x: int) -> int {
    if x < 0 {
        -x
    } else {
        x
    }
}

/// Quotient rounded toward zero, as the machine's signed division computes
/// it.
pub open spec fn trunc_div(x: int, y: int) -> int {
    let q = abs_int(x) / abs_int(y);
    if (x < 0) == (y < 0) {
        q
    } else {
        -q
    }
}

/// Remainder matching `trunc_div`: it carries the dividend's sign.
pub open spec fn trunc_rem(x: int, y: int) -> int {
    x - y * trunc_div(x, y)
}

/// Exact value of one operator application, before any range check.
pub open spec fn op_value(c: char, x: int, y: int) -> int {
    if c == '+' {
        x + y
    } else if c == '-' {
        x - y
    } else if c == '*' {
        x * y
    } else if c == '/' {
        trunc_div(x, y)
    } else {
        trunc_rem(x, y)
    }
}

/// Whether applying the operator would make the machine's arithmetic give
/// up: division or remainder by zero, or a result outside `i32`.  (The
/// remainder of `i32::MIN` by `-1` is such a case even though its exact
/// value is zero.)
pub open spec fn op_aborts(c: char, x: int, y: int) -> bool {
    if c == '/' || c == '%' {
        y == 0 || (x == i32::MIN && y == -1)
    } else {
        !(i32::MIN <= op_value(c, x, y) <= i32::MAX)
    }
}

/// Outcome of evaluating a token stream.
pub enum RpnOutcome {
    /// A single value remained on the stack.
    Value(int),
    /// An operator (the given 1-based token position) found fewer than two
    /// operands.
    StackUnderflow(int),
    /// A token (at the given 1-based position) is neither a literal nor an
    /// operator.
    UnknownToken(int),
    /// The stack did not hold exactly one value at the end.
    Unbalanced,
    /// The machine's arithmetic would give up on an operator application.
    Abort,
}

/// Evaluation of the remaining tokens against the current stack; `pos`
/// counts the tokens already consumed.
pub open spec fn eval_from(stack: Seq<int>, toks: Seq<Seq<char>>, pos: int) -> RpnOutcome
    decreases toks.len(),
{
    if toks.len() == 0 {
        if stack.len() == 1 {
            RpnOutcome::Value(stack[0])
        } else {
            RpnOutcome::Unbalanced
        }
    } else {
        let t = toks[0];
        let p = pos + 1;
        if is_i32_literal(t) {
            eval_from(stack.push(literal_val(t)), toks.drop_first(), p)
        } else if stack.len() < 2 {
            // a non-numeric token first claims its two operands; only then is
            // it held against the operator set
            RpnOutcome::StackUnderflow(p)
        } else if is_op_token(t) {
            let y = stack.last();
            let x = stack[stack.len() - 2];
            if op_aborts(t[0], x, y) {
                RpnOutcome::Abort
            } else {
                eval_from(
                    stack.drop_last().drop_last().push(op_value(t[0], x, y)),
                    toks.drop_first(),
                    p,
                )
            }
        } else {
            RpnOutcome::UnknownToken(p)
        }
    }
}

/// Outcome of evaluating a whole formula.
pub open spec fn rpn_outcome(s: Seq<char>) -> RpnOutcome {
    eval_from(Seq::empty(), split_tokens(s), 0)
}

/// The characters of a string, in order.
fn chars_vec(s: &str) -> (r: Vec<char>)
    ensures
        r@ == s@,
{
    broadcast use vstd::string::next_postcondition, vstd::string::axiom_spec_iter;

    let mut it = s.chars();
    let mut r: Vec<char> = Vec::new();
    loop
        invariant_except_break
            r@ + it.remaining() == s@,
        ensures
            r@ == s@,
        decreases s@.len() - r@.len(),
    {
        match it.next() {
            Some(c) => {
                r.push(c);
                proof {
                    assert(r@ + it.remaining() =~= s@);
                }
            },
            None => {
                proof {
                    assert(r@ =~= s@);
                }
                break ;
            },
        }
    }
    r
}

/// Whitespace test matching `is_space_char`.
fn is_space(c: char) -> (r: bool)
    ensures
        r == is_space_char(c),
{
    c == ' ' || c == '\u{9}' || c == '\u{a}' || c == '\u{b}' || c == '\u{c}' || c == '\u{d}' || c
        == '\u{85}' || c == '\u{a0}' || c == '\u{1680}' || ('\u{2000}' <= c && c <= '\u{200a}') || c
        == '\u{2028}' || c == '\u{2029}' || c == '\u{202f}' || c == '\u{205f}' || c == '\u{3000}'
}

/// Splits the characters into whitespace-separated tokens, in order.
fn tokenize(chars: &Vec<char>) -> (r: Vec<Vec<char>>)
    ensures
        r@.map_values(|t: Vec<char>| t@) == split_tokens(chars@),
{
    let n = chars.len();
    let mut out: Vec<Vec<char>> = Vec::new();
    let mut cur: Vec<char> = Vec::new();
    let mut i: usize = 0;
    proof {
        assert(chars@.skip(0) =~= chars@);
    }
    while i < n
        invariant
            n == chars@.len(),
            0 <= i <= n,
            split_tokens(chars@) == out@.map_values(|t: Vec<char>| t@) + split_tokens_from(
                cur@,
                chars@.skip(i as int),
            ),
        decreases n - i,
    {
        let c = chars[i];
        proof {
            assert(chars@.skip(i as int)[0] == chars@[i as int]);
            assert(chars@.skip(i as int).drop_first() =~= chars@.skip(i + 1));
        }
        if is_space(c) {
            if cur.len() > 0 {
                let ghost out_views = out@.map_values(|t: Vec<char>| t@);
                let ghost cur_view = cur@;
                out.push(cur);
                cur = Vec::new();
                proof {
                    assert(out@.map_values(|t: Vec<char>| t@) =~= out_views.push(cur_view));
                    assert(out_views.push(cur_view) + split_tokens_from(
                        Seq::empty(),
                        chars@.skip(i + 1),
                    ) =~= out_views + (seq![cur_view] + split_tokens_from(
                        Seq::empty(),
                        chars@.skip(i + 1),
                    )));
                }
            } else {
                proof {
                    assert(cur@ =~= Seq::<char>::empty());
                    assert(Seq::<Seq<char>>::empty() + split_tokens_from(
                        Seq::empty(),
                        chars@.skip(i + 1),
                    ) =~= split_tokens_from(Seq::empty(), chars@.skip(i + 1)));
                }
            }
        } else {
            cur.push(c);
        }
        i += 1;
    }
    proof {
        assert(chars@.skip(n as int) =~= Seq::<char>::empty());
    }
    if cur.len() > 0 {
        let ghost out_views = out@.map_values(|t: Vec<char>| t@);
        let ghost cur_view = cur@;
        out.push(cur);
        proof {
            assert(out@.map_values(|t: Vec<char>| t@) =~= out_views.push(cur_view));
            assert(out_views.push(cur_view) =~= out_views + seq![cur_view]);
        }
    }
    out
}

proof fn lemma_digits_val_bounds(s: Seq<char>)
    requires
        all_digits(s),
    ensures
        digits_val(s) >= 0,
    decreases s.len(),
{
    if s.len() > 0 {
        assert(forall|i: int|
            0 <= i < s.drop_last().len() ==> is_digit_char(#[trigger] s.drop_last()[i]));
        lemma_digits_val_bounds(s.drop_last());
    }
}

proof fn lemma_digits_val_prefix_le(s: Seq<char>, j: int)
    requires
        all_digits(s),
        0 <= j <= s.len(),
    ensures
        digits_val(s.take(j)) <= digits_val(s),
        digits_val(s.take(j)) >= 0,
    decreases s.len() - j,
{
    assert(forall|i: int| 0 <= i < j ==> is_digit_char(#[trigger] s.take(j)[i]));
    lemma_digits_val_bounds(s.take(j));
    if j < s.len() {
        assert(s.take(j + 1).drop_last() =~= s.take(j));
        assert(digits_val(s.take(j + 1)) == digits_val(s.take(j)) * 10 + digit_val(s[j]));
        lemma_digits_val_bounds(s.take(j));
        assert(digits_val(s.take(j)) * 10 >= digits_val(s.take(j))) by (nonlinear_arith)
            requires
                digits_val(s.take(j)) >= 0,
        ;
        lemma_digits_val_prefix_le(s, j + 1);
    } else {
        assert(s.take(j) =~= s);
    }
}

/// Parses the token as an `i32` literal: an optional sign and one or more
/// decimal digits, with the signed value in range.  Reports `None` exactly
/// when the token is not such a literal.
#[verifier::rlimit(50)]
fn parse_i32_token(t: &Vec<char>) -> (r: Option<i32>)
    ensures
        match r {
            Some(v) => is_i32_literal(t@) && v as int == literal_val(t@),
            None => !is_i32_literal(t@),
        },
{
    let n = t.len();
    if n == 0 {
        return None;
    }
    let first = t[0];
    let neg = first == '-';
    let start: usize = if first == '-' || first == '+' {
        1
    } else {
        0
    };
    let ghost d = unsigned_part(t@);
    proof {
        assert(d =~= t@.skip(start as int));
        assert forall|k: int| 0 <= k < d.len() implies #[trigger] d[k] == t@[k + start] by {
            assert(d[k] == t@.skip(start as int)[k]);
        }
    }
    if start == n {
        // a bare sign has no digits
        return None;
    }
    let mut mag: u64 = 0;
    let mut j: usize = start;
    while j < n
        invariant
            n == t@.len(),
            start <= j <= n,
            start < n,
            start <= 1,
            d == unsigned_part(t@),
            d == t@.skip(start as int),
            d.len() == n - start,
            all_digits(d.take(j - start)),
            mag == digits_val(d.take(j - start)),
            mag <= 0x8000_0000u64,
        decreases n - j,
    {
        let c = t[j];
        if !('0' <= c && c <= '9') {
            proof {
                assert(d[j - start] == t@[j as int]);
                assert(!is_digit_char(d[j - start]));
                assert(!all_digits(d));
                assert(d == unsigned_part(t@));
                assert(!is_i32_literal(t@));
            }
            return None;
        }
        let digit: u64 = (c as u32 as u64) - ('0' as u32 as u64);
        proof {
            assert(d[j - start] == t@[j as int]);
            assert(d.take(j + 1 - start).drop_last() =~= d.take(j - start));
            assert(d.take(j + 1 - start).last() == d[j - start]);
            assert(is_digit_char(d[j - start]));
            assert(digit == digit_val(d[j - start]));
            assert forall|k: int| 0 <= k < j + 1 - start implies is_digit_char(
                #[trigger] d.take(j + 1 - start)[k],
            ) by {
                if k < j - start {
                    assert(d.take(j + 1 - start)[k] == d.take(j - start)[k]);
                }
            }
        }
        mag = mag * 10 + digit;
        j += 1;
        proof {
            assert(mag == digits_val(d.take(j - start)));
        }
        if mag > 0x8000_0000u64 {
            proof {
                if is_i32_literal(t@) {
                    assert(d == unsigned_part(t@));
                    assert(all_digits(d));
                    lemma_digits_val_prefix_le(d, j - start);
                    assert(digits_val(d) >= mag);
                    assert(literal_val(t@) == token_sign(t@) * digits_val(unsigned_part(t@)));
                    if token_sign(t@) == 1 {
                        assert(literal_val(t@) == digits_val(d));
                    } else {
                        assert(token_sign(t@) == -1);
                        assert(literal_val(t@) == -digits_val(d));
                    }
                    assert(false);
                }
            }
            return None;
        }
    }
    proof {
        assert(d.take(j - start) =~= d);
        lemma_digits_val_bounds(d);
    }
    if neg {
        proof {
            assert(t@.len() > 0);
            assert(t@[0] == '-');
            assert(token_sign(t@) == -1);
            assert(d == unsigned_part(t@));
            assert(literal_val(t@) == token_sign(t@) * digits_val(unsigned_part(t@)));
            assert(literal_val(t@) == -digits_val(d));
        }
        // the magnitude is at most 2^31, so the negation fits
        Some((-(mag as i64)) as i32)
    } else {
        proof {
            assert(token_sign(t@) == 1);
            assert(literal_val(t@) == digits_val(d));
        }
        if mag > 0x7fff_ffffu64 {
            return None;
        }
        Some(mag as i32)
    }
}

/// Quotient of two machine integers, rounded toward zero, computed on
/// magnitudes so every step stays in range.
fn div_trunc(x: i32, y: i32) -> (r: i32)
    requires
        y != 0,
        !(x == i32::MIN && y == -1),
    ensures
        r as int == trunc_div(x as int, y as int),
{
    let xm: u32 = if x < 0 {
        (-(x as i64)) as u32
    } else {
        x as u32
    };
    let ym: u32 = if y < 0 {
        (-(y as i64)) as u32
    } else {
        y as u32
    };
    let qm: u32 = xm / ym;
    proof {
        assert(xm == abs_int(x as int));
        assert(ym == abs_int(y as int));
        vstd::arithmetic::div_mod::lemma_div_nonincreasing(xm as int, ym as int);
    }
    if (x < 0) != (y < 0) {
        (-(qm as i64)) as i32
    } else {
        proof {
            if x == i32::MIN {
                // the divisor is then at most -2, so the quotient fits
                vstd::arithmetic::div_mod::lemma_div_is_ordered_by_denominator(
                    xm as int,
                    2,
                    ym as int,
                );
            }
        }
        qm as i32
    }
}

/// Remainder matching `div_trunc`: magnitude of the remainder of the
/// magnitudes, with the dividend's sign.
fn rem_trunc(x: i32, y: i32) -> (r: i32)
    requires
        y != 0,
        !(x == i32::MIN && y == -1),
    ensures
        r as int == trunc_rem(x as int, y as int),
{
    let xm: u32 = if x < 0 {
        (-(x as i64)) as u32
    } else {
        x as u32
    };
    let ym: u32 = if y < 0 {
        (-(y as i64)) as u32
    } else {
        y as u32
    };
    let qm: u32 = xm / ym;
    let rm: u32 = xm % ym;
    proof {
        let xi = x as int;
        let yi = y as int;
        let qi = xm as int / ym as int;
        let ri = xm as int % ym as int;
        assert(xm == abs_int(xi));
        assert(ym == abs_int(yi));
        vstd::arithmetic::div_mod::lemma_fundamental_div_mod(xm as int, ym as int);
        assert(xm as int == ym as int * qi + ri);
        assert(qm == qi && rm == ri);
        let td = trunc_div(xi, yi);
        if x < 0 {
            if y < 0 {
                assert(td == qi);
                assert(xi - yi * td == -ri) by (nonlinear_arith)
                    requires
                        xi == -(xm as int),
                        yi == -(ym as int),
                        td == qi,
                        xm as int == ym as int * qi + ri,
                ;
            } else {
                assert(td == -qi);
                assert(xi - yi * td == -ri) by (nonlinear_arith)
                    requires
                        xi == -(xm as int),
                        yi == ym as int,
                        td == -qi,
                        xm as int == ym as int * qi + ri,
                ;
            }
            assert(trunc_rem(xi, yi) == -ri);
        } else {
            if y < 0 {
                assert(td == -qi);
                assert(xi - yi * td == ri) by (nonlinear_arith)
                    requires
                        xi == xm as int,
                        yi == -(ym as int),
                        td == -qi,
                        xm as int == ym as int * qi + ri,
                ;
            } else {
                assert(td == qi);
                assert(xi - yi * td == ri) by (nonlinear_arith)
                    requires
                        xi == xm as int,
                        yi == ym as int,
                        td == qi,
                        xm as int == ym as int * qi + ri,
                ;
            }
            assert(trunc_rem(xi, yi) == ri);
        }
    }
    if x < 0 {
        (-(rm as i64)) as i32
    } else {
        rm as i32
    }
}



/// Why a formula was rejected.
#[derive(PartialEq, Eq, Structural, Clone, Copy, Debug)]
pub enum RpnError {
    /// An operator at this 1-based token position found fewer than two
    /// operands on the stack.
    InvalidSyntaxAt(usize),
    /// The token at this 1-based position is neither an integer literal nor
    /// an operator.
    InvalidTokenAt(usize),
    /// Evaluation ended without exactly one value on the stack.
    InvalidSyntax,
}

/// The stack's mathematical value.
pub open spec fn int_stack(s: Seq<i32>) -> Seq<int> {
    s.map_values(|x: i32| x as int)
}

/// Applies one binary operator to machine integers; the caller rules out the
/// cases where the machine's arithmetic would give up.
fn apply_binop(c: char, x: i32, y: i32) -> (r: i32)
    requires
        c == '+' || c == '-' || c == '*' || c == '/' || c == '%',
        !op_aborts(c, x as int, y as int),
    ensures
        r as int == op_value(c, x as int, y as int),
{
    if c == '+' {
        x + y
    } else if c == '-' {
        x - y
    } else if c == '*' {
        x * y
    } else if c == '/' {
        div_trunc(x, y)
    } else {
        rem_trunc(x, y)
    }
}

/// A reverse-Polish-notation calculator; the flag records whether the caller
/// asked for a verbose trace (printing is the host's business).
pub struct RpnCalculator(bool);

/// Executable test for `op_aborts`: whether applying the operator to these
/// machine integers would make the machine's arithmetic give up.
fn op_would_abort(c: char, x: i32, y: i32) -> (r: bool)
    requires
        c == '+' || c == '-' || c == '*' || c == '/' || c == '%',
    ensures
        r == op_aborts(c, x as int, y as int),
{
    if c == '/' || c == '%' {
        y == 0 || (x == i32::MIN && y == -1)
    } else {
        let xi: i64 = x as i64;
        let yi: i64 = y as i64;
        let wide: i64 = if c == '+' {
            xi + yi
        } else if c == '-' {
            xi - yi
        } else {
            proof {
                assert(-0x4000_0000_0000_0000 <= xi * yi <= 0x4000_0000_0000_0000)
                    by (nonlinear_arith)
                    requires
                        -0x8000_0000 <= xi <= 0x7fff_ffff,
                        -0x8000_0000 <= yi <= 0x7fff_ffff,
                ;
            }
            xi * yi
        };
        wide < -0x8000_0000i64 || wide > 0x7fff_ffffi64
    }
}

/// Fresh copy of a vector of copyable values.
fn copy_vec<T: Copy>(xs: &Vec<T>) -> (r: Vec<T>)
    ensures
        r@ == xs@,
{
    let mut ret: Vec<T> = Vec::new();
    let mut i: usize = 0;
    while i < xs.len()
        invariant
            0 <= i <= xs@.len(),
            ret@ == xs@.subrange(0, i as int),
        decreases xs@.len() - i,
    {
        ret.push(xs[i]);
        proof {
            assert(ret@ =~= xs@.subrange(0, i + 1));
        }
        i += 1;
    }
    proof {
        assert(ret@ =~= xs@);
    }
    ret
}

/// The tokens from index `from` on, copied in back-to-front order: the
/// representation the stack machine holds them in (next token last).
fn remaining_reversed(toks: &Vec<Vec<char>>, from: usize) -> (r: Vec<Vec<char>>)
    requires
        from <= toks@.len(),
    ensures
        r@.map_values(|t: Vec<char>| t@) == toks@.map_values(|t: Vec<char>| t@).skip(
            from as int,
        ).reverse(),
{
    let n = toks.len();
    let mut out: Vec<Vec<char>> = Vec::new();
    let mut j: usize = n;
    while j > from
        invariant
            from <= j <= n,
            n == toks@.len(),
            out@.len() == n - j,
            forall|k: int| 0 <= k < out@.len() ==> (#[trigger] out@[k])@ == toks@[n - 1 - k]@,
        decreases j,
    {
        j -= 1;
        let copy = copy_vec(&toks[j]);
        out.push(copy);
    }
    proof {
        let views = toks@.map_values(|t: Vec<char>| t@);
        assert forall|k: int| 0 <= k < out@.len() implies out@.map_values(|t: Vec<char>| t@)[k]
            == views.skip(from as int).reverse()[k] by {
            assert(views.skip(from as int).reverse()[k] == views.skip(from as int)[n - from - 1
                - k]);
            assert(views.skip(from as int)[n - from - 1 - k] == views[n - 1 - k]);
            assert(views[n - 1 - k] == toks@[n - 1 - k]@);
        }
        assert(out@.map_values(|t: Vec<char>| t@) =~= views.skip(from as int).reverse());
    }
    out
}

/// One trace entry per successfully processed token: the tokens still to be
/// consumed after the step, and the stack after the step.  The trace stops
/// where evaluation stops, whether by running out of tokens, by an error, or
/// where the machine's arithmetic would give up.
pub open spec fn eval_steps(stack: Seq<int>, toks: Seq<Seq<char>>) -> Seq<(Seq<Seq<char>>, Seq<
    int,
>)>
    decreases toks.len(),
{
    if toks.len() == 0 {
        Seq::empty()
    } else {
        let t = toks[0];
        if is_i32_literal(t) {
            seq![(toks.drop_first(), stack.push(literal_val(t)))] + eval_steps(
                stack.push(literal_val(t)),
                toks.drop_first(),
            )
        } else if stack.len() < 2 {
            Seq::empty()
        } else if is_op_token(t) {
            let y = stack.last();
            let x = stack[stack.len() - 2];
            if op_aborts(t[0], x, y) {
                Seq::empty()
            } else {
                let after = stack.drop_last().drop_last().push(op_value(t[0], x, y));
                seq![(toks.drop_first(), after)] + eval_steps(after, toks.drop_first())
            }
        } else {
            Seq::empty()
        }
    }
}

/// The mathematical content of an executable trace: each entry's token
/// vector (held back-to-front) read in logical order, and its stack values.
pub open spec fn trace_views(tr: Seq<(Vec<Vec<char>>, Vec<i32>)>) -> Seq<(Seq<Seq<char>>, Seq<
    int,
>)> {
    tr.map_values(
        |e: (Vec<Vec<char>>, Vec<i32>)|
            (e.0@.map_values(|t: Vec<char>| t@).reverse(), int_stack(e.1@)),
    )
}


impl RpnCalculator {
    /// Whether a verbose trace was requested.
    pub closed spec fn verbose(&self) -> bool {
        self.0
    }

    /// A calculator with the given verbosity.
    pub fn new(verbose: bool) -> (r: Self)
        ensures
            r.verbose() == verbose,
    {
        RpnCalculator(verbose)
    }

    /// Evaluates a formula: splits it on whitespace and runs the stack
    /// machine over the tokens.  The result — value or error, with the token
    /// position an error reports — is exactly what the specification-level
    /// evaluation of the same formula yields.  Formulas on which the
    /// machine's arithmetic would give up (overflow, division by zero) are
    /// outside the contract.
    pub fn eval(&self, formula: &str) -> (r: Result<i32, RpnError>)
        requires
            !(rpn_outcome(formula@) is Abort),
        ensures
            match rpn_outcome(formula@) {
                RpnOutcome::Value(v) => r == Ok::<i32, RpnError>(v as i32),
                RpnOutcome::StackUnderflow(p) => r == Err::<i32, RpnError>(
                    RpnError::InvalidSyntaxAt(p as usize),
                ),
                RpnOutcome::UnknownToken(p) => r == Err::<i32, RpnError>(
                    RpnError::InvalidTokenAt(p as usize),
                ),
                RpnOutcome::Unbalanced => r == Err::<i32, RpnError>(RpnError::InvalidSyntax),
                RpnOutcome::Abort => false,
            },
    {
        let chars = chars_vec(formula);
        let mut forward = tokenize(&chars);
        let ghost fwd0 = forward@;
        // the stack machine pops tokens from the back, so reverse them
        let mut tokens: Vec<Vec<char>> = Vec::new();
        proof {
            assert(fwd0.skip(fwd0.len() as int).reverse() =~= Seq::<Vec<char>>::empty());
            assert(fwd0.take(fwd0.len() as int) =~= fwd0);
        }
        while forward.len() != 0
            invariant
                forward@.len() <= fwd0.len(),
                forward@ == fwd0.take(forward@.len() as int),
                tokens@ == fwd0.skip(forward@.len() as int).reverse(),
            decreases forward@.len(),
        {
            let ghost k = forward@.len() as int;
            let ghost n = fwd0.len() as int;
            let t = forward.pop().unwrap();
            tokens.push(t);
            proof {
                assert(forward@ =~= fwd0.take(k - 1));
                assert(t == fwd0[k - 1]);
                assert forall|i: int| 0 <= i < n - k + 1 implies tokens@[i] == fwd0.skip(
                    k - 1,
                ).reverse()[i] by {
                    assert(fwd0.skip(k - 1).reverse()[i] == fwd0.skip(k - 1)[n - k - i]);
                    assert(fwd0.skip(k - 1)[n - k - i] == fwd0[n - 1 - i]);
                    if i < n - k {
                        assert(tokens@[i] == fwd0.skip(k).reverse()[i]);
                        assert(fwd0.skip(k).reverse()[i] == fwd0.skip(k)[n - k - 1 - i]);
                        assert(fwd0.skip(k)[n - k - 1 - i] == fwd0[n - 1 - i]);
                    }
                }
                assert(tokens@ =~= fwd0.skip(k - 1).reverse());
            }
        }
        proof {
            assert(tokens@ =~= fwd0.reverse());
            assert(tokens@.map_values(|t: Vec<char>| t@).reverse() =~= fwd0.map_values(
                |t: Vec<char>| t@,
            ));
        }
        self.eval_impl(&mut tokens)
    }

    /// Runs the stack machine over the tokens, which arrive in reverse order
    /// and are consumed from the back.
    pub fn eval_impl(&self, tokens: &mut Vec<Vec<char>>) -> (r: Result<i32, RpnError>)
        requires
            !(eval_from(
                Seq::empty(),
                old(tokens)@.map_values(|t: Vec<char>| t@).reverse(),
                0,
            ) is Abort),
        ensures
            match eval_from(
                Seq::empty(),
                old(tokens)@.map_values(|t: Vec<char>| t@).reverse(),
                0,
            ) {
                RpnOutcome::Value(v) => r == Ok::<i32, RpnError>(v as i32),
                RpnOutcome::StackUnderflow(p) => r == Err::<i32, RpnError>(
                    RpnError::InvalidSyntaxAt(p as usize),
                ),
                RpnOutcome::UnknownToken(p) => r == Err::<i32, RpnError>(
                    RpnError::InvalidTokenAt(p as usize),
                ),
                RpnOutcome::Unbalanced => r == Err::<i32, RpnError>(RpnError::InvalidSyntax),
                RpnOutcome::Abort => false,
            },
            final(tokens)@.map_values(|t: Vec<char>| t@).reverse() == (match eval_from(
                Seq::empty(),
                old(tokens)@.map_values(|t: Vec<char>| t@).reverse(),
                0,
            ) {
                RpnOutcome::StackUnderflow(p) => old(tokens)@.map_values(
                    |t: Vec<char>| t@,
                ).reverse().skip(p),
                RpnOutcome::UnknownToken(p) => old(tokens)@.map_values(
                    |t: Vec<char>| t@,
                ).reverse().skip(p),
                _ => Seq::<Seq<char>>::empty(),
            }),
    {
        let ghost toks = old(tokens)@.map_values(|t: Vec<char>| t@).reverse();
        let total = tokens.len();
        let mut stack: Vec<i32> = Vec::new();
        let mut pos: usize = 0;
        proof {
            assert(toks.len() == total);
            assert(toks.skip(0) =~= toks);
            assert(int_stack(stack@) =~= Seq::<int>::empty());
        }
        while tokens.len() != 0
            invariant
                toks == old(tokens)@.map_values(|t: Vec<char>| t@).reverse(),
                toks.len() <= usize::MAX,
                !(eval_from(Seq::empty(), toks, 0) is Abort),
                pos + tokens@.len() == toks.len(),
                tokens@.map_values(|t: Vec<char>| t@).reverse() == toks.skip(pos as int),
                eval_from(Seq::empty(), toks, 0) == eval_from(
                    int_stack(stack@),
                    toks.skip(pos as int),
                    pos as int,
                ),
            decreases tokens@.len(),
        {
            let ghost cur = toks.skip(pos as int);
            let ghost stack0 = int_stack(stack@);
            let ghost before = tokens@;
            let ghost m = before.len() as int;
            let token = tokens.pop().unwrap();
            pos += 1;
            proof {
                let views = before.map_values(|t: Vec<char>| t@);
                assert(views.reverse() == cur);
                assert(cur[0] == views.reverse()[0]);
                assert(views.reverse()[0] == views[m - 1]);
                assert(views[m - 1] == before[m - 1]@);
                assert(token@ == cur[0]);
                assert forall|i: int| 0 <= i < m - 1 implies tokens@.map_values(
                    |t: Vec<char>| t@,
                ).reverse()[i] == cur.drop_first()[i] by {
                    let views2 = tokens@.map_values(|t: Vec<char>| t@);
                    assert(views2.reverse()[i] == views2[m - 2 - i]);
                    assert(views2[m - 2 - i] == tokens@[m - 2 - i]@);
                    assert(tokens@[m - 2 - i] == before[m - 2 - i]);
                    assert(cur.drop_first()[i] == cur[i + 1]);
                    assert(cur[i + 1] == views.reverse()[i + 1]);
                    assert(views.reverse()[i + 1] == views[m - 2 - i]);
                }
                assert(tokens@.map_values(|t: Vec<char>| t@).reverse() =~= cur.drop_first());
                assert(cur.drop_first() =~= toks.skip(pos as int));
            }
            match parse_i32_token(&token) {
                Some(x) => {
                    stack.push(x);
                    proof {
                        assert(is_i32_literal(cur[0]));
                        assert(int_stack(stack@) =~= stack0.push(x as int));
                        assert(eval_from(stack0, cur, pos - 1) == eval_from(
                            stack0.push(literal_val(cur[0])),
                            cur.drop_first(),
                            pos as int,
                        ));
                    }
                },
                None => {
                    let y = match stack.pop() {
                        Some(v) => v,
                        None => {
                            proof {
                                assert(stack0.len() == 0);
                                assert(eval_from(stack0, cur, pos - 1)
                                    == RpnOutcome::StackUnderflow(pos as int));
                            }
                            return Err(RpnError::InvalidSyntaxAt(pos));
                        },
                    };
                    let x = match stack.pop() {
                        Some(v) => v,
                        None => {
                            proof {
                                assert(stack0.len() == 1);
                                assert(eval_from(stack0, cur, pos - 1)
                                    == RpnOutcome::StackUnderflow(pos as int));
                            }
                            return Err(RpnError::InvalidSyntaxAt(pos));
                        },
                    };
                    proof {
                        assert(stack0.len() >= 2);
                        assert(y as int == stack0.last());
                        assert(x as int == stack0[stack0.len() - 2]);
                    }
                    let mut is_operator = false;
                    if token.len() == 1 {
                        let c = token[0];
                        if c == '+' || c == '-' || c == '*' || c == '/' || c == '%' {
                            is_operator = true;
                        }
                    }
                    if !is_operator {
                        proof {
                            assert(!is_op_token(cur[0]));
                            assert(eval_from(stack0, cur, pos - 1) == RpnOutcome::UnknownToken(
                                pos as int,
                            ));
                        }
                        return Err(RpnError::InvalidTokenAt(pos));
                    }
                    let c = token[0];
                    proof {
                        assert(is_op_token(cur[0]));
                        assert(cur[0][0] == c);
                        assert(!op_aborts(c, x as int, y as int)) by {
                            if op_aborts(c, x as int, y as int) {
                                assert(eval_from(stack0, cur, pos - 1) == RpnOutcome::Abort);
                            }
                        }
                    }
                    let res = apply_binop(c, x, y);
                    stack.push(res);
                    proof {
                        assert(int_stack(stack@) =~= stack0.drop_last().drop_last().push(
                            op_value(c, x as int, y as int),
                        ));
                        assert(eval_from(stack0, cur, pos - 1) == eval_from(
                            stack0.drop_last().drop_last().push(op_value(c, x as int, y as int)),
                            cur.drop_first(),
                            pos as int,
                        ));
                    }
                },
            }
        }
        proof {
            assert(toks.skip(pos as int) =~= Seq::<Seq<char>>::empty());
        }
        if stack.len() == 1 {
            Ok(stack[0])
        } else {
            Err(RpnError::InvalidSyntax)
        }
    }

    /// Executable guard for `eval`'s domain: whether evaluating the formula
    /// would make the machine's arithmetic give up (overflow, or division or
    /// remainder by zero).  A host tests this before calling `eval` and
    /// fails on such formulas the way the raw arithmetic would.
    pub fn eval_aborts(&self, formula: &str) -> (r: bool)
        ensures
            r == (rpn_outcome(formula@) is Abort),
    {
        let chars = chars_vec(formula);
        let toks_vec = tokenize(&chars);
        let ghost toks = split_tokens(formula@);
        let n = toks_vec.len();
        let mut stack: Vec<i32> = Vec::new();
        let mut i: usize = 0;
        proof {
            assert(toks.skip(0) =~= toks);
            assert(int_stack(stack@) =~= Seq::<int>::empty());
        }
        while i < n
            invariant
                toks == split_tokens(formula@),
                toks == toks_vec@.map_values(|t: Vec<char>| t@),
                n == toks.len(),
                0 <= i <= n,
                eval_from(Seq::empty(), toks, 0) == eval_from(
                    int_stack(stack@),
                    toks.skip(i as int),
                    i as int,
                ),
            decreases n - i,
        {
            let ghost cur = toks.skip(i as int);
            let ghost stack0 = int_stack(stack@);
            let token = &toks_vec[i];
            proof {
                assert(cur[0] == toks[i as int]);
                assert(toks[i as int] == toks_vec@[i as int]@);
                assert(cur.drop_first() =~= toks.skip(i + 1));
            }
            match parse_i32_token(token) {
                Some(x) => {
                    stack.push(x);
                    proof {
                        assert(int_stack(stack@) =~= stack0.push(x as int));
                        assert(eval_from(stack0, cur, i as int) == eval_from(
                            stack0.push(literal_val(cur[0])),
                            cur.drop_first(),
                            i + 1,
                        ));
                    }
                },
                None => {
                    if stack.len() < 2 {
                        proof {
                            assert(eval_from(stack0, cur, i as int) == RpnOutcome::StackUnderflow(
                                i + 1,
                            ));
                        }
                        return false;
                    }
                    let y = stack.pop().unwrap();
                    let x = stack.pop().unwrap();
                    proof {
                        assert(y as int == stack0.last());
                        assert(x as int == stack0[stack0.len() - 2]);
                    }
                    let mut is_operator = false;
                    if token.len() == 1 {
                        let c = token[0];
                        if c == '+' || c == '-' || c == '*' || c == '/' || c == '%' {
                            is_operator = true;
                        }
                    }
                    if !is_operator {
                        proof {
                            assert(!is_op_token(cur[0]));
                            assert(eval_from(stack0, cur, i as int) == RpnOutcome::UnknownToken(
                                i + 1,
                            ));
                        }
                        return false;
                    }
                    let c = token[0];
                    proof {
                        assert(is_op_token(cur[0]));
                        assert(cur[0][0] == c);
                    }
                    if op_would_abort(c, x, y) {
                        proof {
                            assert(eval_from(stack0, cur, i as int) == RpnOutcome::Abort);
                        }
                        return true;
                    }
                    let res = apply_binop(c, x, y);
                    stack.push(res);
                    proof {
                        assert(int_stack(stack@) =~= stack0.drop_last().drop_last().push(
                            op_value(c, x as int, y as int),
                        ));
                        assert(eval_from(stack0, cur, i as int) == eval_from(
                            stack0.drop_last().drop_last().push(op_value(c, x as int, y as int)),
                            cur.drop_first(),
                            i + 1,
                        ));
                    }
                },
            }
            i += 1;
        }
        proof {
            assert(toks.skip(n as int) =~= Seq::<Seq<char>>::empty());
        }
        false
    }

    /// The verbose trace of evaluating the formula: one entry per processed
    /// token, holding the tokens still to be consumed (back-to-front, the
    /// order the stack machine keeps them in) and the stack after the step.
    /// The trace breaks off exactly where evaluation does — at the end, at
    /// the first error, or where the machine's arithmetic would give up.
    pub fn eval_trace(&self, formula: &str) -> (tr: Vec<(Vec<Vec<char>>, Vec<i32>)>)
        ensures
            trace_views(tr@) == eval_steps(Seq::empty(), split_tokens(formula@)),
    {
        let chars = chars_vec(formula);
        let toks_vec = tokenize(&chars);
        let ghost toks = split_tokens(formula@);
        let n = toks_vec.len();
        let mut stack: Vec<i32> = Vec::new();
        let mut trace: Vec<(Vec<Vec<char>>, Vec<i32>)> = Vec::new();
        let mut i: usize = 0;
        proof {
            assert(toks.skip(0) =~= toks);
            assert(int_stack(stack@) =~= Seq::<int>::empty());
            assert(trace_views(trace@) =~= Seq::<(Seq<Seq<char>>, Seq<int>)>::empty());
        }
        while i < n
            invariant
                toks == split_tokens(formula@),
                toks == toks_vec@.map_values(|t: Vec<char>| t@),
                n == toks.len(),
                0 <= i <= n,
                eval_steps(Seq::empty(), toks) == trace_views(trace@) + eval_steps(
                    int_stack(stack@),
                    toks.skip(i as int),
                ),
            decreases n - i,
        {
            let ghost cur = toks.skip(i as int);
            let ghost stack0 = int_stack(stack@);
            let ghost trace0 = trace_views(trace@);
            let token = &toks_vec[i];
            proof {
                assert(cur[0] == toks[i as int]);
                assert(toks[i as int] == toks_vec@[i as int]@);
                assert(cur.drop_first() =~= toks.skip(i + 1));
            }
            match parse_i32_token(token) {
                Some(x) => {
                    stack.push(x);
                    proof {
                        assert(int_stack(stack@) =~= stack0.push(x as int));
                    }
                },
                None => {
                    if stack.len() < 2 {
                        proof {
                            assert(eval_steps(stack0, cur) =~= Seq::<(Seq<Seq<char>>, Seq<
                                int,
                            >)>::empty());
                            assert(trace_views(trace@) =~= eval_steps(Seq::empty(), toks));
                        }
                        return trace;
                    }
                    let y = stack.pop().unwrap();
                    let x = stack.pop().unwrap();
                    proof {
                        assert(y as int == stack0.last());
                        assert(x as int == stack0[stack0.len() - 2]);
                    }
                    let mut is_operator = false;
                    if token.len() == 1 {
                        let c = token[0];
                        if c == '+' || c == '-' || c == '*' || c == '/' || c == '%' {
                            is_operator = true;
                        }
                    }
                    if !is_operator {
                        proof {
                            assert(!is_op_token(cur[0]));
                            assert(eval_steps(stack0, cur) =~= Seq::<(Seq<Seq<char>>, Seq<
                                int,
                            >)>::empty());
                            assert(trace_views(trace@) =~= eval_steps(Seq::empty(), toks));
                        }
                        return trace;
                    }
                    let c = token[0];
                    proof {
                        assert(is_op_token(cur[0]));
                        assert(cur[0][0] == c);
                    }
                    if op_would_abort(c, x, y) {
                        proof {
                            assert(eval_steps(stack0, cur) =~= Seq::<(Seq<Seq<char>>, Seq<
                                int,
                            >)>::empty());
                            assert(trace_views(trace@) =~= eval_steps(Seq::empty(), toks));
                        }
                        return trace;
                    }
                    let res = apply_binop(c, x, y);
                    stack.push(res);
                    proof {
                        assert(int_stack(stack@) =~= stack0.drop_last().drop_last().push(
                            op_value(c, x as int, y as int),
                        ));
                    }
                },
            }
            let remaining = remaining_reversed(&toks_vec, i + 1);
            let snapshot = copy_vec(&stack);
            trace.push((remaining, snapshot));
            proof {
                let entry = (toks.skip(i + 1), int_stack(stack@));
                assert(remaining@.map_values(|t: Vec<char>| t@).reverse() =~= toks.skip(i + 1));
                assert(int_stack(snapshot@) =~= int_stack(stack@));
                assert(trace_views(trace@) =~= trace0.push(entry));
                assert(eval_steps(stack0, cur) == seq![entry] + eval_steps(
                    int_stack(stack@),
                    toks.skip(i + 1),
                ));
                assert(trace0 + (seq![entry] + eval_steps(int_stack(stack@), toks.skip(i + 1)))
                    =~= trace0.push(entry) + eval_steps(int_stack(stack@), toks.skip(i + 1)));
            }
            i += 1;
        }
        proof {
            assert(toks.skip(n as int) =~= Seq::<Seq<char>>::empty());
            assert(eval_steps(int_stack(stack@), toks.skip(n as int)) =~= Seq::<(Seq<Seq<
                char,
            >>, Seq<int>)>::empty());
            assert(trace_views(trace@) =~= eval_steps(Seq::empty(), toks));
        }
        trace
    }
}

} // verus!
