//! What is read as an expression, and how a result is shown.

use vstd::prelude::*;

use crate::calc::{
    ascii_form, digits_end, either_at, exponent_start, grouped, has_operator, is_expression,
    is_gap, is_symbol, mantissa_end, normalized, number_end, number_valid, tidied, tokens_from, without_zeros,
    written, BinOp, ExprView, Level, TokenView,
};
use crate::text::{all_digits, is_digit, trimmed};

verus! {

/// Whether `k` characters of a decimal are left when its trailing zeros are taken
/// off, and the point where nothing follows it: all that is taken off is zeros, and
/// a point before them, and nothing more could be.
pub open spec fn left_over(s: Seq<char>, k: int) -> bool {
    &&& 0 <= k <= s.len()
    &&& forall|i: int| k < i < s.len() ==> #[trigger] s[i] == '0'
    &&& k < s.len() ==> s[k] == '0' || s[k] == '.'
    &&& (k == s.len() || s[k] == '0') && k > 0 ==> s[k - 1] != '0' && s[k - 1] != '.'
}

proof fn lemma_zeros(s: Seq<char>)
    ensures
        without_zeros(s).len() <= s.len(),
        without_zeros(s) == s.take(without_zeros(s).len() as int),
        forall|i: int| without_zeros(s).len() <= i < s.len() ==> #[trigger] s[i] == '0',
        without_zeros(s).len() > 0 ==> without_zeros(s).last() != '0',
    decreases s.len(),
{
    if s.len() > 0 && s.last() == '0' {
        let d = s.drop_last();
        lemma_zeros(d);
        assert(without_zeros(s) =~= s.take(without_zeros(s).len() as int));
        assert forall|i: int| without_zeros(s).len() <= i < s.len() implies #[trigger] s[i]
            == '0' by {
            if i < d.len() {
                assert(d[i] == s[i]);
            }
        }
    } else {
        assert(s.take(s.len() as int) =~= s);
    }
}

/// What is shown of a decimal is how it begins: only the zeros at its end are taken
/// off, and the point where nothing follows it. Where nothing, or only a sign, would
/// be left, it is `0`.
pub proof fn shown_decimals_lose_only_zeros(s: Seq<char>) -> (k: int)
    ensures
        left_over(s, k),
        tidied(s) == (if k == 0 || (k == 1 && s[0] == '-') {
            seq!['0']
        } else {
            s.take(k)
        }),
{
    lemma_zeros(s);
    let t = without_zeros(s);
    let n = t.len() as int;
    let k = if n > 0 && s[n - 1] == '.' {
        n - 1
    } else {
        n
    };
    if n > 0 {
        assert(t.last() == s[n - 1]);
    }
    if k < n {
        assert(t.drop_last() =~= s.take(k));
    }
    if k == 1 && s[0] == '-' {
        assert(s.take(k) =~= seq!['-']);
    }
    if k > 0 && s.take(k) == seq!['-'] {
        assert(s.take(k)[0] == s[0]);
        assert(s.take(k).len() == 1);
    }
    k
}

/// A decimal with a digit other than zero is shown by what is left of it, sign and
/// all; where it has a point, what is shown ends neither in the point nor in a zero
/// behind it.
pub proof fn shown_decimals_keep_their_value(s: Seq<char>, digit: int, point: int)
    requires
        0 <= digit < s.len(),
        '1' <= s[digit] && s[digit] <= '9',
        0 <= point < s.len(),
        s[point] == '.',
        forall|i: int| 0 <= i < s.len() && #[trigger] s[i] == '.' ==> i == point,
    ensures
        tidied(s).len() > digit,
        tidied(s).len() <= s.len(),
        tidied(s) == s.take(tidied(s).len() as int),
        tidied(s).last() != '.',
        tidied(s).len() > point ==> tidied(s).last() != '0',
        forall|i: int|
            tidied(s).len() <= i < s.len() ==> #[trigger] s[i] == '0' || i == point,
        tidied(s)[0] == s[0],
        tidied(s).len() >= point,
{
    let k = shown_decimals_lose_only_zeros(s);
    if k <= digit {
        assert(s[digit] == '0' || s[digit] == '.');
    }
    assert(k > 0);
    if k == 1 && s[0] == '-' {
        assert(digit == 0);
    }
    assert(tidied(s) == s.take(k));
    if k < point {
        assert(s[point] == '0');
    }
}

/// The symbols that an input method types for the operators, the brackets and the
/// digits stand for these; every other character stands for itself.
pub proof fn symbols_stand_for_operators(s: Seq<char>, i: int)
    requires
        0 <= i < s.len(),
    ensures
        normalized(s).len() == s.len(),
        ({
            let c = s[i];
            let d = normalized(s)[i];
            if c == '×' || c == '·' {
                d == '*'
            } else if c == '÷' {
                d == '/'
            } else if c == '−' || c == '–' || c == '—' {
                d == '-'
            } else if c == '（' {
                d == '('
            } else if c == '）' {
                d == ')'
            } else if '０' <= c && c <= '９' {
                d as u32 == c as u32 - 0xFF10 + 48
            } else {
                d == c
            }
        }),
{
    assert(ascii_form(s[i]) == normalized(s)[i]);
}

/// How tightly an operator binds.
pub open spec fn rank(op: BinOp) -> int {
    match op {
        BinOp::Add => 1,
        BinOp::Sub => 1,
        BinOp::Mul => 2,
        BinOp::Div => 2,
        BinOp::Rem => 2,
        BinOp::Pow => 4,
    }
}

/// Whether every operator of `e` outside parentheses binds at least so tightly.
pub open spec fn binds(e: ExprView, least: int) -> bool
    decreases e,
{
    match e {
        ExprView::Num(_) => true,
        ExprView::Group(_) => true,
        ExprView::Sign(_, a) => binds(*a, least),
        ExprView::Binary(op, a, b) => rank(op) >= least && binds(*a, least) && binds(*b, least),
    }
}

/// Whether an expression is read by the usual rules: what binds less tightly stands
/// in parentheses, equal operators are taken from the left but for powers, which are
/// taken from the right, and a sign is of a power.
pub open spec fn read_as_usual(e: ExprView) -> bool
    decreases e,
{
    match e {
        ExprView::Num(_) => true,
        ExprView::Group(a) => read_as_usual(*a),
        ExprView::Sign(_, a) => read_as_usual(*a) && binds(*a, 4),
        ExprView::Binary(op, a, b) => {
            &&& read_as_usual(*a) && read_as_usual(*b)
            &&& match op {
                BinOp::Add | BinOp::Sub => binds(*a, 1) && binds(*b, 2),
                BinOp::Mul | BinOp::Div | BinOp::Rem => binds(*a, 2) && binds(*b, 4),
                BinOp::Pow => (*a is Num || *a is Group) && binds(*b, 4),
            }
        },
    }
}

proof fn lemma_binds_less(e: ExprView, most: int, least: int)
    requires
        binds(e, most),
        least <= most,
    ensures
        binds(e, least),
    decreases e,
{
    match e {
        ExprView::Sign(_, a) => {
            lemma_binds_less(*a, most, least);
        },
        ExprView::Binary(_, a, b) => {
            lemma_binds_less(*a, most, least);
            lemma_binds_less(*b, most, least);
        },
        _ => {},
    }
}

spec fn usual_at(e: ExprView, level: Level) -> bool {
    &&& read_as_usual(e)
    &&& match level {
        Level::Sum => binds(e, 1),
        Level::Product => binds(e, 2),
        Level::Factor => binds(e, 4),
        Level::Power => binds(e, 4) && !(e is Sign),
        Level::Atom => e is Num || e is Group,
    }
}

spec fn below(level: Level) -> nat {
    match level {
        Level::Sum => 4,
        Level::Product => 3,
        Level::Factor => 2,
        Level::Power => 1,
        Level::Atom => 0,
    }
}

#[verifier::rlimit(40)]
proof fn lemma_grouped(e: ExprView, level: Level)
    ensures
        grouped(e, level) == usual_at(e, level),
    decreases e, below(level),
{
    reveal_with_fuel(binds, 3);
    match level {
        Level::Sum => {
            lemma_grouped(e, Level::Product);
            if let ExprView::Binary(op, a, b) = e {
                lemma_grouped(*a, Level::Sum);
                lemma_grouped(*b, Level::Product);
                if binds(*b, 2) {
                    lemma_binds_less(*b, 2, 1);
                }
            }
            if binds(e, 2) {
                lemma_binds_less(e, 2, 1);
            }
            if read_as_usual(e) && binds(e, 1) {
                lemma_usual_binds(e);
                match e {
                    ExprView::Binary(op, a, b) => {
                        if rank(op) >= 2 {
                            lemma_binds_less(e, rank(op), 2);
                        }
                    },
                    _ => {
                        lemma_binds_less(e, 4, 2);
                    },
                }
            }
        },
        Level::Product => {
            lemma_grouped(e, Level::Factor);
            if let ExprView::Binary(op, a, b) = e {
                lemma_grouped(*a, Level::Product);
                lemma_grouped(*b, Level::Factor);
                if binds(*b, 4) {
                    lemma_binds_less(*b, 4, 2);
                }
            }
            if binds(e, 4) {
                lemma_binds_less(e, 4, 2);
            }
            if read_as_usual(e) && binds(e, 2) {
                lemma_usual_binds(e);
                if let ExprView::Binary(op, a, b) = e {
                    if rank(op) >= 4 {
                        lemma_binds_less(e, rank(op), 4);
                    }
                }
            }
        },
        Level::Factor => {
            lemma_grouped(e, Level::Power);
            if let ExprView::Sign(_, a) = e {
                lemma_grouped(*a, Level::Factor);
            }
        },
        Level::Power => {
            lemma_grouped(e, Level::Atom);
            if let ExprView::Binary(op, a, b) = e {
                lemma_grouped(*a, Level::Atom);
                lemma_grouped(*b, Level::Factor);
            }
        },
        Level::Atom => {
            if let ExprView::Group(a) = e {
                lemma_grouped(*a, Level::Sum);
                lemma_all_bind(*a);
            }
        },
    }
}

/// Every operator binds at least as tightly as a sum.
proof fn lemma_all_bind(e: ExprView)
    ensures
        binds(e, 1),
    decreases e,
{
    match e {
        ExprView::Sign(_, a) => {
            lemma_all_bind(*a);
        },
        ExprView::Binary(_, a, b) => {
            lemma_all_bind(*a);
            lemma_all_bind(*b);
        },
        _ => {},
    }
}

/// What is read as usual, and whose outermost operator binds tightly, binds tightly
/// throughout.
proof fn lemma_usual_binds(e: ExprView)
    requires
        read_as_usual(e),
    ensures
        match e {
            ExprView::Sign(_, _) => binds(e, 4),
            ExprView::Binary(op, _, _) => binds(e, rank(op)),
            _ => binds(e, 4),
        },
{
    reveal_with_fuel(binds, 3);
    reveal_with_fuel(read_as_usual, 2);
    if let ExprView::Binary(op, a, b) = e {
        match op {
            BinOp::Add | BinOp::Sub => {
                lemma_binds_less(*b, 2, 1);
            },
            BinOp::Mul | BinOp::Div | BinOp::Rem => {
                lemma_binds_less(*b, 4, 2);
            },
            BinOp::Pow => {},
        }
    }
}

/// Expressions are grouped by the usual rules, and in no other way.
pub proof fn expressions_are_read_as_usual(e: ExprView)
    ensures
        grouped(e, Level::Sum) <==> read_as_usual(e),
{
    lemma_grouped(e, Level::Sum);
    lemma_all_bind(e);
}

/// How many numbers there are among the tokens.
pub open spec fn numbers_in(ts: Seq<TokenView>) -> int
    decreases ts.len(),
{
    if ts.len() == 0 {
        0
    } else {
        numbers_in(ts.drop_last()) + if ts.last() is Num {
            1int
        } else {
            0
        }
    }
}

proof fn lemma_numbers_sum(a: Seq<TokenView>, b: Seq<TokenView>)
    ensures
        numbers_in(a + b) == numbers_in(a) + numbers_in(b),
    decreases b.len(),
{
    if b.len() == 0 {
        assert(a + b =~= a);
    } else {
        lemma_numbers_sum(a, b.drop_last());
        assert((a + b).drop_last() =~= a + b.drop_last());
    }
}

proof fn lemma_one_token(t: TokenView)
    ensures
        numbers_in(seq![t]) == if t is Num {
            1int
        } else {
            0
        },
{
    assert(seq![t].drop_last() =~= Seq::<TokenView>::empty());
    reveal_with_fuel(numbers_in, 2);
}

/// Only what has two operands counts as something to compute: an expression has an
/// operator on two operands exactly where it has more than one number.
pub proof fn computing_takes_two_numbers(e: ExprView)
    ensures
        numbers_in(written(e)) >= 1,
        has_operator(e) <==> numbers_in(written(e)) >= 2,
    decreases e,
{
    match e {
        ExprView::Num(s) => {
            lemma_one_token(TokenView::Num(s));
        },
        ExprView::Group(a) => {
            computing_takes_two_numbers(*a);
            lemma_one_token(TokenView::Sym('('));
            lemma_one_token(TokenView::Sym(')'));
            lemma_numbers_sum(seq![TokenView::Sym('(')], written(*a));
            lemma_numbers_sum(
                seq![TokenView::Sym('(')] + written(*a),
                seq![TokenView::Sym(')')],
            );
        },
        ExprView::Sign(minus, a) => {
            computing_takes_two_numbers(*a);
            let sign = TokenView::Sym(
                if minus {
                    '-'
                } else {
                    '+'
                },
            );
            lemma_one_token(sign);
            lemma_numbers_sum(seq![sign], written(*a));
        },
        ExprView::Binary(op, a, b) => {
            computing_takes_two_numbers(*a);
            computing_takes_two_numbers(*b);
            let sign = TokenView::Sym(crate::calc::op_char(op));
            lemma_one_token(sign);
            lemma_numbers_sum(written(*a), seq![sign]);
            lemma_numbers_sum(written(*a) + seq![sign], written(*b));
        },
    }
}

/// The tokens of `s` behind the tokens `first`.
pub open spec fn behind(first: Seq<TokenView>, rest: Option<Seq<TokenView>>) -> Option<
    Seq<TokenView>,
> {
    match rest {
        Some(ts) => Some(first + ts),
        None => None,
    }
}

proof fn lemma_digits_shift(a: Seq<char>, s: Seq<char>, i: int)
    requires
        0 <= i,
    ensures
        digits_end(a + s, a.len() + i) == a.len() + digits_end(s, i),
        digits_end(s, i) >= i,
    decreases s.len() - i,
{
    if i < s.len() {
        assert((a + s)[a.len() + i] == s[i]);
        if is_digit(s[i]) {
            lemma_digits_shift(a, s, i + 1);
        }
    }
}

proof fn lemma_number_shift(a: Seq<char>, s: Seq<char>, i: int)
    requires
        0 <= i < s.len(),
    ensures
        number_end(a + s, a.len() + i) == a.len() + number_end(s, i),
        number_valid(a + s, a.len() + i) == number_valid(s, i),
{
    let t = a + s;
    let n = a.len() as int;
    lemma_digits_shift(a, s, i);
    let x = digits_end(s, i);
    assert(either_at(t, n + x, '.', '.') == either_at(s, x, '.', '.'));
    lemma_digits_shift(a, s, x + 1);
    let b = mantissa_end(s, i);
    assert(mantissa_end(t, n + i) == n + b);
    assert(b >= i);
    assert(either_at(t, n + b, 'e', 'E') == either_at(s, b, 'e', 'E'));
    assert(either_at(t, n + b + 1, '+', '-') == either_at(s, b + 1, '+', '-'));
    lemma_digits_shift(a, s, exponent_start(s, b));
}

proof fn lemma_tokens_shift(a: Seq<char>, s: Seq<char>, i: int)
    requires
        0 <= i,
    ensures
        tokens_from(a + s, a.len() + i) == tokens_from(s, i),
    decreases s.len() - i,
{
    let t = a + s;
    let n = a.len() as int;
    if i < s.len() {
        assert(t[n + i] == s[i]);
        if is_gap(s[i]) {
            lemma_tokens_shift(a, s, i + 1);
        } else if is_digit(s[i]) || s[i] == '.' {
            lemma_number_shift(a, s, i);
            let e = number_end(s, i);
            if number_valid(s, i) && i < e <= s.len() {
                lemma_tokens_shift(a, s, e);
                assert(t.subrange(n + i, n + e) =~= s.subrange(i, e));
            }
        } else if is_symbol(s[i]) {
            lemma_tokens_shift(a, s, i + 1);
        }
    }
}

/// White space before a token does not count, an operator or a parenthesis is a
/// token by itself, and any other character that begins no number makes the text no
/// expression.
pub proof fn texts_are_read_token_by_token(c: char, s: Seq<char>)
    ensures
        ({
            let text = seq![c] + s;
            if c == ' ' || c == '\t' || c == '\n' || c == '\r' || c == '\x0C' {
                tokens_from(text, 0) == tokens_from(s, 0)
            } else if c == '+' || c == '-' || c == '*' || c == '/' || c == '%' || c == '^' || c
                == '(' || c == ')' {
                tokens_from(text, 0) == behind(seq![TokenView::Sym(c)], tokens_from(s, 0))
            } else if c == '.' || ('0' <= c && c <= '9') {
                true
            } else {
                tokens_from(text, 0) is None
            }
        }),
        tokens_from(Seq::empty(), 0) == Some(Seq::<TokenView>::empty()),
{
    let text = seq![c] + s;
    assert(text[0] == c);
    lemma_tokens_shift(seq![c], s, 0);
}

/// The digits of an exponent, with its letter and a sign where it has one.
pub open spec fn exponent_text(letter: char, sign: Option<char>, digits: Seq<char>) -> Seq<char> {
    match sign {
        Some(c) => seq![letter, c] + digits,
        None => seq![letter] + digits,
    }
}

/// A number as it can be typed: digits, with a point among them or at one of their
/// ends, and an exponent.
pub open spec fn number_text(
    whole: Seq<char>,
    point: bool,
    fraction: Seq<char>,
    exponent: Seq<char>,
) -> Seq<char> {
    whole + (if point {
        seq!['.'] + fraction
    } else {
        Seq::empty()
    }) + exponent
}

proof fn lemma_digit_run(s: Seq<char>, i: int, n: int)
    requires
        0 <= i <= n <= s.len(),
        forall|k: int| i <= k < n ==> is_digit(#[trigger] s[k]),
        n < s.len() ==> !is_digit(s[n]),
    ensures
        digits_end(s, i) == n,
    decreases n - i,
{
    if i < n {
        assert(is_digit(s[i]));
        lemma_digit_run(s, i + 1, n);
    }
}

/// A number is one token as far as it goes: digits with or without a point, and with
/// or without an exponent, up to white space, an operator or a parenthesis.
#[verifier::rlimit(40)]
pub proof fn numbers_are_read_whole(
    whole: Seq<char>,
    point: bool,
    fraction: Seq<char>,
    has_exponent: bool,
    letter: char,
    sign: Option<char>,
    digits: Seq<char>,
    rest: Seq<char>,
)
    requires
        all_digits(whole),
        all_digits(fraction),
        all_digits(digits),
        whole.len() > 0 || (point && fraction.len() > 0),
        has_exponent ==> (letter == 'e' || letter == 'E') && digits.len() > 0,
        sign matches Some(c) ==> c == '+' || c == '-',
        rest.len() > 0 ==> is_gap(rest[0]) || is_symbol(rest[0]),
    ensures
        ({
            let exponent = if has_exponent {
                exponent_text(letter, sign, digits)
            } else {
                Seq::empty()
            };
            let number = number_text(whole, point, fraction, exponent);
            tokens_from(number + rest, 0) == behind(
                seq![TokenView::Num(number)],
                tokens_from(rest, 0),
            )
        }),
{
    let exponent = if has_exponent {
        exponent_text(letter, sign, digits)
    } else {
        Seq::empty()
    };
    let number = number_text(whole, point, fraction, exponent);
    let t = number + rest;
    let a = whole.len() as int;
    let b = a + if point {
        1 + fraction.len()
    } else {
        0
    };
    let n = number.len() as int;
    assert(n == b + exponent.len());
    assert forall|k: int| 0 <= k < a implies is_digit(#[trigger] t[k]) by {
        assert(t[k] == whole[k]);
    }
    if point {
        assert(t[a] == '.');
        assert forall|k: int| a + 1 <= k < b implies is_digit(#[trigger] t[k]) by {
            assert(t[k] == fraction[k - a - 1]);
        }
    }
    if has_exponent {
        assert(t[b] == letter);
    } else if rest.len() > 0 {
        assert(t[b] == rest[0]);
    }
    lemma_digit_run(t, 0, a);
    if point {
        lemma_digit_run(t, a + 1, b);
    }
    assert(mantissa_end(t, 0) == b);
    if has_exponent {
        let c = exponent_start(t, b);
        match sign {
            Some(x) => {
                assert(t[b + 1] == x);
                assert(c == b + 2);
            },
            None => {
                assert(t[b + 1] == digits[0]);
                assert(is_digit(digits[0]));
                assert(c == b + 1);
            },
        }
        assert(n == c + digits.len());
        assert forall|k: int| c <= k < n implies is_digit(#[trigger] t[k]) by {
            assert(t[k] == digits[k - c]);
        }
        if rest.len() > 0 {
            assert(t[n] == rest[0]);
        }
        lemma_digit_run(t, c, n);
    }
    assert(number_end(t, 0) == n);
    assert(number_valid(t, 0));
    assert(is_digit(t[0]) || t[0] == '.');
    assert(t.subrange(0, n) =~= number);
    assert(!is_gap(t[0]));
    lemma_tokens_shift(number, rest, 0);
}

/// Whether a number is put together of these parts.
pub open spec fn put_together(
    number: Seq<char>,
    whole: Seq<char>,
    point: bool,
    fraction: Seq<char>,
    exponent: Seq<char>,
) -> bool {
    &&& number == number_text(whole, point, fraction, exponent)
    &&& all_digits(whole) && all_digits(fraction)
    &&& whole.len() > 0 || (point && fraction.len() > 0)
    &&& exponent.len() == 0 || is_exponent(exponent)
}

/// Whether a text is an exponent: a letter, a sign where it has one, and digits.
pub open spec fn is_exponent(s: Seq<char>) -> bool {
    &&& s.len() >= 2
    &&& s[0] == 'e' || s[0] == 'E'
    &&& if s[1] == '+' || s[1] == '-' {
        s.len() >= 3 && all_digits(s.skip(2))
    } else {
        all_digits(s.skip(1))
    }
}

proof fn lemma_digits_end(s: Seq<char>, i: int)
    requires
        0 <= i <= s.len(),
    ensures
        i <= digits_end(s, i) <= s.len(),
        forall|k: int| i <= k < digits_end(s, i) ==> is_digit(#[trigger] s[k]),
    decreases s.len() - i,
{
    if i < s.len() && is_digit(s[i]) {
        lemma_digits_end(s, i + 1);
    }
}

/// What begins with a digit or a point is read as a number with digits, and nothing
/// else, at its beginning, and goes on behind it.
#[verifier::rlimit(40)]
pub proof fn only_numbers_are_read_as_numbers(s: Seq<char>) -> (k: int)
    requires
        s.len() > 0,
        s[0] == '.' || ('0' <= s[0] && s[0] <= '9'),
        tokens_from(s, 0) is Some,
    ensures
        0 < k <= s.len(),
        tokens_from(s, 0) == behind(seq![TokenView::Num(s.take(k))], tokens_from(s.skip(k), 0)),
        exists|whole: Seq<char>, point: bool, fraction: Seq<char>, exponent: Seq<char>|
            #[trigger] put_together(s.take(k), whole, point, fraction, exponent),
{
    let a = digits_end(s, 0);
    let b = mantissa_end(s, 0);
    let k = number_end(s, 0);
    assert(s.subrange(0, k) =~= s.take(k));
    lemma_tokens_shift(s.take(k), s.skip(k), 0);
    assert(s.take(k) + s.skip(k) =~= s);
    lemma_digits_end(s, 0);
    let point = either_at(s, a, '.', '.');
    if point {
        lemma_digits_end(s, a + 1);
    }
    let whole = s.take(a);
    let fraction = if point {
        s.subrange(a + 1, b)
    } else {
        Seq::empty()
    };
    let exponent = s.subrange(b, k);
    if either_at(s, b, 'e', 'E') {
        let c = exponent_start(s, b);
        assert(c <= s.len());
        lemma_digits_end(s, c);
        assert(exponent[0] == s[b] && exponent[1] == s[b + 1]);
        if c == b + 2 {
            assert forall|m: int| 0 <= m < exponent.skip(2).len() implies is_digit(
                #[trigger] exponent.skip(2)[m],
            ) by {
                assert(exponent.skip(2)[m] == s[c + m]);
            }
        } else {
            assert forall|m: int| 0 <= m < exponent.skip(1).len() implies is_digit(
                #[trigger] exponent.skip(1)[m],
            ) by {
                assert(exponent.skip(1)[m] == s[c + m]);
            }
        }
        assert(is_exponent(exponent));
    } else {
        assert(exponent.len() == 0);
    }
    assert forall|m: int| 0 <= m < whole.len() implies is_digit(#[trigger] whole[m]) by {
        assert(whole[m] == s[m]);
    }
    assert forall|m: int| 0 <= m < fraction.len() implies is_digit(#[trigger] fraction[m]) by {
        assert(fraction[m] == s[a + 1 + m]);
    }
    assert(s.take(k) =~= number_text(whole, point, fraction, exponent));
    assert(put_together(s.take(k), whole, point, fraction, exponent));
    k
}

/// A text is an expression exactly where it is written, in ASCII form and without
/// the white space around it, with the tokens of one that is read as usual and has
/// more than one number.
pub proof fn expressions_are_written_in_full(input: Seq<char>, e: ExprView)
    ensures
        is_expression(input, e) <==> {
            &&& read_as_usual(e)
            &&& numbers_in(written(e)) >= 2
            &&& tokens_from(trimmed(normalized(input)), 0) == Some(written(e))
        },
{
    expressions_are_read_as_usual(e);
    computing_takes_two_numbers(e);
}

/// The tokens of an expression: its numbers as they are typed, its operators
/// between their operands, signs in front, parentheses around.
pub proof fn expressions_are_written_in_order(a: ExprView, b: ExprView, number: Seq<char>)
    ensures
        written(ExprView::Num(number)) == seq![TokenView::Num(number)],
        written(ExprView::Group(Box::new(a))) == seq![TokenView::Sym('(')] + written(a) + seq![
            TokenView::Sym(')'),
        ],
        written(ExprView::Sign(true, Box::new(a))) == seq![TokenView::Sym('-')] + written(a),
        written(ExprView::Sign(false, Box::new(a))) == seq![TokenView::Sym('+')] + written(a),
        written(ExprView::Binary(BinOp::Add, Box::new(a), Box::new(b))) == written(a) + seq![
            TokenView::Sym('+'),
        ] + written(b),
        written(ExprView::Binary(BinOp::Sub, Box::new(a), Box::new(b))) == written(a) + seq![
            TokenView::Sym('-'),
        ] + written(b),
        written(ExprView::Binary(BinOp::Mul, Box::new(a), Box::new(b))) == written(a) + seq![
            TokenView::Sym('*'),
        ] + written(b),
        written(ExprView::Binary(BinOp::Div, Box::new(a), Box::new(b))) == written(a) + seq![
            TokenView::Sym('/'),
        ] + written(b),
        written(ExprView::Binary(BinOp::Rem, Box::new(a), Box::new(b))) == written(a) + seq![
            TokenView::Sym('%'),
        ] + written(b),
        written(ExprView::Binary(BinOp::Pow, Box::new(a), Box::new(b))) == written(a) + seq![
            TokenView::Sym('^'),
        ] + written(b),
{
}

} // verus!
