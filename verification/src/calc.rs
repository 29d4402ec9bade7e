//! Arithmetic expressions typed into the launcher: four binary operators with
//! precedence, remainder, power, signs, parentheses and decimals.
//!
//! A query is an expression only as a whole. Numbers are handed on as they are
//! written; what they come to is for the caller to compute.

use vstd::prelude::*;

use crate::text::{chars_of, is_digit, string_of, trim, trimmed};

verus! {

/// A binary operator.
#[derive(Debug, Clone, Copy, PartialEq, Eq, Structural)]
pub enum BinOp {
    Add,
    Sub,
    Mul,
    Div,
    Rem,
    Pow,
}

/// An expression. `Group` is an expression in parentheses.
#[derive(Debug)]
pub enum Expr {
    Num(String),
    Group(Box<Expr>),
    Sign(bool, Box<Expr>),
    Binary(BinOp, Box<Expr>, Box<Expr>),
}

/// What an [`Expr`] is. A sign is a minus or, where false, a plus.
pub enum ExprView {
    Num(Seq<char>),
    Group(Box<ExprView>),
    Sign(bool, Box<ExprView>),
    Binary(BinOp, Box<ExprView>, Box<ExprView>),
}

/// What `e` is.
pub open spec fn expr_view(e: Expr) -> ExprView
    decreases e,
{
    match e {
        Expr::Num(s) => ExprView::Num(s@),
        Expr::Group(a) => ExprView::Group(Box::new(expr_view(*a))),
        Expr::Sign(minus, a) => ExprView::Sign(minus, Box::new(expr_view(*a))),
        Expr::Binary(op, a, b) => ExprView::Binary(
            op,
            Box::new(expr_view(*a)),
            Box::new(expr_view(*b)),
        ),
    }
}

impl View for Expr {
    type V = ExprView;

    open spec fn view(&self) -> ExprView {
        expr_view(*self)
    }
}

/// A token: a number, or one of the characters `+-*/%^()`.
#[derive(Debug)]
pub enum Token {
    Num(String),
    Sym(char),
}

/// What a [`Token`] is.
pub enum TokenView {
    Num(Seq<char>),
    Sym(char),
}

impl View for Token {
    type V = TokenView;

    open spec fn view(&self) -> TokenView {
        match *self {
            Token::Num(s) => TokenView::Num(s@),
            Token::Sym(c) => TokenView::Sym(c),
        }
    }
}

/// The views of a list of tokens.
pub open spec fn token_views(v: Seq<Token>) -> Seq<TokenView> {
    v.map_values(|t: Token| t@)
}

/// The character of an operator.
pub open spec fn op_char(op: BinOp) -> char {
    match op {
        BinOp::Add => '+',
        BinOp::Sub => '-',
        BinOp::Mul => '*',
        BinOp::Div => '/',
        BinOp::Rem => '%',
        BinOp::Pow => '^',
    }
}

/// The tokens that an expression is written with.
pub open spec fn written(e: ExprView) -> Seq<TokenView>
    decreases e,
{
    match e {
        ExprView::Num(s) => seq![TokenView::Num(s)],
        ExprView::Group(a) => seq![TokenView::Sym('(')] + written(*a) + seq![TokenView::Sym(')')],
        ExprView::Sign(minus, a) => seq![
            TokenView::Sym(
                if minus {
                    '-'
                } else {
                    '+'
                },
            ),
        ] + written(*a),
        ExprView::Binary(op, a, b) => written(*a) + seq![TokenView::Sym(op_char(op))] + written(*b),
    }
}

/// How tightly the parts of an expression bind, from sums down to atoms.
pub enum Level {
    Sum,
    Product,
    Factor,
    Power,
    Atom,
}

/// Whether `e` is an expression of the given level: sums and products group to
/// the left, powers to the right, signs bind less tightly than powers, and
/// whatever binds less tightly than it should stands in parentheses.
pub open spec fn grouped(e: ExprView, level: Level) -> bool
    decreases
            e,
            match level {
                Level::Sum => 4nat,
                Level::Product => 3,
                Level::Factor => 2,
                Level::Power => 1,
                Level::Atom => 0,
            },
{
    match level {
        Level::Sum => grouped(e, Level::Product) || match e {
            ExprView::Binary(op, a, b) => (op == BinOp::Add || op == BinOp::Sub) && grouped(
                *a,
                Level::Sum,
            ) && grouped(*b, Level::Product),
            _ => false,
        },
        Level::Product => grouped(e, Level::Factor) || match e {
            ExprView::Binary(op, a, b) => (op == BinOp::Mul || op == BinOp::Div || op == BinOp::Rem)
                && grouped(*a, Level::Product) && grouped(*b, Level::Factor),
            _ => false,
        },
        Level::Factor => grouped(e, Level::Power) || match e {
            ExprView::Sign(_, a) => grouped(*a, Level::Factor),
            _ => false,
        },
        Level::Power => grouped(e, Level::Atom) || match e {
            ExprView::Binary(op, a, b) => op == BinOp::Pow && grouped(*a, Level::Atom) && grouped(
                *b,
                Level::Factor,
            ),
            _ => false,
        },
        Level::Atom => match e {
            ExprView::Num(_) => true,
            ExprView::Group(a) => grouped(*a, Level::Sum),
            _ => false,
        },
    }
}

/// Whether the tokens begin with the given character.
pub open spec fn starts(ts: Seq<TokenView>, c: char) -> bool {
    ts.len() > 0 && ts[0] == TokenView::Sym(c)
}

/// The operator that the tokens begin with, of those of the given level.
pub open spec fn leading_op(ts: Seq<TokenView>, level: Level) -> Option<BinOp> {
    match level {
        Level::Sum => if starts(ts, '+') {
            Some(BinOp::Add)
        } else if starts(ts, '-') {
            Some(BinOp::Sub)
        } else {
            None
        },
        Level::Product => if starts(ts, '*') {
            Some(BinOp::Mul)
        } else if starts(ts, '/') {
            Some(BinOp::Div)
        } else if starts(ts, '%') {
            Some(BinOp::Rem)
        } else {
            None
        },
        Level::Power => if starts(ts, '^') {
            Some(BinOp::Pow)
        } else {
            None
        },
        _ => None,
    }
}

/// The longest expression of a level at the start of the tokens, and the tokens
/// behind it.
spec fn read(ts: Seq<TokenView>, level: Level) -> Option<(ExprView, Seq<TokenView>)>
    decreases
            ts.len(),
            match level {
                Level::Sum => 9nat,
                Level::Product => 7,
                Level::Factor => 5,
                Level::Power => 4,
                Level::Atom => 3,
            },
{
    match level {
        Level::Sum => match read(ts, Level::Product) {
            Some((e, rest)) => if rest.len() < ts.len() {
                read_on(e, rest, true)
            } else {
                None
            },
            None => None,
        },
        Level::Product => match read(ts, Level::Factor) {
            Some((e, rest)) => if rest.len() < ts.len() {
                read_on(e, rest, false)
            } else {
                None
            },
            None => None,
        },
        Level::Factor => if starts(ts, '+') || starts(ts, '-') {
            match read(ts.skip(1), Level::Factor) {
                Some((e, rest)) => Some((ExprView::Sign(starts(ts, '-'), Box::new(e)), rest)),
                None => None,
            }
        } else {
            read(ts, Level::Power)
        },
        Level::Power => match read(ts, Level::Atom) {
            Some((e, rest)) => if starts(rest, '^') {
                if rest.len() < ts.len() {
                    match read(rest.skip(1), Level::Factor) {
                        Some((f, rest)) => Some(
                            (ExprView::Binary(BinOp::Pow, Box::new(e), Box::new(f)), rest),
                        ),
                        None => None,
                    }
                } else {
                    None
                }
            } else {
                Some((e, rest))
            },
            None => None,
        },
        Level::Atom => if ts.len() == 0 {
            None
        } else {
            match ts[0] {
                TokenView::Num(s) => Some((ExprView::Num(s), ts.skip(1))),
                TokenView::Sym(c) => if c == '(' {
                    match read(ts.skip(1), Level::Sum) {
                        Some((e, rest)) => if starts(rest, ')') {
                            Some((ExprView::Group(Box::new(e)), rest.skip(1)))
                        } else {
                            None
                        },
                        None => None,
                    }
                } else {
                    None
                },
            }
        },
    }
}

/// What follows the left operand `e` of a sum or a product.
spec fn read_on(e: ExprView, ts: Seq<TokenView>, sum: bool) -> Option<(ExprView, Seq<TokenView>)>
    decreases ts.len(), 10nat,
{
    let level = if sum {
        Level::Sum
    } else {
        Level::Product
    };
    match leading_op(ts, level) {
        Some(op) => match read(
            ts.skip(1),
            if sum {
                Level::Product
            } else {
                Level::Factor
            },
        ) {
            Some((f, rest)) => if rest.len() < ts.len() {
                read_on(ExprView::Binary(op, Box::new(e), Box::new(f)), rest, sum)
            } else {
                None
            },
            None => None,
        },
        None => Some((e, ts)),
    }
}

spec fn depth(level: Level) -> nat {
    match level {
        Level::Sum => 9,
        Level::Product => 7,
        Level::Factor => 5,
        Level::Power => 4,
        Level::Atom => 3,
    }
}

spec fn chain_level(sum: bool) -> Level {
    if sum {
        Level::Sum
    } else {
        Level::Product
    }
}

/// What is read is grouped as it should be, and is written with the tokens that
/// were taken.
proof fn lemma_read_sound(ts: Seq<TokenView>, level: Level)
    ensures
        read(ts, level) matches Some((e, rest)) ==> grouped(e, level) && ts == written(e) + rest
            && rest.len() < ts.len(),
    decreases ts.len(), depth(level),
{
    match level {
        Level::Sum => {
            lemma_read_sound(ts, Level::Product);
            if let Some((e, rest)) = read(ts, Level::Product) {
                lemma_read_on_sound(e, rest, true);
            }
        },
        Level::Product => {
            lemma_read_sound(ts, Level::Factor);
            if let Some((e, rest)) = read(ts, Level::Factor) {
                lemma_read_on_sound(e, rest, false);
            }
        },
        Level::Factor => {
            if starts(ts, '+') || starts(ts, '-') {
                lemma_read_sound(ts.skip(1), Level::Factor);
                if let Some((e, rest)) = read(ts.skip(1), Level::Factor) {
                    let f = ExprView::Sign(starts(ts, '-'), Box::new(e));
                    assert(ts =~= seq![ts[0]] + (written(e) + rest));
                    assert(ts =~= written(f) + rest);
                }
            } else {
                lemma_read_sound(ts, Level::Power);
            }
        },
        Level::Power => {
            lemma_read_sound(ts, Level::Atom);
            if let Some((e, rest)) = read(ts, Level::Atom) {
                if starts(rest, '^') {
                    lemma_read_sound(rest.skip(1), Level::Factor);
                    if let Some((f, left)) = read(rest.skip(1), Level::Factor) {
                        let g = ExprView::Binary(BinOp::Pow, Box::new(e), Box::new(f));
                        assert(rest =~= seq![TokenView::Sym('^')] + rest.skip(1));
                        assert(ts =~= written(g) + left);
                    }
                }
            }
        },
        Level::Atom => {
            if ts.len() > 0 {
                match ts[0] {
                    TokenView::Num(s) => {
                        assert(ts =~= written(ExprView::Num(s)) + ts.skip(1));
                    },
                    TokenView::Sym(c) => {
                        if c == '(' {
                            lemma_read_sound(ts.skip(1), Level::Sum);
                            if let Some((e, rest)) = read(ts.skip(1), Level::Sum) {
                                if starts(rest, ')') {
                                    let g = ExprView::Group(Box::new(e));
                                    assert(rest =~= seq![TokenView::Sym(')')] + rest.skip(1));
                                    assert(ts =~= seq![ts[0]] + (written(e) + rest));
                                    assert(ts =~= written(g) + rest.skip(1));
                                }
                            }
                        }
                    },
                }
            }
        },
    }
}

proof fn lemma_read_on_sound(e: ExprView, ts: Seq<TokenView>, sum: bool)
    requires
        grouped(e, chain_level(sum)),
    ensures
        read_on(e, ts, sum) matches Some((f, rest)) ==> grouped(f, chain_level(sum)) && written(e)
            + ts == written(f) + rest && rest.len() <= ts.len(),
    decreases ts.len(), 10nat,
{
    let level = chain_level(sum);
    let next = if sum {
        Level::Product
    } else {
        Level::Factor
    };
    if let Some(op) = leading_op(ts, level) {
        lemma_read_sound(ts.skip(1), next);
        if let Some((f, rest)) = read(ts.skip(1), next) {
            let g = ExprView::Binary(op, Box::new(e), Box::new(f));
            assert(grouped(g, level));
            assert(ts =~= seq![TokenView::Sym(op_char(op))] + (written(f) + rest));
            assert(written(e) + ts =~= written(g) + rest);
            if rest.len() < ts.len() {
                lemma_read_on_sound(g, rest, sum);
            }
        }
    }
}

proof fn lemma_written_not_empty(e: ExprView)
    ensures
        written(e).len() > 0,
    decreases e,
{
}

proof fn lemma_atom_start(e: ExprView)
    requires
        grouped(e, Level::Power),
    ensures
        written(e).len() > 0,
        !starts(written(e), '+'),
        !starts(written(e), '-'),
    decreases e,
{
    reveal_with_fuel(grouped, 3);
    match e {
        ExprView::Binary(op, a, b) => {
            assert(grouped(*a, Level::Power));
            lemma_atom_start(*a);
            assert(written(e)[0] == written(*a)[0]);
        },
        _ => {},
    }
}

spec fn may_follow(rest: Seq<TokenView>, level: Level) -> bool {
    match level {
        Level::Sum => leading_op(rest, Level::Product) is None && !starts(rest, '^'),
        Level::Atom => true,
        _ => !starts(rest, '^'),
    }
}

spec fn read_back(e: ExprView, rest: Seq<TokenView>, level: Level) -> Option<
    (ExprView, Seq<TokenView>),
> {
    match level {
        Level::Sum => read_on(e, rest, true),
        Level::Product => read_on(e, rest, false),
        _ => Some((e, rest)),
    }
}

/// What is grouped as it should be is read back from the tokens it is written with.
proof fn lemma_read_complete(e: ExprView, rest: Seq<TokenView>, level: Level)
    requires
        grouped(e, level),
        may_follow(rest, level),
    ensures
        read(written(e) + rest, level) == read_back(e, rest, level),
    decreases e, depth(level),
{
    let ts = written(e) + rest;
    lemma_written_not_empty(e);
    match level {
        Level::Sum => {
            if grouped(e, Level::Product) {
                lemma_read_complete(e, rest, Level::Product);
            } else {
                match e {
                    ExprView::Binary(op, a, b) => {
                        let more = seq![TokenView::Sym(op_char(op))] + written(*b) + rest;
                        lemma_read_complete(*a, more, Level::Sum);
                        assert(written(*a) + more =~= ts);
                        assert(more.skip(1) =~= written(*b) + rest);
                        lemma_read_complete(*b, rest, Level::Product);
                        lemma_written_not_empty(*b);
                    },
                    _ => {},
                }
            }
        },
        Level::Product => {
            if grouped(e, Level::Factor) {
                lemma_read_complete(e, rest, Level::Factor);
            } else {
                match e {
                    ExprView::Binary(op, a, b) => {
                        let more = seq![TokenView::Sym(op_char(op))] + written(*b) + rest;
                        lemma_read_complete(*a, more, Level::Product);
                        assert(written(*a) + more =~= ts);
                        assert(more.skip(1) =~= written(*b) + rest);
                        lemma_read_complete(*b, rest, Level::Factor);
                        lemma_written_not_empty(*b);
                    },
                    _ => {},
                }
            }
        },
        Level::Factor => {
            if grouped(e, Level::Power) {
                lemma_read_complete(e, rest, Level::Power);
                lemma_atom_start(e);
                assert(ts[0] == written(e)[0]);
            } else {
                match e {
                    ExprView::Sign(minus, a) => {
                        lemma_read_complete(*a, rest, Level::Factor);
                        assert(ts.skip(1) =~= written(*a) + rest);
                    },
                    _ => {},
                }
            }
        },
        Level::Power => {
            if grouped(e, Level::Atom) {
                lemma_read_complete(e, rest, Level::Atom);
            } else {
                match e {
                    ExprView::Binary(op, a, b) => {
                        let more = seq![TokenView::Sym('^')] + written(*b) + rest;
                        lemma_read_complete(*a, more, Level::Atom);
                        assert(written(*a) + more =~= ts);
                        assert(more.skip(1) =~= written(*b) + rest);
                        lemma_read_complete(*b, rest, Level::Factor);
                        lemma_written_not_empty(*a);
                    },
                    _ => {},
                }
            }
        },
        Level::Atom => {
            match e {
                ExprView::Num(s) => {
                    assert(ts.skip(1) =~= rest);
                },
                ExprView::Group(a) => {
                    let more = seq![TokenView::Sym(')')] + rest;
                    lemma_read_complete(*a, more, Level::Sum);
                    assert(ts.skip(1) =~= written(*a) + more);
                    assert(more.skip(1) =~= rest);
                },
                _ => {},
            }
        },
    }
}

/// Tokens are written for at most one expression: precedence and grouping leave
/// no choice.
pub proof fn tokens_have_one_reading(a: ExprView, b: ExprView)
    requires
        grouped(a, Level::Sum),
        grouped(b, Level::Sum),
        written(a) == written(b),
    ensures
        a == b,
{
    let none = Seq::<TokenView>::empty();
    lemma_read_complete(a, none, Level::Sum);
    lemma_read_complete(b, none, Level::Sum);
    assert(written(a) + none =~= written(a));
    assert(written(b) + none =~= written(b));
}

/// Whether token `i` is the given character.
fn is_sym(tokens: &Vec<Token>, i: usize, c: char) -> (r: bool)
    requires
        i <= tokens.len(),
    ensures
        r == starts(token_views(tokens@).skip(i as int), c),
{
    if i < tokens.len() {
        match &tokens[i] {
            Token::Sym(d) => *d == c,
            Token::Num(_) => false,
        }
    } else {
        false
    }
}

/// What is read from token `i` on, as the reader returns it.
spec fn as_read(tokens: Seq<Token>, r: Option<(Expr, usize)>) -> Option<(ExprView, Seq<TokenView>)> {
    match r {
        Some((e, n)) => Some((e@, token_views(tokens).skip(n as int))),
        None => None,
    }
}

/// sum := product (('+' | '-') product)*
fn read_sum(tokens: &Vec<Token>, i: usize) -> (r: Option<(Expr, usize)>)
    requires
        i <= tokens.len(),
    ensures
        as_read(tokens@, r) == read(token_views(tokens@).skip(i as int), Level::Sum),
        r matches Some((_, n)) ==> i < n <= tokens.len(),
    decreases tokens.len() - i, 9nat,
{
    let ghost ts = token_views(tokens@);
    proof {
        lemma_read_sound(ts.skip(i as int), Level::Product);
        lemma_read_sound(ts.skip(i as int), Level::Sum);
    }
    let (mut e, mut n) = match read_product(tokens, i) {
        Some(r) => r,
        None => {
            return None;
        },
    };
    loop
        invariant
            i < n <= tokens.len(),
            ts == token_views(tokens@),
            read(ts.skip(i as int), Level::Sum) == read_on(e@, ts.skip(n as int), true),
        decreases tokens.len() - n,
    {
        let op = if is_sym(tokens, n, '+') {
            BinOp::Add
        } else if is_sym(tokens, n, '-') {
            BinOp::Sub
        } else {
            return Some((e, n));
        };
        assert(ts.skip(n as int).skip(1) =~= ts.skip(n + 1));
        proof {
            lemma_read_sound(ts.skip(n + 1), Level::Product);
        }
        match read_product(tokens, n + 1) {
            Some((f, m)) => {
                e = Expr::Binary(op, Box::new(e), Box::new(f));
                n = m;
            },
            None => {
                return None;
            },
        }
    }
}

/// product := factor (('*' | '/' | '%') factor)*
fn read_product(tokens: &Vec<Token>, i: usize) -> (r: Option<(Expr, usize)>)
    requires
        i <= tokens.len(),
    ensures
        as_read(tokens@, r) == read(token_views(tokens@).skip(i as int), Level::Product),
        r matches Some((_, n)) ==> i < n <= tokens.len(),
    decreases tokens.len() - i, 7nat,
{
    let ghost ts = token_views(tokens@);
    proof {
        lemma_read_sound(ts.skip(i as int), Level::Factor);
        lemma_read_sound(ts.skip(i as int), Level::Product);
    }
    let (mut e, mut n) = match read_factor(tokens, i) {
        Some(r) => r,
        None => {
            return None;
        },
    };
    loop
        invariant
            i < n <= tokens.len(),
            ts == token_views(tokens@),
            read(ts.skip(i as int), Level::Product) == read_on(e@, ts.skip(n as int), false),
        decreases tokens.len() - n,
    {
        let op = if is_sym(tokens, n, '*') {
            BinOp::Mul
        } else if is_sym(tokens, n, '/') {
            BinOp::Div
        } else if is_sym(tokens, n, '%') {
            BinOp::Rem
        } else {
            return Some((e, n));
        };
        assert(ts.skip(n as int).skip(1) =~= ts.skip(n + 1));
        proof {
            lemma_read_sound(ts.skip(n + 1), Level::Factor);
        }
        match read_factor(tokens, n + 1) {
            Some((f, m)) => {
                e = Expr::Binary(op, Box::new(e), Box::new(f));
                n = m;
            },
            None => {
                return None;
            },
        }
    }
}

/// factor := ('+' | '-') factor | power
fn read_factor(tokens: &Vec<Token>, i: usize) -> (r: Option<(Expr, usize)>)
    requires
        i <= tokens.len(),
    ensures
        as_read(tokens@, r) == read(token_views(tokens@).skip(i as int), Level::Factor),
        r matches Some((_, n)) ==> i < n <= tokens.len(),
    decreases tokens.len() - i, 5nat,
{
    let ghost ts = token_views(tokens@);
    let minus = is_sym(tokens, i, '-');
    if minus || is_sym(tokens, i, '+') {
        assert(ts.skip(i as int).skip(1) =~= ts.skip(i + 1));
        match read_factor(tokens, i + 1) {
            Some((e, n)) => Some((Expr::Sign(minus, Box::new(e)), n)),
            None => None,
        }
    } else {
        read_power(tokens, i)
    }
}

/// power := atom ('^' factor)?
fn read_power(tokens: &Vec<Token>, i: usize) -> (r: Option<(Expr, usize)>)
    requires
        i <= tokens.len(),
    ensures
        as_read(tokens@, r) == read(token_views(tokens@).skip(i as int), Level::Power),
        r matches Some((_, n)) ==> i < n <= tokens.len(),
    decreases tokens.len() - i, 4nat,
{
    let ghost ts = token_views(tokens@);
    match read_atom(tokens, i) {
        Some((e, n)) => {
            if is_sym(tokens, n, '^') {
                assert(ts.skip(n as int).skip(1) =~= ts.skip(n + 1));
                match read_factor(tokens, n + 1) {
                    Some((f, m)) => Some((Expr::Binary(BinOp::Pow, Box::new(e), Box::new(f)), m)),
                    None => None,
                }
            } else {
                Some((e, n))
            }
        },
        None => None,
    }
}

/// atom := number | '(' sum ')'
fn read_atom(tokens: &Vec<Token>, i: usize) -> (r: Option<(Expr, usize)>)
    requires
        i <= tokens.len(),
    ensures
        as_read(tokens@, r) == read(token_views(tokens@).skip(i as int), Level::Atom),
        r matches Some((_, n)) ==> i < n <= tokens.len(),
    decreases tokens.len() - i, 3nat,
{
    let ghost ts = token_views(tokens@);
    if i >= tokens.len() {
        return None;
    }
    assert(ts.skip(i as int).skip(1) =~= ts.skip(i + 1));
    assert(ts.skip(i as int)[0] == tokens@[i as int]@);
    match &tokens[i] {
        Token::Num(s) => Some((Expr::Num(s.clone()), i + 1)),
        Token::Sym(c) => {
            if *c == '(' {
                match read_sum(tokens, i + 1) {
                    Some((e, n)) => {
                        if is_sym(tokens, n, ')') {
                            assert(ts.skip(n as int).skip(1) =~= ts.skip(n + 1));
                            Some((Expr::Group(Box::new(e)), n + 1))
                        } else {
                            None
                        }
                    },
                    None => None,
                }
            } else {
                None
            }
        },
    }
}

/// The ASCII form of a mathematical symbol, bracket or digit typed with an
/// input method; any other character as it is.
pub open spec fn ascii_form(c: char) -> char {
    if c == '×' || c == '·' {
        '*'
    } else if c == '÷' {
        '/'
    } else if c == '−' || c == '–' || c == '—' {
        '-'
    } else if c == '（' {
        '('
    } else if c == '）' {
        ')'
    } else if '０' <= c && c <= '９' {
        (c as u32 - '０' as u32 + '0' as u32) as u8 as char
    } else {
        c
    }
}

/// The text with its symbols in ASCII form.
pub open spec fn normalized(s: Seq<char>) -> Seq<char> {
    s.map_values(|c: char| ascii_form(c))
}

/// The characters that separate tokens.
pub open spec fn is_gap(c: char) -> bool {
    c == ' ' || c == '\t' || c == '\n' || c == '\x0C' || c == '\r'
}

/// The characters that are tokens by themselves.
pub open spec fn is_symbol(c: char) -> bool {
    c == '+' || c == '-' || c == '*' || c == '/' || c == '%' || c == '^' || c == '(' || c == ')'
}

/// Where the digits that begin at `i` end.
pub open spec fn digits_end(s: Seq<char>, i: int) -> int
    decreases s.len() - i,
{
    if 0 <= i < s.len() && is_digit(s[i]) {
        digits_end(s, i + 1)
    } else {
        i
    }
}

/// Whether `s` has one of two characters at `i`.
pub open spec fn either_at(s: Seq<char>, i: int, a: char, b: char) -> bool {
    0 <= i < s.len() && (s[i] == a || s[i] == b)
}

/// Where the digits and the decimal point that begin at `i` end.
pub open spec fn mantissa_end(s: Seq<char>, i: int) -> int {
    let a = digits_end(s, i);
    if either_at(s, a, '.', '.') {
        digits_end(s, a + 1)
    } else {
        a
    }
}

/// Where the digits of the exponent begin, for a mantissa that ends at `b`.
pub open spec fn exponent_start(s: Seq<char>, b: int) -> int {
    if either_at(s, b + 1, '+', '-') {
        b + 2
    } else {
        b + 1
    }
}

/// Where the number that begins at `i` ends:
/// digits ['.' digits] [('e' | 'E') ['+' | '-'] digits].
pub open spec fn number_end(s: Seq<char>, i: int) -> int {
    let b = mantissa_end(s, i);
    if either_at(s, b, 'e', 'E') {
        digits_end(s, exponent_start(s, b))
    } else {
        b
    }
}

/// Whether the number that begins at `i` has a digit before or behind the
/// decimal point, and one in the exponent where there is an exponent.
pub open spec fn number_valid(s: Seq<char>, i: int) -> bool {
    let a = digits_end(s, i);
    let b = mantissa_end(s, i);
    &&& a > i || b > a + 1
    &&& either_at(s, b, 'e', 'E') ==> number_end(s, i) > exponent_start(s, b)
}

/// The tokens of `s` from `i` on, or `None` where something is not a token.
pub open spec fn tokens_from(s: Seq<char>, i: int) -> Option<Seq<TokenView>>
    decreases s.len() - i,
{
    if i < 0 || i >= s.len() {
        Some(Seq::empty())
    } else if is_gap(s[i]) {
        tokens_from(s, i + 1)
    } else if is_digit(s[i]) || s[i] == '.' {
        let n = number_end(s, i);
        if number_valid(s, i) && i < n <= s.len() {
            match tokens_from(s, n) {
                Some(ts) => Some(seq![TokenView::Num(s.subrange(i, n))] + ts),
                None => None,
            }
        } else {
            None
        }
    } else if is_symbol(s[i]) {
        match tokens_from(s, i + 1) {
            Some(ts) => Some(seq![TokenView::Sym(s[i])] + ts),
            None => None,
        }
    } else {
        None
    }
}

/// Whether an operator in `e` acts on two operands.
pub open spec fn has_operator(e: ExprView) -> bool
    decreases e,
{
    match e {
        ExprView::Num(_) => false,
        ExprView::Group(a) => has_operator(*a),
        ExprView::Sign(_, a) => has_operator(*a),
        ExprView::Binary(_, _, _) => true,
    }
}

/// Whether `input` is an expression, and which. A number by itself, signed, in
/// parentheses or with an exponent, is none: an operator has to act on two operands.
pub open spec fn is_expression(input: Seq<char>, e: ExprView) -> bool {
    let src = trimmed(normalized(input));
    &&& has_operator(e)
    &&& grouped(e, Level::Sum)
    &&& tokens_from(src, 0) == Some(written(e))
}

/// Where the digits that begin at `i` end.
fn skip_digits(v: &Vec<char>, i: usize) -> (r: usize)
    requires
        i <= v.len(),
    ensures
        r == digits_end(v@, i as int),
        i <= r <= v.len(),
{
    let mut n: usize = i;
    while n < v.len() && '0' <= v[n] && v[n] <= '9'
        invariant
            i <= n <= v.len(),
            digits_end(v@, i as int) == digits_end(v@, n as int),
        ensures
            i <= n <= v.len(),
            digits_end(v@, i as int) == n,
        decreases v.len() - n,
    {
        n += 1;
    }
    n
}

/// Where the number that begins at `i` ends, if it is valid.
fn scan_number(v: &Vec<char>, i: usize) -> (r: Option<usize>)
    requires
        i < v.len(),
    ensures
        match r {
            Some(n) => number_valid(v@, i as int) && n == number_end(v@, i as int) && i < n
                <= v.len(),
            None => !(number_valid(v@, i as int) && number_end(v@, i as int) > i),
        },
{
    let a: usize = skip_digits(v, i);
    let mut b: usize = a;
    if a < v.len() && v[a] == '.' {
        b = skip_digits(v, a + 1);
    }
    assert(b == mantissa_end(v@, i as int));
    if a == i && b <= a + 1 {
        return None;
    }
    let mut n: usize = b;
    if b < v.len() && (v[b] == 'e' || v[b] == 'E') {
        let mut c: usize = b + 1;
        if c < v.len() && (v[c] == '+' || v[c] == '-') {
            c += 1;
        }
        n = skip_digits(v, c);
        if n == c {
            return None;
        }
    }
    Some(n)
}

/// Whether `c` is a token by itself.
fn symbol(c: char) -> (r: bool)
    ensures
        r == is_symbol(c),
{
    c == '+' || c == '-' || c == '*' || c == '/' || c == '%' || c == '^' || c == '(' || c == ')'
}

/// The tokens of a text.
fn tokenize(v: &Vec<char>) -> (r: Option<Vec<Token>>)
    ensures
        match r {
            Some(ts) => tokens_from(v@, 0) == Some(token_views(ts@)),
            None => tokens_from(v@, 0) is None,
        },
{
    let mut ts: Vec<Token> = Vec::new();
    let mut i: usize = 0;
    proof {
        lemma_tokens_after(Seq::empty(), tokens_from(v@, 0));
        assert(token_views(ts@) =~= Seq::<TokenView>::empty());
    }
    while i < v.len()
        invariant
            i <= v.len(),
            tokens_from(v@, 0) == tokens_after(token_views(ts@), tokens_from(v@, i as int)),
        decreases v.len() - i,
    {
        let c = v[i];
        let ghost before = token_views(ts@);
        if c == ' ' || c == '\t' || c == '\n' || c == '\x0C' || c == '\r' {
            i += 1;
        } else if ('0' <= c && c <= '9') || c == '.' {
            match scan_number(v, i) {
                Some(n) => {
                    let text = string_of(v, i, n);
                    ts.push(Token::Num(text));
                    proof {
                        assert(token_views(ts@) =~= before.push(TokenView::Num(text@)));
                        lemma_tokens_push(before, TokenView::Num(text@), tokens_from(v@, n as int));
                    }
                    i = n;
                },
                None => {
                    return None;
                },
            }
        } else if symbol(c) {
            ts.push(Token::Sym(c));
            proof {
                assert(token_views(ts@) =~= before.push(TokenView::Sym(c)));
                lemma_tokens_push(before, TokenView::Sym(c), tokens_from(v@, i + 1));
            }
            i += 1;
        } else {
            return None;
        }
    }
    assert(token_views(ts@) + Seq::<TokenView>::empty() =~= token_views(ts@));
    Some(ts)
}

spec fn tokens_after(done: Seq<TokenView>, rest: Option<Seq<TokenView>>) -> Option<Seq<TokenView>> {
    match rest {
        Some(ts) => Some(done + ts),
        None => None,
    }
}

proof fn lemma_tokens_after(done: Seq<TokenView>, rest: Option<Seq<TokenView>>)
    requires
        done.len() == 0,
    ensures
        tokens_after(done, rest) == rest,
{
    if let Some(ts) = rest {
        assert(done + ts =~= ts);
    }
}

proof fn lemma_tokens_push(done: Seq<TokenView>, t: TokenView, rest: Option<Seq<TokenView>>)
    ensures
        tokens_after(done.push(t), rest) == tokens_after(
            done,
            match rest {
                Some(ts) => Some(seq![t] + ts),
                None => None,
            },
        ),
{
    if let Some(ts) = rest {
        assert(done.push(t) + ts =~= done + (seq![t] + ts));
    }
}

/// The text with its mathematical symbols, brackets and digits in ASCII form.
pub fn normalize(input: &str) -> (r: String)
    ensures
        r@ == normalized(input@),
{
    let v = chars_of(input);
    let mut r = String::new();
    let mut i: usize = 0;
    while i < v.len()
        invariant
            i <= v.len(),
            v@ == input@,
            r@ == normalized(input@.take(i as int)),
        decreases v.len() - i,
    {
        let c = v[i];
        let d = if c == '×' || c == '·' {
            '*'
        } else if c == '÷' {
            '/'
        } else if c == '−' || c == '–' || c == '—' {
            '-'
        } else if c == '（' {
            '('
        } else if c == '）' {
            ')'
        } else if '０' <= c && c <= '９' {
            (c as u32 - '０' as u32 + '0' as u32) as u8 as char
        } else {
            c
        };
        r.push(d);
        i += 1;
        assert(r@ =~= normalized(input@.take(i as int)));
    }
    assert(input@.take(input@.len() as int) =~= input@);
    r
}

/// Whether an operator in `e` acts on two operands.
fn has_binary_operator(e: &Expr) -> (r: bool)
    ensures
        r == has_operator(e@),
    decreases e,
{
    match e {
        Expr::Num(_) => false,
        Expr::Group(a) => has_binary_operator(a),
        Expr::Sign(_, a) => has_binary_operator(a),
        Expr::Binary(_, _, _) => true,
    }
}

/// The expression that the whole of `input` is, if it is one. An empty input, a
/// word, a number by itself, an incomplete expression and one with something
/// left over are none.
pub fn parse_expression(input: &str) -> (r: Option<Expr>)
    ensures
        match r {
            Some(e) => is_expression(input@, e@),
            None => forall|e: ExprView| !is_expression(input@, e),
        },
{
    let text = trim(normalize(input).as_str());
    let src = chars_of(text.as_str());
    let tokens = match tokenize(&src) {
        Some(tokens) => tokens,
        None => {
            return None;
        },
    };
    let ghost ts = token_views(tokens@);
    let ghost none = Seq::<TokenView>::empty();
    proof {
        assert(ts.skip(0) =~= ts);
        lemma_read_sound(ts, Level::Sum);
        assert forall|e: ExprView| is_expression(input@, e) implies read(ts, Level::Sum) == Some(
            (e, none),
        ) by {
            lemma_read_complete(e, none, Level::Sum);
            assert(written(e) + none =~= written(e));
        }
    }
    match read_sum(&tokens, 0) {
        Some((e, n)) => {
            if n == tokens.len() {
                proof {
                    assert(ts.skip(n as int) =~= none);
                    assert(written(e@) + none =~= written(e@));
                }
                if has_binary_operator(&e) {
                    Some(e)
                } else {
                    None
                }
            } else {
                assert(ts.skip(n as int).len() > 0);
                None
            }
        },
        None => None,
    }
}

/// `s` without its trailing zeros.
pub open spec fn without_zeros(s: Seq<char>) -> Seq<char>
    decreases s.len(),
{
    if s.len() > 0 && s.last() == '0' {
        without_zeros(s.drop_last())
    } else {
        s
    }
}

/// A decimal without its trailing zeros, and without the decimal point where
/// nothing follows it; `0` where nothing is left.
pub open spec fn tidied(s: Seq<char>) -> Seq<char> {
    let t = without_zeros(s);
    let u = if t.len() > 0 && t.last() == '.' {
        t.drop_last()
    } else {
        t
    };
    if u.len() == 0 || u == seq!['-'] {
        seq!['0']
    } else {
        u
    }
}

/// A decimal without its trailing zeros, and without the decimal point where
/// nothing follows it.
pub fn tidy_decimal(text: &str) -> (r: String)
    ensures
        r@ == tidied(text@),
{
    let v = chars_of(text);
    let mut n: usize = v.len();
    assert(v@.take(n as int) =~= v@);
    while n > 0 && v[n - 1] == '0'
        invariant
            n <= v.len(),
            without_zeros(v@) == without_zeros(v@.take(n as int)),
        ensures
            n <= v.len(),
            without_zeros(v@) == v@.take(n as int),
        decreases n,
    {
        assert(v@.take(n as int).drop_last() =~= v@.take(n - 1));
        n -= 1;
    }
    let ghost t = v@.take(n as int);
    if n > 0 && v[n - 1] == '.' {
        assert(t.drop_last() =~= v@.take(n - 1));
        n -= 1;
    }
    let ghost u = v@.take(n as int);
    if n == 0 || (n == 1 && v[0] == '-') {
        let mut r = String::new();
        r.push('0');
        proof {
            assert(r@ =~= seq!['0']);
            if n == 1 {
                assert(u =~= seq!['-']);
            }
        }
        return r;
    }
    let r = string_of(&v, 0, n);
    assert(r@ =~= u);
    assert(u != seq!['-']) by {
        if u == seq!['-'] {
            assert(u[0] == '-');
        }
    }
    r
}

/// What is in ASCII form stays as it is.
pub proof fn normalizing_again_changes_nothing(s: Seq<char>)
    ensures
        normalized(normalized(s)) == normalized(s),
{
    assert forall|i: int| 0 <= i < s.len() implies ascii_form(ascii_form(#[trigger] s[i]))
        == ascii_form(s[i]) by {}
    assert(normalized(normalized(s)) =~= normalized(s));
}

} // verus!
