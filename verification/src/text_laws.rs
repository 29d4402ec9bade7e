//! What holds of trimming, splitting, finding and numbers in text.

use vstd::prelude::*;

use crate::text::{
    all_digits, blank, decimal, decimal_writes_the_number, digit_value, find_from, has_prefix,
    is_digit, is_white, number, padded, pieces, trim_end, trim_start, trimmed,
    trimmed_is_empty_iff_blank,
};

verus! {

/// White space is the characters that Unicode gives that property.
#[verifier::rlimit(40)]
pub proof fn white_space_is_that_of_unicode(c: char)
    ensures
        is_white(c) <==> seq![
            0x09u32,
            0x0A,
            0x0B,
            0x0C,
            0x0D,
            0x20,
            0x85,
            0xA0,
            0x1680,
            0x2000,
            0x2001,
            0x2002,
            0x2003,
            0x2004,
            0x2005,
            0x2006,
            0x2007,
            0x2008,
            0x2009,
            0x200A,
            0x2028,
            0x2029,
            0x202F,
            0x205F,
            0x3000,
        ].contains(c as u32),
        blank(seq![c]) <==> is_white(c),
{
    let all = seq![
        0x09u32,
        0x0A,
        0x0B,
        0x0C,
        0x0D,
        0x20,
        0x85,
        0xA0,
        0x1680,
        0x2000,
        0x2001,
        0x2002,
        0x2003,
        0x2004,
        0x2005,
        0x2006,
        0x2007,
        0x2008,
        0x2009,
        0x200A,
        0x2028,
        0x2029,
        0x202F,
        0x205F,
        0x3000,
    ];
    let n = c as u32;
    if is_white(c) {
        let i: int = if n <= 0x0D {
            n - 0x09
        } else if n == 0x20 {
            5
        } else if n == 0x85 {
            6
        } else if n == 0xA0 {
            7
        } else if n == 0x1680 {
            8
        } else if n <= 0x200A {
            n - 0x2000 + 9
        } else if n == 0x2028 {
            20
        } else if n == 0x2029 {
            21
        } else if n == 0x202F {
            22
        } else if n == 0x205F {
            23
        } else {
            24
        };
        assert(all[i] == n);
    }
    if blank(seq![c]) {
        assert(is_white(seq![c][0]));
    }
}

/// Whether `t` is `s` without white space at its ends: what is left out at either
/// end is white, and what is left begins and ends with something else.
pub open spec fn cut_out(s: Seq<char>, t: Seq<char>, from: int) -> bool {
    &&& 0 <= from
    &&& from + t.len() <= s.len()
    &&& t == s.subrange(from, from + t.len())
    &&& forall|i: int| 0 <= i < from ==> is_white(#[trigger] s[i])
    &&& forall|i: int| from + t.len() <= i < s.len() ==> is_white(#[trigger] s[i])
    &&& t.len() > 0 ==> !is_white(t[0]) && !is_white(t[t.len() - 1])
}

proof fn lemma_start(s: Seq<char>)
    ensures
        trim_start(s).len() <= s.len(),
        trim_start(s) == s.skip(s.len() - trim_start(s).len()),
        trim_start(s).len() > 0 ==> !is_white(trim_start(s)[0]),
        forall|i: int| 0 <= i < s.len() - trim_start(s).len() ==> is_white(#[trigger] s[i]),
    decreases s.len(),
{
    if s.len() > 0 && is_white(s[0]) {
        let d = s.drop_first();
        lemma_start(d);
        assert(trim_start(s) =~= s.skip(s.len() - trim_start(s).len()));
        assert forall|i: int| 0 <= i < s.len() - trim_start(s).len() implies is_white(
            #[trigger] s[i],
        ) by {
            if i > 0 {
                assert(d[i - 1] == s[i]);
            }
        }
    } else {
        assert(s.skip(0) =~= s);
    }
}

proof fn lemma_end(s: Seq<char>)
    ensures
        trim_end(s).len() <= s.len(),
        trim_end(s) == s.take(trim_end(s).len() as int),
        trim_end(s).len() > 0 ==> !is_white(trim_end(s).last()),
        forall|i: int| trim_end(s).len() <= i < s.len() ==> is_white(#[trigger] s[i]),
    decreases s.len(),
{
    if s.len() > 0 && is_white(s.last()) {
        let d = s.drop_last();
        lemma_end(d);
        assert(trim_end(s) =~= s.take(trim_end(s).len() as int));
        assert forall|i: int| trim_end(s).len() <= i < s.len() implies is_white(#[trigger] s[i]) by {
            if i < d.len() {
                assert(d[i] == s[i]);
            }
        }
    } else {
        assert(s.take(s.len() as int) =~= s);
    }
}

/// Trimming takes the white space off both ends and leaves the rest as it is, and
/// only a text that is all white is trimmed to nothing.
pub proof fn trimming_cuts_the_white_ends(s: Seq<char>) -> (from: int)
    ensures
        cut_out(s, trimmed(s), from),
        trimmed(s).len() == 0 <==> forall|i: int| 0 <= i < s.len() ==> is_white(#[trigger] s[i]),
{
    lemma_start(s);
    let a = trim_start(s);
    lemma_end(a);
    trimmed_is_empty_iff_blank(s);
    let t = trimmed(s);
    let from = s.len() - a.len();
    assert(t =~= s.subrange(from, from + t.len()));
    assert forall|i: int| from + t.len() <= i < s.len() implies is_white(#[trigger] s[i]) by {
        assert(a[i - from] == s[i]);
    }
    if t.len() > 0 {
        assert(t[0] == a[0]);
    }
    from
}

/// There is only one way to cut the white space off.
pub proof fn trimming_is_the_only_cut(s: Seq<char>, t: Seq<char>, from: int)
    requires
        cut_out(s, t, from),
    ensures
        trimmed(s) == t,
{
    let at = trimming_cuts_the_white_ends(s);
    let u = trimmed(s);
    if t.len() > 0 {
        assert(t[0] == s[from] && t[t.len() - 1] == s[from + t.len() - 1]);
        assert(u.len() > 0);
        assert(u[0] == s[at] && u[u.len() - 1] == s[at + u.len() - 1]);
        if at < from {
            assert(is_white(s[at]));
        }
        if from < at {
            assert(is_white(s[from]));
        }
        if at + u.len() < from + t.len() {
            assert(is_white(s[from + t.len() - 1]));
        }
        if from + t.len() < at + u.len() {
            assert(is_white(s[at + u.len() - 1]));
        }
        assert(t =~= u);
    } else {
        if u.len() > 0 {
            assert(u[0] == s[at]);
            if at < from {
                assert(is_white(s[at]));
            } else {
                assert(is_white(s[at]));
            }
        }
        assert(t =~= u);
    }
}

/// A text begins with another exactly where it is that and some rest.
pub proof fn prefixes_leave_a_rest(s: Seq<char>, p: Seq<char>)
    ensures
        has_prefix(s, p) ==> s == p + s.skip(p.len() as int),
        forall|rest: Seq<char>| s == #[trigger] (p + rest) ==> has_prefix(s, p),
{
    if has_prefix(s, p) {
        assert(s =~= p + s.skip(p.len() as int));
    }
    assert forall|rest: Seq<char>| s == #[trigger] (p + rest) implies has_prefix(s, p) by {
        assert(s.take(p.len() as int) =~= p);
    }
}

/// A number is read digit by digit: each further digit makes it ten times as large
/// and adds its own value.
pub proof fn numbers_are_read_by_place(s: Seq<char>, c: char)
    requires
        '0' <= c && c <= '9',
    ensures
        number(Seq::empty()) == 0,
        number(s.push(c)) == 10 * number(s) + (c as u32 - 48),
        all_digits(s.push(c)) == all_digits(s),
        is_digit(c),
{
    assert(s.push(c).drop_last() =~= s);
    if all_digits(s) {
        assert forall|i: int| 0 <= i < s.push(c).len() implies is_digit(#[trigger] s.push(c)[i]) by {
            if i < s.len() {
                assert(s.push(c)[i] == s[i]);
            }
        }
    }
    if all_digits(s.push(c)) {
        assert forall|i: int| 0 <= i < s.len() implies is_digit(#[trigger] s[i]) by {
            assert(s.push(c)[i] == s[i]);
        }
    }
}

/// Only the ten ASCII digits are digits.
pub proof fn digits_are_ascii(s: Seq<char>, i: int)
    requires
        all_digits(s),
        0 <= i < s.len(),
    ensures
        '0' <= s[i] && s[i] <= '9',
        0 <= digit_value(s[i]) <= 9,
{
    assert(is_digit(s[i]));
}

/// A number is written without leading zeros, its last digit being what is left
/// over by tens.
pub proof fn decimals_have_no_leading_zeros(n: nat)
    ensures
        decimal(n).len() >= 1,
        all_digits(decimal(n)),
        number(decimal(n)) == n,
        n > 0 ==> decimal(n)[0] != '0',
        decimal(n).last() as u32 == 48 + n % 10,
        n >= 10 ==> decimal(n).drop_last() == decimal(n / 10),
        n < 10 ==> decimal(n).len() == 1,
    decreases n,
{
    decimal_writes_the_number(n);
    if n >= 10 {
        decimals_have_no_leading_zeros(n / 10);
        assert(decimal(n).drop_last() =~= decimal(n / 10));
        assert(decimal(n)[0] == decimal(n / 10)[0]);
    }
}

/// A number is padded with zeros at the front, up to the width and no further.
pub proof fn padding_adds_zeros_in_front(n: nat, width: nat)
    ensures
        ({
            let d = decimal(n);
            let p = padded(n, width);
            &&& p.len() == if d.len() < width {
                width
            } else {
                d.len()
            }
            &&& p.skip(p.len() - d.len()) == d
            &&& forall|i: int| 0 <= i < p.len() - d.len() ==> #[trigger] p[i] == '0'
        }),
{
    let d = decimal(n);
    let p = padded(n, width);
    assert(p.skip(p.len() - d.len()) =~= d);
}

/// The pieces with the separator between them.
pub open spec fn rejoined(parts: Seq<Seq<char>>, sep: char) -> Seq<char>
    decreases parts.len(),
{
    if parts.len() == 0 {
        Seq::empty()
    } else if parts.len() == 1 {
        parts[0]
    } else {
        rejoined(parts.drop_last(), sep) + seq![sep] + parts.last()
    }
}

/// Splitting loses nothing: the pieces, joined by the separator, are the text, and
/// no piece holds the separator.
#[verifier::rlimit(40)]
pub proof fn pieces_join_to_the_text(s: Seq<char>, sep: char)
    ensures
        pieces(s, sep).len() >= 1,
        rejoined(pieces(s, sep), sep) == s,
        forall|i: int|
            0 <= i < pieces(s, sep).len() ==> !(#[trigger] pieces(s, sep)[i]).contains(sep),
    decreases s.len(),
{
    let p = pieces(s, sep);
    if s.len() == 0 {
        assert(rejoined(p, sep) =~= s);
    } else {
        let fewer = s.drop_last();
        let c = s.last();
        let q = pieces(fewer, sep);
        pieces_join_to_the_text(fewer, sep);
        assert(fewer.push(c) =~= s);
        if c == sep {
            assert(p.drop_last() =~= q);
            assert(rejoined(p, sep) =~= fewer + seq![sep] + Seq::<char>::empty());
            assert(rejoined(p, sep) =~= s);
        } else {
            assert(p.drop_last() =~= q.drop_last());
            assert(p.last() == q.last().push(c));
            assert(!q[q.len() - 1].contains(sep));
            if q.len() == 1 {
                assert(rejoined(p, sep) =~= q[0].push(c));
            } else {
                assert(rejoined(p, sep) =~= rejoined(q.drop_last(), sep) + seq![sep]
                    + q.last().push(c));
                assert(rejoined(p, sep) =~= (rejoined(q.drop_last(), sep) + seq![sep]
                    + q.last()).push(c));
            }
            assert forall|i: int| 0 <= i < p.len() implies !(#[trigger] p[i]).contains(sep) by {
                if i < p.len() - 1 {
                    assert(p[i] == q[i]);
                } else {
                    let last = q.last().push(c);
                    assert forall|k: int| 0 <= k < last.len() implies last[k] != sep by {
                        if k < q.last().len() {
                            assert(q.last()[k] != sep) by {
                                if q.last()[k] == sep {
                                    assert(q[q.len() - 1].contains(sep));
                                }
                            }
                        }
                    }
                }
            }
        }
    }
}

/// Whether `pat` stands in `s` at the place `i`.
pub open spec fn stands_at(s: Seq<char>, pat: Seq<char>, i: int) -> bool {
    0 <= i && i + pat.len() <= s.len() && s.subrange(i, i + pat.len()) == pat
}

/// A text is found at the first place where it stands, and nowhere only where it
/// does not stand anywhere.
pub proof fn texts_are_found_where_they_first_stand(s: Seq<char>, pat: Seq<char>, i: int)
    requires
        0 <= i,
    ensures
        match find_from(s, pat, i) {
            Some(k) => {
                &&& i <= k && stands_at(s, pat, k)
                &&& forall|j: int| i <= j < k ==> !#[trigger] stands_at(s, pat, j)
            },
            None => forall|j: int| i <= j ==> !#[trigger] stands_at(s, pat, j),
        },
    decreases s.len() + 1 - i,
{
    if i + pat.len() <= s.len() && s.subrange(i, i + pat.len()) != pat {
        texts_are_found_where_they_first_stand(s, pat, i + 1);
    }
}

} // verus!
