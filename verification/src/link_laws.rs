//! Which queries are addresses, and what is opened for them.

use vstd::prelude::*;

use crate::link::{domain, host_port, ipv4, last_place, openable, valid_host, valid_port, web_scheme};
use crate::search::ascii_lowercase;
use crate::text::{all_digits, find_from, is_digit, is_white, number, pieces, trimmed};
use crate::text_laws::{
    cut_out, stands_at, texts_are_found_where_they_first_stand, trimming_is_the_only_cut,
};

verus! {

/// Whether a text holds no white space.
pub open spec fn no_white(s: Seq<char>) -> bool {
    forall|i: int| 0 <= i < s.len() ==> !is_white(#[trigger] s[i])
}

/// Whether a scheme is one that the browser opens, whatever its case.
pub open spec fn is_browser_scheme(scheme: Seq<char>) -> bool {
    same_letters(scheme, "http"@) || same_letters(scheme, "https"@) || same_letters(
        scheme,
        "ftp"@,
    ) || same_letters(scheme, "ftps"@)
}

/// Whether `s` is `lower` but for the case of its letters.
pub open spec fn same_letters(s: Seq<char>, lower: Seq<char>) -> bool {
    &&& s.len() == lower.len()
    &&& forall|i: int|
        0 <= i < s.len() ==> (#[trigger] lower[i]) as u32 == s[i] as u32 + if 'A' <= s[i] && s[i]
            <= 'Z' {
            32int
        } else {
            0
        }
}

proof fn lemma_same_char(a: char, b: char)
    requires
        a as u32 == b as u32,
    ensures
        a == b,
{
}

proof fn lemma_letters(s: Seq<char>, lower: Seq<char>)
    ensures
        same_letters(s, lower) <==> ascii_lowercase(s) == lower,
{
    let t = ascii_lowercase(s);
    if same_letters(s, lower) {
        assert forall|i: int| 0 <= i < s.len() implies t[i] == lower[i] by {
            lemma_same_char(t[i], lower[i]);
        }
        assert(t =~= lower);
    }
    if t == lower {
        assert forall|i: int| 0 <= i < s.len() implies (#[trigger] lower[i]) as u32 == s[i] as u32
            + if 'A' <= s[i] && s[i] <= 'Z' {
            32int
        } else {
            0
        } by {
            assert(t[i] == lower[i]);
        }
    }
}

proof fn lemma_scheme(scheme: Seq<char>)
    ensures
        web_scheme(scheme) <==> is_browser_scheme(scheme),
{
    lemma_letters(scheme, "http"@);
    lemma_letters(scheme, "https"@);
    lemma_letters(scheme, "ftp"@);
    lemma_letters(scheme, "ftps"@);
}

proof fn lemma_query(query: Seq<char>, address: Seq<char>, from: int)
    requires
        cut_out(query, address, from),
        no_white(address),
    ensures
        trimmed(query) == address,
{
    trimming_is_the_only_cut(query, address, from);
}

/// An address with a scheme is opened as it is typed, without the white space around it,
/// where the browser opens its scheme and something follows; with another scheme it is
/// not offered.
pub proof fn addresses_with_a_scheme_are_opened_as_typed(
    query: Seq<char>,
    from: int,
    scheme: Seq<char>,
    rest: Seq<char>,
)
    requires
        cut_out(query, scheme + "://"@ + rest, from),
        no_white(scheme),
        no_white(rest),
        forall|i: int| 0 <= i < scheme.len() ==> #[trigger] scheme[i] != ':',
    ensures
        openable(query) == (if is_browser_scheme(scheme) && rest.len() > 0 {
            Some(scheme + "://"@ + rest)
        } else {
            None
        }),
{
    let t = scheme + "://"@ + rest;
    let n = scheme.len() as int;
    reveal_strlit("://");
    let m = "://"@;
    assert(m.len() == 3 && m[0] == ':' && m[1] == '/' && m[2] == '/');
    assert forall|i: int| 0 <= i < t.len() implies !is_white(#[trigger] t[i]) by {
        if i < n {
            assert(t[i] == scheme[i]);
        } else if i >= n + 3 {
            assert(t[i] == rest[i - n - 3]);
        } else {
            assert(t[i] == m[i - n]);
        }
    }
    lemma_query(query, t, from);
    assert(t.subrange(n, n + 3) =~= m);
    assert(stands_at(t, m, n));
    texts_are_found_where_they_first_stand(t, m, 0);
    let k = find_from(t, m, 0)->0;
    if k < n {
        assert(t.subrange(k, k + 3)[0] == scheme[k]);
    }
    assert(k == n);
    assert(t.take(n) =~= scheme);
    lemma_scheme(scheme);
}

/// Whether a text is a number of a port.
pub open spec fn is_port(s: Seq<char>) -> bool {
    s.len() > 0 && all_digits(s) && number(s) <= 65535
}

proof fn lemma_last_place(s: Seq<char>, c: char, n: int)
    requires
        0 <= n <= s.len(),
    ensures
        match last_place(s, c, n) {
            Some(i) => 0 <= i < n && s[i] == c && forall|j: int|
                i < j < n ==> #[trigger] s[j] != c,
            None => forall|j: int| 0 <= j < n ==> #[trigger] s[j] != c,
        },
    decreases n,
{
    if n > 0 && s[n - 1] != c {
        lemma_last_place(s, c, n - 1);
    }
}

proof fn lemma_no_scheme(t: Seq<char>)
    requires
        (forall|i: int| 0 <= i < t.len() ==> #[trigger] t[i] != '/') || (forall|i: int|
            0 <= i < t.len() ==> #[trigger] t[i] != ':'),
    ensures
        find_from(t, "://"@, 0) is None,
{
    reveal_strlit("://");
    let m = "://"@;
    assert(m.len() == 3 && m[0] == ':' && m[1] == '/');
    texts_are_found_where_they_first_stand(t, m, 0);
    if let Some(k) = find_from(t, m, 0) {
        assert(t.subrange(k, k + 3)[0] == t[k]);
        assert(t.subrange(k, k + 3)[1] == t[k + 1]);
    }
}

/// A host by itself is opened over https; what is no host is not offered.
pub proof fn hosts_are_opened_over_https(query: Seq<char>, from: int, host: Seq<char>)
    requires
        cut_out(query, host, from),
        host.len() > 0,
        no_white(host),
        forall|i: int| 0 <= i < host.len() ==> #[trigger] host[i] != ':',
    ensures
        openable(query) == (if valid_host(host) {
            Some("https://"@ + host)
        } else {
            None
        }),
{
    lemma_query(query, host, from);
    lemma_no_scheme(host);
    lemma_last_place(host, ':', host.len() as int);
    assert(host_port(host) == (host, false));
}

/// A host with a port is opened as it is typed.
pub proof fn hosts_with_a_port_are_opened_as_typed(
    query: Seq<char>,
    from: int,
    host: Seq<char>,
    port: Seq<char>,
)
    requires
        cut_out(query, host + seq![':'] + port, from),
        no_white(host),
        is_port(port),
        forall|i: int| 0 <= i < host.len() ==> #[trigger] host[i] != '/',
    ensures
        openable(query) == (if valid_host(host) {
            Some(host + seq![':'] + port)
        } else {
            None
        }),
{
    let t = host + seq![':'] + port;
    let n = host.len() as int;
    assert forall|i: int| 0 <= i < t.len() implies !is_white(#[trigger] t[i]) && t[i] != '/' by {
        if i < n {
            assert(t[i] == host[i]);
        } else if i > n {
            assert(t[i] == port[i - n - 1]);
            assert(is_digit(port[i - n - 1]));
        }
    }
    lemma_query(query, t, from);
    lemma_no_scheme(t);
    lemma_last_place(t, ':', t.len() as int);
    let k = last_place(t, ':', t.len() as int)->0;
    assert(t[n] == ':');
    if k > n {
        assert(t[k] == port[k - n - 1]);
        assert(is_digit(port[k - n - 1]));
    }
    assert(k == n);
    assert(t.skip(n + 1) =~= port);
    assert(t.take(n) =~= host);
    assert(is_digit(port[0]));
    assert(valid_port(port));
}

/// A query with white space in it, or with nothing else, is no address.
pub proof fn queries_with_spaces_are_no_addresses(query: Seq<char>, from: int, text: Seq<char>)
    requires
        cut_out(query, text, from),
        text.len() == 0 || !no_white(text),
    ensures
        openable(query) is None,
{
    trimming_is_the_only_cut(query, text, from);
    if text.len() > 0 {
        let i = choose|i: int| 0 <= i < text.len() && is_white(#[trigger] text[i]);
        assert(is_white(text[i]));
    }
}

/// Whether a text is a label of a domain: up to 63 letters, digits and hyphens, without
/// a hyphen at its ends.
pub open spec fn is_domain_label(s: Seq<char>) -> bool {
    &&& 1 <= s.len() <= 63
    &&& s[0] != '-' && s[s.len() - 1] != '-'
    &&& forall|i: int|
        0 <= i < s.len() ==> {
            ||| ('a' <= #[trigger] s[i] && s[i] <= 'z')
            ||| ('A' <= s[i] && s[i] <= 'Z')
            ||| ('0' <= s[i] && s[i] <= '9')
            ||| s[i] == '-'
        }
}

/// A host is four numbers up to 255 with dots between them, or `localhost` in any case,
/// or a domain: at least two labels with dots between them, not all of them numbers.
#[verifier::rlimit(40)]
pub proof fn hosts_are_numbers_or_names(host: Seq<char>)
    ensures
        valid_host(host) <==> {
            let parts = pieces(host, '.');
            ||| parts.len() == 4 && forall|i: int|
                0 <= i < 4 ==> (#[trigger] parts[i]).len() > 0 && all_digits(parts[i]) && number(
                    parts[i],
                ) <= 255
            ||| same_letters(host, "localhost"@)
            ||| parts.len() >= 2 && (forall|i: int|
                0 <= i < parts.len() ==> is_domain_label(#[trigger] parts[i])) && exists|i: int|
                0 <= i < parts.len() && !all_digits(#[trigger] parts[i])
        },
{
    lemma_letters(host, "localhost"@);
    let parts = pieces(host, '.');
    assert forall|i: int| 0 <= i < parts.len() implies crate::link::is_label(#[trigger] parts[i])
        == is_domain_label(parts[i]) by {
        let s = parts[i];
        if is_domain_label(s) {
            assert forall|k: int| 0 <= k < s.len() implies crate::link::is_label_char(
                #[trigger] s[k],
            ) by {}
        }
        if crate::link::is_label(s) {
            assert forall|k: int| 0 <= k < s.len() implies {
                ||| ('a' <= #[trigger] s[k] && s[k] <= 'z')
                ||| ('A' <= s[k] && s[k] <= 'Z')
                ||| ('0' <= s[k] && s[k] <= '9')
                ||| s[k] == '-'
            } by {
                assert(crate::link::is_label_char(s[k]));
            }
        }
    }
    if ipv4(host) {
        assert forall|i: int| 0 <= i < 4 implies (#[trigger] parts[i]).len() > 0 && all_digits(
            parts[i],
        ) && number(parts[i]) <= 255 by {
            assert(crate::link::is_octet(parts[i]));
        }
    }
    if parts.len() == 4 && (forall|i: int|
        0 <= i < 4 ==> (#[trigger] parts[i]).len() > 0 && all_digits(parts[i]) && number(parts[i])
            <= 255) {
        assert forall|i: int| 0 <= i < parts.len() implies crate::link::is_octet(
            #[trigger] parts[i],
        ) by {}
        assert(ipv4(host));
    }
    if domain(host) {
        assert forall|i: int| 0 <= i < parts.len() implies is_domain_label(#[trigger] parts[i]) by {
            assert(crate::link::is_label(parts[i]));
        }
    }
}

proof fn lemma_in_a_piece(s: Seq<char>, sep: char, c: char)
    requires
        s.contains(c),
        c != sep,
    ensures
        exists|k: int| 0 <= k < pieces(s, sep).len() && (#[trigger] pieces(s, sep)[k]).contains(c),
    decreases s.len(),
{
    let fewer = s.drop_last();
    let p0 = pieces(fewer, sep);
    let p = pieces(s, sep);
    crate::text_laws::pieces_join_to_the_text(fewer, sep);
    let i = choose|i: int| 0 <= i < s.len() && s[i] == c;
    if i < fewer.len() {
        assert(fewer[i] == c);
        lemma_in_a_piece(fewer, sep, c);
        let k = choose|k: int| 0 <= k < p0.len() && (#[trigger] p0[k]).contains(c);
        if s.last() == sep || k < p0.len() - 1 {
            assert(p[k] == p0[k]);
        } else {
            let m = choose|m: int| 0 <= m < p0[k].len() && p0[k][m] == c;
            assert(p[k][m] == c);
        }
    } else {
        let last = p.last();
        assert(last[last.len() - 1] == c);
        assert(p[p.len() - 1].contains(c));
    }
}

proof fn lemma_no_host(t: Seq<char>)
    requires
        t.contains(':'),
    ensures
        !valid_host(t),
{
    lemma_in_a_piece(t, '.', ':');
    let parts = pieces(t, '.');
    let k = choose|k: int| 0 <= k < parts.len() && (#[trigger] parts[k]).contains(':');
    let m = choose|m: int| 0 <= m < parts[k].len() && parts[k][m] == ':';
    if ipv4(t) {
        assert(crate::link::is_octet(parts[k]));
        assert(is_digit(parts[k][m]));
    }
    if domain(t) {
        assert(crate::link::is_label(parts[k]));
        assert(crate::link::is_label_char(parts[k][m]));
    }
    let i = choose|i: int| 0 <= i < t.len() && t[i] == ':';
    if ascii_lowercase(t) == "localhost"@ {
        reveal_strlit("localhost");
        let w = "localhost"@;
        assert(w[0] != ':' && w[1] != ':' && w[2] != ':' && w[3] != ':' && w[4] != ':');
        assert(w[5] != ':' && w[6] != ':' && w[7] != ':' && w[8] != ':' && w.len() == 9);
        assert(ascii_lowercase(t)[i] == ':');
    }
}

/// What follows a colon has to be a port: without one the query is no address.
pub proof fn colons_ask_for_a_port(query: Seq<char>, from: int, host: Seq<char>, rest: Seq<char>)
    requires
        cut_out(query, host + seq![':'] + rest, from),
        no_white(host),
        no_white(rest),
        forall|i: int| 0 <= i < host.len() ==> #[trigger] host[i] != '/',
        forall|i: int| 0 <= i < rest.len() ==> #[trigger] rest[i] != '/' && rest[i] != ':',
        !is_port(rest),
        rest.len() == 0 || rest[0] != '+',
    ensures
        openable(query) is None,
{
    let t = host + seq![':'] + rest;
    let n = host.len() as int;
    assert forall|i: int| 0 <= i < t.len() implies !is_white(#[trigger] t[i]) && t[i] != '/' by {
        if i < n {
            assert(t[i] == host[i]);
        } else if i > n {
            assert(t[i] == rest[i - n - 1]);
        }
    }
    lemma_query(query, t, from);
    lemma_no_scheme(t);
    lemma_last_place(t, ':', t.len() as int);
    let k = last_place(t, ':', t.len() as int)->0;
    assert(t[n] == ':');
    if k > n {
        assert(t[k] == rest[k - n - 1]);
    }
    assert(k == n);
    assert(t.skip(n + 1) =~= rest);
    assert(t.contains(':'));
    lemma_no_host(t);
}

} // verus!
