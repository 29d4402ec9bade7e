//! Which queries are addresses to open in the browser.

use vstd::prelude::*;

use crate::search::{ascii_lowercase, to_ascii_lowercase};
use crate::text::{
    all_digits, char_views, chars_of, find, find_from, is_digit, is_white, is_whitespace, number,
    parse_digits, pieces, same, split_on, string_of, trim, trimmed,
};

verus! {

/// The schemes that the browser opens.
pub open spec fn web_scheme(scheme: Seq<char>) -> bool {
    let s = ascii_lowercase(scheme);
    s == "http"@ || s == "https"@ || s == "ftp"@ || s == "ftps"@
}

/// Whether `s` is a port: decimal digits, with an optional plus, up to 65535.
pub open spec fn valid_port(s: Seq<char>) -> bool {
    let d = if s.len() > 0 && s[0] == '+' {
        s.skip(1)
    } else {
        s
    };
    d.len() > 0 && all_digits(d) && number(d) <= 65535
}

/// The last place of `c` in the first `n` characters of `s`.
pub open spec fn last_place(s: Seq<char>, c: char, n: int) -> Option<int>
    decreases n,
{
    if n <= 0 {
        None
    } else if s[n - 1] == c {
        Some(n - 1)
    } else {
        last_place(s, c, n - 1)
    }
}

/// The host of an address without a scheme, and whether a port follows.
pub open spec fn host_port(s: Seq<char>) -> (Seq<char>, bool) {
    match last_place(s, ':', s.len() as int) {
        Some(i) => if valid_port(s.skip(i + 1)) {
            (s.take(i), true)
        } else {
            (s, false)
        },
        None => (s, false),
    }
}

/// Whether `s` is a decimal number up to 255.
pub open spec fn is_octet(s: Seq<char>) -> bool {
    s.len() > 0 && all_digits(s) && number(s) <= 255
}

/// Whether `host` is four octets.
pub open spec fn ipv4(host: Seq<char>) -> bool {
    let p = pieces(host, '.');
    p.len() == 4 && forall|i: int| 0 <= i < p.len() ==> is_octet(#[trigger] p[i])
}

/// The characters of a domain label.
pub open spec fn is_label_char(c: char) -> bool {
    ('a' <= c && c <= 'z') || ('A' <= c && c <= 'Z') || is_digit(c) || c == '-'
}

/// Whether `s` is a domain label: 1 to 63 letters, digits and hyphens, with no
/// hyphen at either end.
pub open spec fn is_label(s: Seq<char>) -> bool {
    &&& 0 < s.len() <= 63
    &&& s[0] != '-'
    &&& s.last() != '-'
    &&& forall|i: int| 0 <= i < s.len() ==> is_label_char(#[trigger] s[i])
}

/// Whether `host` is labels joined by dots, at least two, not all of them numbers.
pub open spec fn domain(host: Seq<char>) -> bool {
    let p = pieces(host, '.');
    &&& p.len() >= 2
    &&& forall|i: int| 0 <= i < p.len() ==> is_label(#[trigger] p[i])
    &&& exists|i: int| 0 <= i < p.len() && !all_digits(#[trigger] p[i])
}

/// Whether `host` can be handed to the browser. Words without a dot may be the
/// names of applications; of these only `localhost` can.
pub open spec fn valid_host(host: Seq<char>) -> bool {
    ipv4(host) || ascii_lowercase(host) == "localhost"@ || domain(host)
}

/// The address that a query asks to open. One with a scheme or a port is opened
/// as it is; a bare host gets `https://` in front.
pub open spec fn openable(query: Seq<char>) -> Option<Seq<char>> {
    let t = trimmed(query);
    if t.len() == 0 || exists|i: int| 0 <= i < t.len() && is_white(#[trigger] t[i]) {
        None
    } else {
        match find_from(t, "://"@, 0) {
            Some(i) => if web_scheme(t.take(i)) && t.len() > i + 3 {
                Some(t)
            } else {
                None
            },
            None => {
                let (host, port) = host_port(t);
                if !valid_host(host) {
                    None
                } else if port {
                    Some(t)
                } else {
                    Some("https://"@ + host)
                }
            },
        }
    }
}

/// Whether the browser opens the scheme.
fn is_web_scheme(scheme: &str) -> (r: bool)
    ensures
        r == web_scheme(scheme@),
{
    let s = to_ascii_lowercase(scheme);
    let s = s.as_str();
    same(s, "http") || same(s, "https") || same(s, "ftp") || same(s, "ftps")
}

/// Whether `v[from..]` is a port.
fn is_valid_port(v: &Vec<char>, from: usize) -> (r: bool)
    requires
        from <= v.len(),
    ensures
        r == valid_port(v@.skip(from as int)),
{
    let ghost s = v@.skip(from as int);
    let mut start: usize = from;
    if from < v.len() && v[from] == '+' {
        start = from + 1;
        assert(s.skip(1) =~= v@.subrange(start as int, v.len() as int));
    } else {
        assert(s =~= v@.subrange(start as int, v.len() as int));
    }
    parse_digits(v, start, v.len(), 65535).is_some()
}

/// The length of the host of an address without a scheme, and whether a port follows.
fn split_host_port(v: &Vec<char>) -> (r: (usize, bool))
    ensures
        r.0 <= v.len(),
        host_port(v@) == (v@.take(r.0 as int), r.1),
{
    let mut i: usize = v.len();
    while i > 0
        invariant
            i <= v.len(),
            last_place(v@, ':', v.len() as int) == last_place(v@, ':', i as int),
        decreases i,
    {
        if v[i - 1] == ':' {
            if is_valid_port(v, i) {
                return (i - 1, true);
            }
            assert(v@.take(v.len() as int) =~= v@);
            return (v.len(), false);
        }
        i -= 1;
    }
    assert(v@.take(v.len() as int) =~= v@);
    (v.len(), false)
}

/// Whether all of `v` are ASCII digits.
fn digits_only(v: &Vec<char>) -> (r: bool)
    ensures
        r == all_digits(v@),
{
    let mut i: usize = 0;
    while i < v.len()
        invariant
            i <= v.len(),
            forall|j: int| 0 <= j < i ==> is_digit(#[trigger] v@[j]),
        decreases v.len() - i,
    {
        if !('0' <= v[i] && v[i] <= '9') {
            assert(!is_digit(v@[i as int]));
            return false;
        }
        i += 1;
    }
    true
}

/// Whether the host is four octets.
fn is_ipv4(labels: &Vec<Vec<char>>) -> (r: bool)
    ensures
        r == (labels@.len() == 4 && forall|i: int|
            0 <= i < labels@.len() ==> is_octet(#[trigger] char_views(labels@)[i])),
{
    if labels.len() != 4 {
        return false;
    }
    let mut i: usize = 0;
    while i < labels.len()
        invariant
            i <= labels.len(),
            forall|j: int| 0 <= j < i ==> is_octet(#[trigger] char_views(labels@)[j]),
        decreases labels.len() - i,
    {
        let label = &labels[i];
        assert(label@.subrange(0, label@.len() as int) =~= label@);
        if parse_digits(label, 0, label.len(), 255).is_none() {
            assert(!is_octet(char_views(labels@)[i as int]));
            return false;
        }
        i += 1;
    }
    true
}

/// Whether `v` is a domain label.
fn valid_label(v: &Vec<char>) -> (r: bool)
    ensures
        r == is_label(v@),
{
    let n: usize = v.len();
    if n == 0 || n > 63 || v[0] == '-' || v[n - 1] == '-' {
        return false;
    }
    let mut i: usize = 0;
    while i < n
        invariant
            i <= n,
            n == v.len(),
            forall|j: int| 0 <= j < i ==> is_label_char(#[trigger] v@[j]),
        decreases n - i,
    {
        let c = v[i];
        if !(('a' <= c && c <= 'z') || ('A' <= c && c <= 'Z') || ('0' <= c && c <= '9') || c
            == '-') {
            assert(!is_label_char(v@[i as int]));
            return false;
        }
        i += 1;
    }
    true
}

/// Whether the host is a domain.
fn is_domain(labels: &Vec<Vec<char>>) -> (r: bool)
    ensures
        r == (labels@.len() >= 2 && (forall|i: int|
            0 <= i < labels@.len() ==> is_label(#[trigger] char_views(labels@)[i])) && (exists|
            i: int,
        |
            0 <= i < labels@.len() && !all_digits(#[trigger] char_views(labels@)[i]))),
{
    if labels.len() < 2 {
        return false;
    }
    let mut named = false;
    let mut i: usize = 0;
    while i < labels.len()
        invariant
            i <= labels.len(),
            forall|j: int| 0 <= j < i ==> is_label(#[trigger] char_views(labels@)[j]),
            named == exists|j: int| 0 <= j < i && !all_digits(#[trigger] char_views(labels@)[j]),
        decreases labels.len() - i,
    {
        assert(char_views(labels@)[i as int] == labels@[i as int]@);
        if !valid_label(&labels[i]) {
            assert(!is_label(char_views(labels@)[i as int]));
            return false;
        }
        if !digits_only(&labels[i]) {
            named = true;
        }
        i += 1;
    }
    named
}

/// Whether `host` can be handed to the browser.
fn is_host(host: &str) -> (r: bool)
    ensures
        r == valid_host(host@),
{
    let v = chars_of(host);
    let labels = split_on(&v, '.');
    let lower = to_ascii_lowercase(host);
    is_ipv4(&labels) || same(lower.as_str(), "localhost") || is_domain(&labels)
}

/// The address that `query` asks to open in the browser, if it asks so.
pub fn try_openable(query: &str) -> (r: Option<String>)
    ensures
        crate::text::opt_view(r) == openable(query@),
{
    let t = trim(query);
    let v = chars_of(t.as_str());
    if v.len() == 0 {
        return None;
    }
    let mut i: usize = 0;
    while i < v.len()
        invariant
            i <= v.len(),
            v@ == t@,
            forall|j: int| 0 <= j < i ==> !is_white(#[trigger] t@[j]),
            t@ == trimmed(query@),
        decreases v.len() - i,
    {
        if is_whitespace(v[i]) {
            assert(is_white(t@[i as int]));
            return None;
        }
        i += 1;
    }
    let mark = chars_of("://");
    proof {
        reveal_strlit("://");
        assert("://"@.len() == 3);
    }
    if let Some(i) = find(&v, &mark) {
        let scheme = string_of(&v, 0, i);
        assert(scheme@ =~= t@.take(i as int));
        if is_web_scheme(scheme.as_str()) && v.len() - i > 3 {
            return Some(t);
        }
        return None;
    }
    let (n, port) = split_host_port(&v);
    let host = string_of(&v, 0, n);
    assert(host@ =~= t@.take(n as int));
    if !is_host(host.as_str()) {
        return None;
    }
    if port {
        Some(t)
    } else {
        let mut url = "https://".to_owned();
        url.append(host.as_str());
        Some(url)
    }
}

proof fn lemma_no_white_trimmed(s: Seq<char>)
    requires
        forall|i: int| 0 <= i < s.len() ==> !is_white(#[trigger] s[i]),
    ensures
        trimmed(s) == s,
{
    if s.len() > 0 {
        assert(!is_white(s[0]));
        assert(!is_white(s[s.len() - 1]));
    }
}

/// An address that is offered is one that would be offered for itself.
pub proof fn offered_addresses_are_openable(query: Seq<char>)
    requires
        openable(query) is Some,
    ensures
        openable(openable(query)->0) == openable(query),
{
    let t = trimmed(query);
    let u = openable(query)->0;
    lemma_no_white_trimmed(t);
    if u != t {
        let (host, port) = host_port(t);
        assert(u == "https://"@ + host);
        reveal_strlit("https://");
        reveal_strlit("://");
        reveal_strlit("https");
        assert("https://"@.len() == 8);
        assert(forall|i: int| 0 <= i < 8 ==> !is_white(#[trigger] "https://"@[i]));
        assert forall|i: int| 0 <= i < u.len() implies !is_white(#[trigger] u[i]) by {
            if i < 8 {
                assert(u[i] == "https://"@[i]);
            } else {
                assert(u[i] == host[i - 8]);
                assert(host[i - 8] == t[i - 8]);
            }
        }
        lemma_no_white_trimmed(u);
        assert(host.len() > 0) by {
            if host.len() == 0 {
                assert(pieces(host, '.').len() == 1);
                reveal_strlit("localhost");
                assert("localhost"@.len() == 9);
            }
        }
        let m = "://"@;
        reveal_with_fuel(find_from, 6);
        assert(u.subrange(0, 3)[0] == 'h');
        assert(u.subrange(1, 4)[0] == 't');
        assert(u.subrange(2, 5)[0] == 't');
        assert(u.subrange(3, 6)[0] == 'p');
        assert(u.subrange(4, 7)[0] == 's');
        assert(m[0] == ':');
        assert(u.subrange(5, 8) =~= m);
        assert(find_from(u, m, 0) == Some(5int));
        assert(ascii_lowercase(u.take(5)) =~= "https"@);
    }
}

} // verus!
