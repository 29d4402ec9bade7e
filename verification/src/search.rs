//! Search forms of names, and how well a query matches them.

use vstd::prelude::*;

use crate::text::{byte_len, chars_of, is_white, is_whitespace, same, utf8_len, views};

verus! {

/// Upper bound on the pinyin search forms of one name.
pub const MAX_PINYIN_HANSTACKS: usize = 12;

/// How many characters can match such that the score surely fits the matcher's 16
/// bits: the first scores at most 36, each other at most 26.
pub const MAX_MATCHED: usize = 2520;

/// Names what the `pinyin` crate knows of a character: its readings without
/// tones, most common first, or `None` where it has none.
pub uninterp spec fn readings(c: char) -> Option<Seq<Seq<char>>>;

/// Names the text that the matcher keeps of a string: the first character of
/// each grapheme.
pub uninterp spec fn matcher_text(s: Seq<char>) -> Seq<char>;

/// Names the score that `nucleo`'s default matcher gives a needle in a haystack,
/// or `None` where it does not match.
pub uninterp spec fn matcher_score(haystack: Seq<char>, needle: Seq<char>) -> Option<u16>;

/// The views of an optional list of strings.
pub open spec fn opt_views(o: Option<Vec<String>>) -> Option<Seq<Seq<char>>> {
    match o {
        Some(v) => Some(views(v@)),
        None => None,
    }
}

/// `pinyin::ToPinyinMulti::to_pinyin_multi` lists the readings of a character
/// (each by `Pinyin::plain`) from a fixed table.
#[verifier::external_body]
fn readings_of(c: char) -> (r: Option<Vec<String>>)
    ensures
        opt_views(r) == readings(c),
{
    let multi = pinyin::ToPinyinMulti::to_pinyin_multi(&c)?;
    Some(multi.into_iter().map(|reading| reading.plain().to_owned()).collect())
}

/// `nucleo::Utf32String::from`, turned back into text: what the matcher keeps
/// of a string depends on the string alone.
#[verifier::external_body]
pub(crate) fn matcher_text_of(s: &str) -> (r: String)
    ensures
        r@ == matcher_text(s@),
{
    nucleo::Utf32String::from(s).to_string()
}

/// The fuzzy matcher of the `nucleo` crate.
#[verifier::external_type_specification]
#[verifier::external_body]
pub struct ExMatcher(nucleo::Matcher);

/// `nucleo::Matcher::new` allocates a matcher. Nothing is claimed of it.
#[verifier::external_body]
pub(crate) fn new_matcher() -> nucleo::Matcher {
    nucleo::Matcher::new(nucleo::Config::DEFAULT)
}

/// Whether `s` holds no ASCII capital.
pub open spec fn no_capitals(s: Seq<char>) -> bool {
    forall|i: int| 0 <= i < s.len() ==> !('A' <= #[trigger] s[i] && s[i] <= 'Z')
}

/// Whether the matcher can score a needle of `needle` bytes in a haystack of
/// `haystack` characters: one of the two is so short that no more than
/// [`MAX_MATCHED`] characters match.
pub open spec fn can_score(haystack: nat, needle: nat) -> bool {
    &&& haystack <= u32::MAX
    &&& haystack <= MAX_MATCHED || needle <= MAX_MATCHED
    &&& haystack * needle <= usize::MAX
}

/// `nucleo::Matcher::fuzzy_match` with `Config::DEFAULT`: the best score of the
/// needle as a subsequence of the haystack depends on the two alone; beside its
/// configuration the matcher holds scratch memory only. It folds the haystack and
/// not the needle, and stops the program on some needles with ASCII capitals. It
/// takes haystacks of up to `u32::MAX` units, multiplies the two lengths, and sums
/// the scores of the units that match in 16 bits. A haystack has no more units than
/// characters, a needle no more than bytes.
#[verifier::external_body]
fn fuzzy_match(matcher: &mut nucleo::Matcher, haystack: &str, needle: &str) -> (r: Option<u16>)
    requires
        no_capitals(needle@),
        can_score(haystack@.len(), byte_len(needle@)),
    ensures
        r == matcher_score(haystack@, needle@),
{
    let mut buffer = Vec::new();
    let needle = nucleo::Utf32Str::new(needle, &mut buffer);
    let haystack = nucleo::Utf32String::from(haystack);
    matcher.config = nucleo::Config::DEFAULT;
    matcher.fuzzy_match(haystack.slice(..), needle)
}

/// `c` in lower case, where it is an ASCII letter.
pub open spec fn ascii_lower(c: char) -> char {
    if 'A' <= c && c <= 'Z' {
        ((c as u8) + 32) as u8 as char
    } else {
        c
    }
}

/// `c` in lower case, where it is an ASCII letter.
pub fn to_ascii_lower(c: char) -> (r: char)
    ensures
        r == ascii_lower(c),
{
    if 'A' <= c && c <= 'Z' {
        ((c as u8) + 32) as char
    } else {
        c
    }
}

/// The score of `needle` in `haystack`, whatever the case of its ASCII letters.
/// Where both are too long for the matcher to score, there is no match.
pub open spec fn fuzzy_score(haystack: Seq<char>, needle: Seq<char>) -> Option<u16> {
    let folded = ascii_lowercase(needle);
    if can_score(haystack.len(), byte_len(folded)) {
        matcher_score(haystack, folded)
    } else {
        None
    }
}

/// Whether the matcher can score a needle of `needle` bytes in a haystack of
/// `haystack` characters.
fn is_scorable(haystack: usize, needle: usize) -> (r: bool)
    ensures
        r == can_score(haystack as nat, needle as nat),
{
    if (haystack > MAX_MATCHED && needle > MAX_MATCHED) || haystack as u64 > u32::MAX as u64 {
        return false;
    }
    match haystack.checked_mul(needle) {
        Some(_) => true,
        None => false,
    }
}

/// The score of a needle without capitals in `haystack`.
fn score_of(matcher: &mut nucleo::Matcher, haystack: &str, folded: &str) -> (r: Option<u16>)
    requires
        no_capitals(folded@),
    ensures
        r == (if can_score(haystack@.len(), byte_len(folded@)) {
            matcher_score(haystack@, folded@)
        } else {
            None
        }),
{
    if is_scorable(haystack.unicode_len(), utf8_len(folded)) {
        fuzzy_match(matcher, haystack, folded)
    } else {
        None
    }
}

/// The larger of two optional scores; any score is larger than none.
pub open spec fn better(a: Option<u16>, b: Option<u16>) -> Option<u16> {
    match (a, b) {
        (Some(x), Some(y)) => Some(
            if x >= y {
                x
            } else {
                y
            },
        ),
        (Some(x), None) => Some(x),
        (None, y) => y,
    }
}

/// The best score of `needle` in any of the haystacks.
pub open spec fn best_score(haystacks: Seq<Seq<char>>, needle: Seq<char>) -> Option<u16>
    decreases haystacks.len(),
{
    if haystacks.len() == 0 {
        None
    } else {
        better(best_score(haystacks.drop_last(), needle), fuzzy_score(haystacks.last(), needle))
    }
}

/// The best score of `needle` in any of the haystacks.
pub(crate) fn best_match(
    matcher: &mut nucleo::Matcher,
    haystacks: &Vec<String>,
    needle: &str,
) -> (r: Option<u16>)
    ensures
        r == best_score(views(haystacks@), needle@),
{
    let folded = to_ascii_lowercase(needle);
    assert(no_capitals(folded@));
    let mut best: Option<u16> = None;
    let ghost all = views(haystacks@);
    let mut i: usize = 0;
    while i < haystacks.len()
        invariant
            i <= haystacks.len(),
            all == views(haystacks@),
            folded@ == ascii_lowercase(needle@),
            no_capitals(folded@),
            best == best_score(all.take(i as int), needle@),
        decreases haystacks.len() - i,
    {
        let haystack = haystacks[i].as_str();
        let score = score_of(matcher, haystack, folded.as_str());
        let ghost next = all.take(i + 1);
        assert(next.drop_last() =~= all.take(i as int));
        assert(next.last() == haystack@);
        best = match (best, score) {
            (Some(x), Some(y)) => Some(
                if x >= y {
                    x
                } else {
                    y
                },
            ),
            (Some(x), None) => Some(x),
            (None, y) => y,
        };
        i += 1;
    }
    assert(all.take(haystacks.len() as int) =~= all);
    best
}

/// Which search forms of a name are made.
pub enum Form {
    /// Full pinyin without spaces, such as `zidongbofang`.
    Full,
    /// Full pinyin with spaces, such as `zi dong bo fang`.
    Spaced,
    /// First letters, such as `zdbf`.
    Initials,
}

/// What the reading `s` adds to a search form.
pub open spec fn part(s: Seq<char>, form: Form) -> Seq<char> {
    if form is Initials && s.len() > 0 {
        s.take(1)
    } else {
        s
    }
}

/// A search form with `s` added, after a space where the form has spaces.
pub open spec fn extended(form_so_far: Seq<char>, s: Seq<char>, form: Form) -> Seq<char> {
    if form is Spaced && form_so_far.len() > 0 {
        form_so_far.push(' ') + s
    } else {
        form_so_far + s
    }
}

/// The first `n` of `s`, or all where there are fewer.
pub open spec fn first<T>(s: Seq<T>, n: int) -> Seq<T> {
    if s.len() <= n {
        s
    } else {
        s.take(n)
    }
}

/// Every form so far with every reading added, up to the bound.
pub open spec fn expand(so_far: Seq<Seq<char>>, rs: Seq<Seq<char>>, form: Form) -> Seq<Seq<char>> {
    first(
        Seq::new(
            so_far.len() * rs.len(),
            |i: int| extended(so_far[i / rs.len() as int], part(rs[i % rs.len() as int], form), form),
        ),
        MAX_PINYIN_HANSTACKS as int,
    )
}

/// The search forms of `name`: a character with readings adds each of them; white
/// space adds nothing; any other character adds itself, an ASCII letter in lower case.
pub open spec fn forms(name: Seq<char>, form: Form) -> Seq<Seq<char>>
    decreases name.len(),
{
    if name.len() == 0 {
        seq![Seq::empty()]
    } else {
        let so_far = forms(name.drop_last(), form);
        let c = name.last();
        match readings(c) {
            Some(rs) => expand(so_far, rs, form),
            None => if is_white(c) {
                so_far
            } else {
                Seq::new(
                    so_far.len(),
                    |i: int| extended(so_far[i], seq![ascii_lower(c)], form),
                )
            },
        }
    }
}

/// The items of `s` without those that occur earlier in it.
pub open spec fn distinct(s: Seq<Seq<char>>) -> Seq<Seq<char>>
    decreases s.len(),
{
    if s.len() == 0 {
        s
    } else {
        let d = distinct(s.drop_last());
        if d.contains(s.last()) {
            d
        } else {
            d.push(s.last())
        }
    }
}

/// The ASCII letters of `s` in lower case, the rest as it is.
pub open spec fn ascii_lowercase(s: Seq<char>) -> Seq<char> {
    s.map_values(|c: char| ascii_lower(c))
}

/// Those of `s` that are worth searching beside `name`: not empty, and not the
/// name itself in lower case.
pub open spec fn worthwhile(s: Seq<Seq<char>>, name: Seq<char>) -> Seq<Seq<char>>
    decreases s.len(),
{
    if s.len() == 0 {
        s
    } else {
        let w = worthwhile(s.drop_last(), name);
        if s.last().len() == 0 || s.last() == ascii_lowercase(name) {
            w
        } else {
            w.push(s.last())
        }
    }
}

/// Whether some character of `name` has a reading.
pub open spec fn has_readings(name: Seq<char>) -> bool {
    exists|i: int| 0 <= i < name.len() && readings(#[trigger] name[i]) is Some
}

/// The pinyin search forms of `name`, each once, up to the bound. A name without
/// readings, such as one in Latin letters, has none.
pub open spec fn pinyin_forms(name: Seq<char>) -> Seq<Seq<char>> {
    let all = forms(name, Form::Full) + forms(name, Form::Spaced) + forms(name, Form::Initials);
    if has_readings(name) {
        first(distinct(worthwhile(all, name)), MAX_PINYIN_HANSTACKS as int)
    } else {
        Seq::empty()
    }
}

/// The texts a query is matched against to find `name`: the name and its pinyin
/// search forms, each once.
pub open spec fn search_forms(name: Seq<char>) -> Seq<Seq<char>> {
    distinct(seq![name] + pinyin_forms(name))
}

/// The search form with `s` added.
fn extend(so_far: &String, s: &str, form: &Form) -> (r: String)
    ensures
        r@ == extended(so_far@, s@, *form),
{
    let mut r = so_far.clone();
    if matches!(form, Form::Spaced) && so_far.as_str().unicode_len() > 0 {
        r.push(' ');
    }
    r.append(s);
    r
}

/// What the reading `s` adds to a search form.
fn part_of(s: &String, form: &Form) -> (r: String)
    ensures
        r@ == part(s@, *form),
{
    if matches!(form, Form::Initials) && s.as_str().unicode_len() > 0 {
        let mut r = String::new();
        r.push(s.as_str().get_char(0));
        assert(r@ =~= s@.take(1));
        r
    } else {
        s.clone()
    }
}

/// Every form so far with every reading added, up to the bound.
fn expand_pinyin(so_far: &Vec<String>, rs: &Vec<String>, form: &Form) -> (r: Vec<String>)
    ensures
        views(r@) == expand(views(so_far@), views(rs@), *form),
{
    let ghost a = views(so_far@);
    let ghost b = views(rs@);
    let ghost all = Seq::new(
        a.len() * b.len(),
        |i: int| extended(a[i / b.len() as int], part(b[i % b.len() as int], *form), *form),
    );
    let mut r: Vec<String> = Vec::new();
    let mut i: usize = 0;
    while i < so_far.len()
        invariant
            i <= so_far.len(),
            a == views(so_far@),
            b == views(rs@),
            all == Seq::new(
                a.len() * b.len(),
                |i: int| extended(a[i / b.len() as int], part(b[i % b.len() as int], *form), *form),
            ),
            r@.len() == i * b.len(),
            r@.len() <= MAX_PINYIN_HANSTACKS,
            forall|k: int| 0 <= k < r@.len() ==> (#[trigger] r@[k])@ == all[k],
            i * b.len() <= all.len(),
        decreases so_far.len() - i,
    {
        assert(i * b.len() + b.len() <= a.len() * b.len()) by (nonlinear_arith)
            requires
                i < a.len(),
        ;
        let mut j: usize = 0;
        while j < rs.len()
            invariant
                j <= rs.len(),
                i < so_far.len(),
                a == views(so_far@),
                b == views(rs@),
                all == Seq::new(
                    a.len() * b.len(),
                    |i: int|
                        extended(a[i / b.len() as int], part(b[i % b.len() as int], *form), *form),
                ),
                r@.len() == i * b.len() + j,
                r@.len() <= MAX_PINYIN_HANSTACKS,
                forall|k: int| 0 <= k < r@.len() ==> (#[trigger] r@[k])@ == all[k],
                i * b.len() + b.len() <= all.len(),
            decreases rs.len() - j,
        {
            if r.len() >= MAX_PINYIN_HANSTACKS {
                assert(views(r@) =~= all.take(MAX_PINYIN_HANSTACKS as int));
                return r;
            }
            let ghost k = i * b.len() + j;
            proof {
                lemma_place(i as int, j as int, b.len() as int);
            }
            let p = part_of(&rs[j], form);
            r.push(extend(&so_far[i], p.as_str(), form));
            assert(r@[k]@ == all[k]);
            j += 1;
        }
        assert((i + 1) * b.len() == i * b.len() + b.len()) by (nonlinear_arith);
        i += 1;
    }
    assert(views(r@) =~= all);
    r
}

proof fn lemma_place(i: int, j: int, n: int)
    requires
        0 <= j < n,
        0 <= i,
    ensures
        (i * n + j) / n == i,
        (i * n + j) % n == j,
{
    vstd::arithmetic::div_mod::lemma_fundamental_div_mod_converse(i * n + j, n, i, j);
}

/// The search forms of `name`.
fn make_forms(name: &Vec<char>, form: &Form) -> (r: Vec<String>)
    ensures
        views(r@) == forms(name@, *form),
{
    let mut r: Vec<String> = Vec::new();
    r.push(String::new());
    assert(views(r@) =~= seq![Seq::<char>::empty()]);
    assert(name@.take(0) =~= Seq::<char>::empty());
    let mut i: usize = 0;
    while i < name.len()
        invariant
            i <= name.len(),
            views(r@) == forms(name@.take(i as int), *form),
        decreases name.len() - i,
    {
        let c = name[i];
        let ghost so_far = views(r@);
        let ghost next = name@.take(i + 1);
        assert(next.drop_last() =~= name@.take(i as int));
        assert(next.last() == c);
        match readings_of(c) {
            Some(rs) => {
                r = expand_pinyin(&r, &rs, form);
            },
            None => {
                if !is_whitespace(c) {
                    let mut letter = String::new();
                    letter.push(to_ascii_lower(c));
                    assert(letter@ =~= seq![ascii_lower(c)]);
                    let mut w: Vec<String> = Vec::new();
                    let mut k: usize = 0;
                    while k < r.len()
                        invariant
                            k <= r.len(),
                            so_far == views(r@),
                            letter@ == seq![ascii_lower(c)],
                            w@.len() == k,
                            forall|m: int|
                                0 <= m < k ==> (#[trigger] w@[m])@ == extended(
                                    so_far[m],
                                    seq![ascii_lower(c)],
                                    *form,
                                ),
                        decreases r.len() - k,
                    {
                        w.push(extend(&r[k], letter.as_str(), form));
                        k += 1;
                    }
                    assert(views(w@) =~= forms(next, *form));
                    r = w;
                }
            },
        }
        i += 1;
    }
    assert(name@.take(name.len() as int) =~= name@);
    r
}

/// Whether `s` is one of `v`.
pub fn contains_text(v: &Vec<String>, s: &str) -> (r: bool)
    ensures
        r == views(v@).contains(s@),
{
    let mut i: usize = 0;
    while i < v.len()
        invariant
            i <= v.len(),
            forall|j: int| 0 <= j < i ==> #[trigger] views(v@)[j] != s@,
        decreases v.len() - i,
    {
        if same(v[i].as_str(), s) {
            assert(views(v@)[i as int] == s@);
            return true;
        }
        i += 1;
    }
    false
}

/// The items of a longer list come after those of a shorter one.
proof fn lemma_distinct_prefix(s: Seq<Seq<char>>, k: int)
    requires
        0 <= k <= s.len(),
    ensures
        distinct(s.take(k)).len() <= distinct(s).len(),
        distinct(s.take(k)) == distinct(s).take(distinct(s.take(k)).len() as int),
    decreases s.len(),
{
    if k == s.len() {
        assert(s.take(k) =~= s);
        assert(distinct(s).take(distinct(s).len() as int) =~= distinct(s));
    } else {
        let t = s.drop_last();
        lemma_distinct_prefix(t, k);
        assert(t.take(k) =~= s.take(k));
        let n = distinct(s.take(k)).len() as int;
        assert(distinct(s).take(n) =~= distinct(t).take(n));
    }
}

proof fn lemma_worthwhile_prefix(s: Seq<Seq<char>>, name: Seq<char>, k: int)
    requires
        0 <= k <= s.len(),
    ensures
        worthwhile(s.take(k), name).len() <= worthwhile(s, name).len(),
        worthwhile(s.take(k), name) == worthwhile(s, name).take(
            worthwhile(s.take(k), name).len() as int,
        ),
    decreases s.len(),
{
    if k == s.len() {
        assert(s.take(k) =~= s);
        assert(worthwhile(s, name).take(worthwhile(s, name).len() as int) =~= worthwhile(s, name));
    } else {
        let t = s.drop_last();
        lemma_worthwhile_prefix(t, name, k);
        assert(t.take(k) =~= s.take(k));
        let n = worthwhile(s.take(k), name).len() as int;
        assert(worthwhile(s, name).take(n) =~= worthwhile(t, name).take(n));
    }
}

/// `s` with its ASCII letters in lower case.
pub fn to_ascii_lowercase(s: &str) -> (r: String)
    ensures
        r@ == ascii_lowercase(s@),
{
    let v = chars_of(s);
    let mut r = String::new();
    let mut i: usize = 0;
    while i < v.len()
        invariant
            i <= v.len(),
            v@ == s@,
            r@ == ascii_lowercase(s@.take(i as int)),
        decreases v.len() - i,
    {
        r.push(to_ascii_lower(v[i]));
        i += 1;
        assert(r@ =~= ascii_lowercase(s@.take(i as int)));
    }
    assert(s@.take(s@.len() as int) =~= s@);
    r
}

/// Appends all of `b` to `a`.
fn append_all(a: &mut Vec<String>, b: Vec<String>)
    ensures
        views(final(a)@) == views(old(a)@) + views(b@),
{
    let ghost added = views(b@);
    let mut b = b;
    a.append(&mut b);
    assert(views(a@) =~= views(old(a)@) + added);
}

/// Whether some character of `name` has a reading.
fn any_reading(name: &Vec<char>) -> (r: bool)
    ensures
        r == has_readings(name@),
{
    let mut i: usize = 0;
    while i < name.len()
        invariant
            i <= name.len(),
            forall|j: int| 0 <= j < i ==> readings(#[trigger] name@[j]) is None,
        decreases name.len() - i,
    {
        if readings_of(name[i]).is_some() {
            assert(readings(name@[i as int]) is Some);
            return true;
        }
        i += 1;
    }
    false
}

/// The pinyin search forms of `name`. A name in Latin letters has none: it is
/// its own search form.
pub fn pinyin_variants(name: &str) -> (r: Vec<String>)
    ensures
        views(r@) == pinyin_forms(name@),
{
    let chars = chars_of(name);
    if !any_reading(&chars) {
        let none: Vec<String> = Vec::new();
        assert(views(none@) =~= Seq::<Seq<char>>::empty());
        return none;
    }
    let mut all = make_forms(&chars, &Form::Full);
    append_all(&mut all, make_forms(&chars, &Form::Spaced));
    append_all(&mut all, make_forms(&chars, &Form::Initials));
    let ghost s = views(all@);
    let lower = to_ascii_lowercase(name);
    let mut r: Vec<String> = Vec::new();
    assert(s.take(0) =~= Seq::<Seq<char>>::empty());
    assert(views(r@) =~= Seq::<Seq<char>>::empty());
    let mut i: usize = 0;
    while i < all.len()
        invariant
            i <= all.len(),
            s == views(all@),
            s == forms(name@, Form::Full) + forms(name@, Form::Spaced) + forms(
                name@,
                Form::Initials,
            ),
            lower@ == ascii_lowercase(name@),
            views(r@) == distinct(worthwhile(s.take(i as int), name@)),
            r@.len() < MAX_PINYIN_HANSTACKS,
            has_readings(name@),
        decreases all.len() - i,
    {
        let text = all[i].as_str();
        let ghost next = s.take(i + 1);
        assert(next.drop_last() =~= s.take(i as int));
        assert(next.last() == text@);
        if text.unicode_len() != 0 && !same(text, lower.as_str()) {
            assert(worthwhile(next, name@).drop_last() =~= worthwhile(s.take(i as int), name@));
            if !contains_text(&r, text) {
                let ghost before = views(r@);
                r.push(text.to_owned());
                assert(views(r@) =~= before.push(text@));
            }
            if r.len() >= MAX_PINYIN_HANSTACKS {
                proof {
                    let w = worthwhile(s, name@);
                    lemma_worthwhile_prefix(s, name@, i + 1);
                    lemma_distinct_prefix(w, worthwhile(next, name@).len() as int);
                    assert(distinct(w).take(MAX_PINYIN_HANSTACKS as int) == views(r@));
                    if distinct(w).len() == MAX_PINYIN_HANSTACKS {
                        assert(distinct(w).take(MAX_PINYIN_HANSTACKS as int) =~= distinct(w));
                    }
                }
                return r;
            }
        }
        i += 1;
    }
    assert(s.take(s.len() as int) =~= s);
    r
}

/// The texts a query is matched against to find `name`: the name itself and,
/// for Chinese text, compact full pinyin, full pinyin with spaces and first
/// letters, so that `zd` finds what reads `zi dong`. Characters without a
/// reading are copied.
pub fn search_haystacks(name: &str) -> (r: Vec<String>)
    ensures
        views(r@) == search_forms(name@),
{
    let variants = pinyin_variants(name);
    let ghost s = seq![name@] + views(variants@);
    let mut r: Vec<String> = Vec::new();
    r.push(name.to_owned());
    proof {
        assert(s.take(1).drop_last() =~= Seq::<Seq<char>>::empty());
        assert(distinct(s.take(1).drop_last()) =~= Seq::<Seq<char>>::empty());
        assert(views(r@) =~= distinct(s.take(1)));
    }
    let mut i: usize = 0;
    while i < variants.len()
        invariant
            i <= variants.len(),
            s == seq![name@] + views(variants@),
            views(r@) == distinct(s.take(i + 1)),
        decreases variants.len() - i,
    {
        let text = variants[i].as_str();
        let ghost next = s.take(i + 2);
        assert(next.drop_last() =~= s.take(i + 1));
        assert(next.last() == text@);
        if !contains_text(&r, text) {
            let ghost before = views(r@);
            r.push(text.to_owned());
            assert(views(r@) =~= before.push(text@));
        }
        i += 1;
    }
    assert(s.take(s.len() as int) =~= s);
    r
}

} // verus!
