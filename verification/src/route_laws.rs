//! Which routes a query reaches, in which order, and with which input.

use vstd::prelude::*;

use crate::host::routes_for;
use crate::manifest::{CommandView, MetaView, TriggerType};
use crate::order::{arranged, falling_order, falling_order_exists};
use crate::pattern::{matches_somewhere, regex_problem};
use crate::route::{
    all_hits, all_forms, command_hits, command_texts, distinct_folded, dynamic_hits,
    fold_key, fold_keys, hit, longest_first, others, prefix_fires, prefix_hits, prefix_lens,
    query_hits, regex_hits, route_forms, route_of, route_score, routes_of, scored_commands, scores,
    with_plugin, without_plugin, HitView, IndexView, RouteView,
};
use crate::search::{best_score, fuzzy_score, matcher_text, search_forms};
use crate::text::{byte_len, has_prefix, lowercase, trimmed};
use crate::text_laws::{cut_out, trimming_cuts_the_white_ends};

verus! {

/// Whether `h` runs the command of `r` with the given input and deadline.
pub open spec fn runs(h: HitView, r: RouteView, input: Seq<char>, deadline_ms: u64) -> bool {
    &&& h.plugin_id == r.plugin_id
    &&& h.command == r.command
    &&& h.title == r.title
    &&& h.detachable == r.detachable
    &&& h.input == input
    &&& h.deadline_ms == deadline_ms
}

/// Whether the query is the name of a command, or begins with it and a space.
pub open spec fn calls_by_name(r: RouteView, q: Seq<char>) -> bool {
    ||| q == r.command
    ||| q.len() > r.command.len() && q.take(r.command.len() as int) == r.command
        && q[r.command.len() as int] == ' '
}

/// Whether a query reaches a command route with the given score: the largest there
/// is where it calls it by name, else the best that the lower-cased query has in one
/// of its search forms.
pub open spec fn reaches(r: RouteView, q: Seq<char>, score: u16) -> bool {
    if calls_by_name(r, q) {
        score == 65535
    } else {
        &&& exists|k: int|
            0 <= k < r.haystacks.len() && fuzzy_score(#[trigger] r.haystacks[k], lowercase(q))
                == Some(score)
        &&& forall|k: int|
            0 <= k < r.haystacks.len() && fuzzy_score(
                #[trigger] r.haystacks[k],
                lowercase(q),
            ) is Some ==> fuzzy_score(r.haystacks[k], lowercase(q))->0 <= score
    }
}

/// Whether the prefix of `r` begins the query.
pub open spec fn begins(r: RouteView, q: Seq<char>) -> bool {
    r.value.len() <= q.len() && q.take(r.value.len() as int) == r.value
}

/// Whether `input` is what follows the prefix of `r` in the query, without the
/// white space around it.
pub open spec fn follows_prefix(q: Seq<char>, r: RouteView, input: Seq<char>) -> bool {
    exists|from: int| #[trigger] cut_out(q.skip(r.value.len() as int), input, from)
}

/// Whether the prefix of route `i` begins the query, and no longer one does.
pub open spec fn longest_prefix(rs: Seq<RouteView>, i: int, q: Seq<char>) -> bool {
    &&& begins(rs[i], q)
    &&& forall|j: int|
        0 <= j < rs.len() && #[trigger] begins(rs[j], q) ==> byte_len(rs[j].value) <= byte_len(
            rs[i].value,
        )
}

/// Whether the regular expression of `r` is one, and matches the query.
pub open spec fn pattern_matches(r: RouteView, q: Seq<char>) -> bool {
    regex_problem(r.value) is None && matches_somewhere(r.value, q)
}

/// Whether `places` are places of a list of the given length, in rising order.
pub open spec fn rising(places: Seq<int>, len: nat) -> bool {
    &&& forall|i: int| 0 <= i < places.len() ==> 0 <= #[trigger] places[i] < len
    &&& forall|i: int, j: int|
        0 <= i < j < places.len() ==> #[trigger] places[i] < #[trigger] places[j]
}

/// Whether the hits from `from` on are those of the regex routes that match, in
/// table order, each with the query as input.
pub open spec fn regex_part(
    rs: Seq<RouteView>,
    q: Seq<char>,
    hits: Seq<HitView>,
    places: Seq<int>,
) -> bool {
    &&& rising(places, rs.len())
    &&& hits.len() == places.len()
    &&& forall|i: int|
        0 <= i < rs.len() ==> (#[trigger] places.contains(i) <==> pattern_matches(rs[i], q))
    &&& forall|i: int| 0 <= i < places.len() ==> runs(#[trigger] hits[i], rs[places[i]], q, 500)
}

/// Whether the hits are those of the prefix routes with the longest prefix that
/// begins the query, in table order, each with the text after the prefix as input,
/// without the white space around it.
pub open spec fn prefix_part(
    rs: Seq<RouteView>,
    q: Seq<char>,
    hits: Seq<HitView>,
    places: Seq<int>,
) -> bool {
    &&& rising(places, rs.len())
    &&& hits.len() == places.len()
    &&& forall|i: int|
        0 <= i < rs.len() ==> (#[trigger] places.contains(i) <==> longest_prefix(rs, i, q))
    &&& forall|i: int|
        0 <= i < places.len() ==> {
            let r = rs[places[i]];
            &&& runs(#[trigger] hits[i], r, hits[i].input, 500)
            &&& follows_prefix(q, r, hits[i].input)
        }
}

/// Whether the hits are those of the command routes that the query reaches, by
/// falling score, those with equal scores in table order, each with the query as
/// input.
pub open spec fn command_part(
    rs: Seq<RouteView>,
    q: Seq<char>,
    hits: Seq<HitView>,
    places: Seq<int>,
    points: Seq<u16>,
) -> bool {
    &&& hits.len() == places.len() && points.len() == places.len()
    &&& places.no_duplicates()
    &&& forall|i: int| 0 <= i < places.len() ==> 0 <= #[trigger] places[i] < rs.len()
    &&& forall|i: int|
        0 <= i < rs.len() ==> (#[trigger] places.contains(i) <==> exists|score: u16|
            #[trigger] reaches(rs[i], q, score))
    &&& forall|i: int|
        0 <= i < places.len() ==> reaches(rs[places[i]], q, #[trigger] points[i])
    &&& forall|i: int| 0 <= i < places.len() ==> runs(#[trigger] hits[i], rs[places[i]], q, 500)
    &&& forall|i: int, j: int|
        0 <= i < j < places.len() ==> #[trigger] points[i] > #[trigger] points[j] || (points[i]
            == points[j] && places[i] < places[j])
}

proof fn lemma_best(haystacks: Seq<Seq<char>>, needle: Seq<char>)
    ensures
        best_score(haystacks, needle) is None <==> forall|k: int|
            0 <= k < haystacks.len() ==> fuzzy_score(#[trigger] haystacks[k], needle) is None,
        best_score(haystacks, needle) matches Some(score) ==> {
            &&& exists|k: int|
                0 <= k < haystacks.len() && fuzzy_score(#[trigger] haystacks[k], needle) == Some(
                    score,
                )
            &&& forall|k: int|
                0 <= k < haystacks.len() && fuzzy_score(#[trigger] haystacks[k], needle) is Some
                    ==> fuzzy_score(haystacks[k], needle)->0 <= score
        },
    decreases haystacks.len(),
{
    if haystacks.len() > 0 {
        let rest = haystacks.drop_last();
        let n = haystacks.len() - 1;
        lemma_best(rest, needle);
        assert forall|k: int| 0 <= k < n implies #[trigger] haystacks[k] == rest[k] by {}
        if best_score(rest, needle) is Some {
            let k = choose|k: int|
                0 <= k < rest.len() && fuzzy_score(#[trigger] rest[k], needle) == best_score(
                    rest,
                    needle,
                );
            assert(fuzzy_score(haystacks[k], needle) == best_score(rest, needle));
        }
        if best_score(haystacks, needle) is Some {
            let score = best_score(haystacks, needle)->0;
            assert(fuzzy_score(haystacks[n], needle) == Some(score) || best_score(rest, needle)
                == Some(score));
        }
    }
}

proof fn lemma_reaches(r: RouteView, q: Seq<char>)
    ensures
        route_score(r, q) is Some <==> exists|score: u16| #[trigger] reaches(r, q, score),
        route_score(r, q) matches Some(score) ==> reaches(r, q, score),
{
    lemma_best(r.haystacks, lowercase(q));
    if calls_by_name(r, q) {
        assert(reaches(r, q, 65535));
        assert(route_score(r, q) == Some(65535u16));
    } else {
        match route_score(r, q) {
            Some(score) => {
                assert(reaches(r, q, score));
            },
            None => {},
        }
    }
}

/// The places of the routes that the query reaches.
spec fn scored_places(rs: Seq<RouteView>, q: Seq<char>) -> Seq<int>
    decreases rs.len(),
{
    if rs.len() == 0 {
        Seq::empty()
    } else {
        let rest = scored_places(rs.drop_last(), q);
        match route_score(rs.last(), q) {
            Some(_) => rest.push(rs.len() - 1),
            None => rest,
        }
    }
}

#[verifier::rlimit(40)]
proof fn lemma_scored(rs: Seq<RouteView>, q: Seq<char>)
    ensures
        ({
            let s = scored_commands(rs, q);
            let p = scored_places(rs, q);
            &&& s.len() == p.len()
            &&& rising(p, rs.len())
            &&& forall|i: int|
                0 <= i < rs.len() ==> (p.contains(i) <==> (#[trigger] route_score(rs[i], q)) is Some)
            &&& forall|i: int|
                0 <= i < p.len() ==> route_score(rs[p[i]], q) == Some((#[trigger] s[i]).0) && runs(
                    s[i].1,
                    rs[p[i]],
                    q,
                    500,
                )
        }),
    decreases rs.len(),
{
    if rs.len() > 0 {
        let fewer = rs.drop_last();
        let n = rs.len() - 1;
        lemma_scored(fewer, q);
        let p0 = scored_places(fewer, q);
        let p = scored_places(rs, q);
        let s0 = scored_commands(fewer, q);
        let s = scored_commands(rs, q);
        assert forall|i: int| 0 <= i < rs.len() implies (p.contains(i) <==> (#[trigger] route_score(
            rs[i],
            q,
        )) is Some) by {
            if i < n {
                assert(fewer[i] == rs[i]);
                assert(p0.contains(i) <==> route_score(fewer[i], q) is Some);
                if p0.contains(i) {
                    let k = choose|k: int| 0 <= k < p0.len() && p0[k] == i;
                    assert(p[k] == i);
                }
                if p.contains(i) {
                    let k = choose|k: int| 0 <= k < p.len() && p[k] == i;
                    assert(p0[k] == i);
                }
            } else {
                if route_score(rs[n], q) is Some {
                    assert(p[p.len() - 1] == n);
                } else if p.contains(n) {
                    let k = choose|k: int| 0 <= k < p.len() && p[k] == n;
                    assert(p0[k] == n);
                }
            }
        }
        assert forall|i: int| 0 <= i < p.len() implies route_score(rs[p[i]], q) == Some(
            (#[trigger] s[i]).0,
        ) && runs(s[i].1, rs[p[i]], q, 500) by {
            if i < p0.len() {
                assert(s[i] == s0[i] && p[i] == p0[i]);
                assert(fewer[p0[i]] == rs[p0[i]]);
            }
        }
    }
}

#[verifier::rlimit(40)]
proof fn lemma_command_part(rs: Seq<RouteView>, q: Seq<char>) -> (r: (Seq<int>, Seq<u16>))
    ensures
        command_part(rs, q, command_hits(rs, q), r.0, r.1),
{
    let s = scored_commands(rs, q);
    let p = scored_places(rs, q);
    lemma_scored(rs, q);
    falling_order_exists(scores(s));
    let order = falling_order(scores(s));
    let places = order.map_values(|i: int| p[i]);
    let points = order.map_values(|i: int| s[i].0);
    let hits = command_hits(rs, q);
    assert forall|i: int, j: int| 0 <= i < j < places.len() implies #[trigger] points[i]
        > #[trigger] points[j] || (points[i] == points[j] && places[i] < places[j]) by {
        assert(crate::order::ahead(scores(s), order[i], order[j]));
        if order[i] < order[j] {
            assert(p[order[i]] < p[order[j]]);
        }
    }
    assert forall|i: int, j: int| 0 <= i < places.len() && 0 <= j < places.len() && i
        != j implies places[i] != places[j] by {
        let (a, b) = if i < j {
            (i, j)
        } else {
            (j, i)
        };
        assert(crate::order::ahead(scores(s), order[a], order[b]));
        assert(order[a] != order[b]);
        if order[a] < order[b] {
            assert(p[order[a]] < p[order[b]]);
        } else {
            assert(p[order[b]] < p[order[a]]);
        }
    }
    assert forall|i: int| 0 <= i < rs.len() implies (#[trigger] places.contains(i)
        <==> exists|score: u16| #[trigger] reaches(rs[i], q, score)) by {
        lemma_reaches(rs[i], q);
        assert(p.contains(i) <==> route_score(rs[i], q) is Some);
        if p.contains(i) {
            let k = choose|k: int| 0 <= k < p.len() && p[k] == i;
            assert(order.contains(k));
            let m = choose|m: int| 0 <= m < order.len() && order[m] == k;
            assert(places[m] == i);
        }
        if places.contains(i) {
            let m = choose|m: int| 0 <= m < places.len() && places[m] == i;
            assert(p[order[m]] == i);
        }
    }
    assert forall|i: int| 0 <= i < places.len() implies reaches(
        rs[places[i]],
        q,
        #[trigger] points[i],
    ) by {
        assert(route_score(rs[p[order[i]]], q) == Some(s[order[i]].0));
        lemma_reaches(rs[places[i]], q);
    }
    assert forall|i: int| 0 <= i < places.len() implies runs(
        #[trigger] hits[i],
        rs[places[i]],
        q,
        500,
    ) by {
        assert(hits[i] == s[order[i]].1);
    }
    (places, points)
}

/// The places of the routes whose regular expression matches.
spec fn regex_places(rs: Seq<RouteView>, q: Seq<char>) -> Seq<int>
    decreases rs.len(),
{
    if rs.len() == 0 {
        Seq::empty()
    } else {
        let rest = regex_places(rs.drop_last(), q);
        if pattern_matches(rs.last(), q) {
            rest.push(rs.len() - 1)
        } else {
            rest
        }
    }
}

proof fn lemma_regex_part(rs: Seq<RouteView>, q: Seq<char>)
    ensures
        regex_part(rs, q, regex_hits(rs, q), regex_places(rs, q)),
    decreases rs.len(),
{
    if rs.len() > 0 {
        let fewer = rs.drop_last();
        let n = rs.len() - 1;
        lemma_regex_part(fewer, q);
        let p0 = regex_places(fewer, q);
        let p = regex_places(rs, q);
        let h0 = regex_hits(fewer, q);
        let h = regex_hits(rs, q);
        assert forall|i: int| 0 <= i < rs.len() implies (#[trigger] p.contains(i)
            <==> pattern_matches(rs[i], q)) by {
            if i < n {
                assert(fewer[i] == rs[i]);
                assert(p0.contains(i) <==> pattern_matches(fewer[i], q));
                if p0.contains(i) {
                    let k = choose|k: int| 0 <= k < p0.len() && p0[k] == i;
                    assert(p[k] == i);
                }
                if p.contains(i) {
                    let k = choose|k: int| 0 <= k < p.len() && p[k] == i;
                    assert(p0[k] == i);
                }
            } else {
                if pattern_matches(rs[n], q) {
                    assert(p[p.len() - 1] == n);
                } else if p.contains(n) {
                    let k = choose|k: int| 0 <= k < p.len() && p[k] == n;
                    assert(p0[k] == n);
                }
            }
        }
        assert forall|i: int| 0 <= i < p.len() implies runs(#[trigger] h[i], rs[p[i]], q, 500) by {
            if i < p0.len() {
                assert(h[i] == h0[i] && p[i] == p0[i]);
                assert(fewer[p0[i]] == rs[p0[i]]);
            }
        }
    }
}

/// The places of the routes among the first `n` whose prefix fires.
spec fn prefix_places(rs: Seq<RouteView>, q: Seq<char>, n: int) -> Seq<int>
    decreases n,
{
    if n <= 0 {
        Seq::empty()
    } else {
        let rest = prefix_places(rs, q, n - 1);
        if longest_prefix(rs, n - 1, q) {
            rest.push(n - 1)
        } else {
            rest
        }
    }
}

proof fn lemma_fires(rs: Seq<RouteView>, i: int, q: Seq<char>)
    requires
        0 <= i < rs.len(),
    ensures
        prefix_fires(rs, rs[i], q) == longest_prefix(rs, i, q),
{
    assert forall|j: int| 0 <= j < rs.len() implies has_prefix(q, (#[trigger] rs[j]).value)
        == begins(rs[j], q) by {}
    if prefix_fires(rs, rs[i], q) {
        assert forall|j: int| 0 <= j < rs.len() && #[trigger] begins(rs[j], q) implies byte_len(
            rs[j].value,
        ) <= byte_len(rs[i].value) by {
            assert(has_prefix(q, rs[j].value));
        }
    }
}

#[verifier::rlimit(40)]
proof fn lemma_prefix_part(rs: Seq<RouteView>, q: Seq<char>, n: int)
    requires
        0 <= n <= rs.len(),
    ensures
        ({
            let h = prefix_hits(rs, rs.take(n), q);
            let p = prefix_places(rs, q, n);
            &&& rising(p, n as nat)
            &&& h.len() == p.len()
            &&& forall|i: int|
                0 <= i < n ==> (#[trigger] p.contains(i) <==> longest_prefix(rs, i, q))
            &&& forall|i: int|
                0 <= i < p.len() ==> {
                    let r = rs[p[i]];
                    &&& runs(#[trigger] h[i], r, h[i].input, 500)
                    &&& follows_prefix(q, r, h[i].input)
                }
        }),
    decreases n,
{
    if n > 0 {
        let m = n - 1;
        lemma_prefix_part(rs, q, m);
        lemma_fires(rs, m, q);
        let some = rs.take(n);
        assert(some.drop_last() =~= rs.take(m));
        assert(some.last() == rs[m]);
        let p0 = prefix_places(rs, q, m);
        let p = prefix_places(rs, q, n);
        let h0 = prefix_hits(rs, rs.take(m), q);
        let h = prefix_hits(rs, some, q);
        assert forall|i: int| 0 <= i < n implies (#[trigger] p.contains(i) <==> longest_prefix(
            rs,
            i,
            q,
        )) by {
            if i < m {
                assert(p0.contains(i) <==> longest_prefix(rs, i, q));
                if p0.contains(i) {
                    let k = choose|k: int| 0 <= k < p0.len() && p0[k] == i;
                    assert(p[k] == i);
                }
                if p.contains(i) {
                    let k = choose|k: int| 0 <= k < p.len() && p[k] == i;
                    assert(p0[k] == i);
                }
            } else {
                if longest_prefix(rs, m, q) {
                    assert(p[p.len() - 1] == m);
                } else if p.contains(m) {
                    let k = choose|k: int| 0 <= k < p.len() && p[k] == m;
                    assert(p0[k] == m);
                }
            }
        }
        assert forall|i: int| 0 <= i < p.len() implies {
            let r = rs[p[i]];
            &&& runs(#[trigger] h[i], r, h[i].input, 500)
            &&& follows_prefix(q, r, h[i].input)
        } by {
            if i < p0.len() {
                assert(h[i] == h0[i] && p[i] == p0[i]);
            } else {
                let rest = q.skip(rs[m].value.len() as int);
                let from = trimming_cuts_the_white_ends(rest);
                assert(cut_out(rest, h[i].input, from));
            }
        }
    } else {
        assert(rs.take(0) =~= Seq::<RouteView>::empty());
    }
}

/// Whether the hits of a query are laid out: the command routes that it reaches,
/// then the prefix routes, then the regex routes, then all dynamic routes, the last
/// with the query as input and the short deadline.
pub open spec fn laid_out(
    index: IndexView,
    q: Seq<char>,
    hits: Seq<HitView>,
    commands: Seq<int>,
    points: Seq<u16>,
    prefixes: Seq<int>,
    regexes: Seq<int>,
) -> bool {
    let a = commands.len() as int;
    let b = a + prefixes.len();
    let c = b + regexes.len();
    &&& hits.len() == c + index.dynamics.len()
    &&& command_part(index.commands, q, hits.subrange(0, a), commands, points)
    &&& prefix_part(index.prefixes, q, hits.subrange(a, b), prefixes)
    &&& regex_part(index.regexes, q, hits.subrange(b, c), regexes)
    &&& forall|i: int|
        0 <= i < index.dynamics.len() ==> runs(
            hits[c + i],
            #[trigger] index.dynamics[i],
            q,
            100,
        )
}

/// A query that is not blank reaches the command routes that it names or matches,
/// best first, then those with the longest prefix that begins it, then those whose
/// regular expression matches it, then all dynamic routes. Each gets the query as
/// its input, without the white space around it; one with a prefix what follows the
/// prefix.
pub proof fn hits_are_laid_out_by_kind(index: IndexView, query: Seq<char>)
    requires
        trimmed(query).len() > 0,
    ensures
        exists|commands: Seq<int>, points: Seq<u16>, prefixes: Seq<int>, regexes: Seq<int>|
            #[trigger] laid_out(
                index,
                trimmed(query),
                query_hits(index, query),
                commands,
                points,
                prefixes,
                regexes,
            ),
{
    let q = trimmed(query);
    let hits = query_hits(index, query);
    let (commands, points) = lemma_command_part(index.commands, q);
    lemma_regex_part(index.regexes, q);
    lemma_prefix_part(index.prefixes, q, index.prefixes.len() as int);
    assert(index.prefixes.take(index.prefixes.len() as int) =~= index.prefixes);
    let prefixes = prefix_places(index.prefixes, q, index.prefixes.len() as int);
    let regexes = regex_places(index.regexes, q);
    let ch = command_hits(index.commands, q);
    let ph = prefix_hits(index.prefixes, index.prefixes, q);
    let rh = regex_hits(index.regexes, q);
    let dh = dynamic_hits(index.dynamics, q);
    let a = commands.len() as int;
    let b = a + prefixes.len();
    let c = b + regexes.len();
    assert(hits.subrange(0, a) =~= ch);
    assert(hits.subrange(a, b) =~= ph);
    assert(hits.subrange(b, c) =~= rh);
    assert forall|i: int| 0 <= i < index.dynamics.len() implies runs(
        hits[c + i],
        #[trigger] index.dynamics[i],
        q,
        100,
    ) by {
        assert(hits[c + i] == dh[i]);
    }
    assert(laid_out(index, q, hits, commands, points, prefixes, regexes));
}

/// A blank query reaches the dynamic routes and no others, without input.
pub proof fn blank_query_reaches_dynamic_routes(index: IndexView, query: Seq<char>)
    requires
        index.valid(),
        trimmed(query).len() == 0,
    ensures
        query_hits(index, query).len() == index.dynamics.len(),
        forall|i: int|
            0 <= i < index.dynamics.len() ==> runs(
                #[trigger] query_hits(index, query)[i],
                index.dynamics[i],
                Seq::empty(),
                100,
            ),
{
}

/// Whether the input of a hit is what its route hands on of a query that is not
/// blank.
pub open spec fn handed_on(r: RouteView, q: Seq<char>, h: HitView) -> bool {
    match r.kind {
        TriggerType::Command | TriggerType::Regex => runs(h, r, q, 500),
        TriggerType::Dynamic => runs(h, r, q, 100),
        TriggerType::Prefix => {
            &&& runs(h, r, h.input, 500)
            &&& begins(r, q)
            &&& follows_prefix(q, r, h.input)
        },
    }
}

/// Every hit of a query comes from a route, and its input is the one for that kind
/// of route: the whole query, or what follows the prefix.
pub proof fn each_hit_gets_its_input(index: IndexView, query: Seq<char>, n: int)
    requires
        index.valid(),
        trimmed(query).len() > 0,
        0 <= n < query_hits(index, query).len(),
    ensures
        exists|r: RouteView|
            (index.commands.contains(r) || index.prefixes.contains(r) || index.regexes.contains(r)
                || index.dynamics.contains(r)) && #[trigger] handed_on(
                r,
                trimmed(query),
                query_hits(index, query)[n],
            ),
{
    hits_are_laid_out_by_kind(index, query);
    let q = trimmed(query);
    let hits = query_hits(index, query);
    let (commands, points, prefixes, regexes) = choose|
        commands: Seq<int>,
        points: Seq<u16>,
        prefixes: Seq<int>,
        regexes: Seq<int>,
    | #[trigger] laid_out(index, q, hits, commands, points, prefixes, regexes);
    let a = commands.len() as int;
    let b = a + prefixes.len();
    let c = b + regexes.len();
    if n < a {
        assert(hits.subrange(0, a)[n] == hits[n]);
        let r = index.commands[commands[n]];
        assert(r.kind == TriggerType::Command);
        assert(index.commands.contains(r) && handed_on(r, q, hits[n]));
    } else if n < b {
        assert(hits.subrange(a, b)[n - a] == hits[n]);
        let r = index.prefixes[prefixes[n - a]];
        assert(r.kind == TriggerType::Prefix);
        assert(prefixes.contains(prefixes[n - a]));
        assert(longest_prefix(index.prefixes, prefixes[n - a], q));
        assert(index.prefixes.contains(r) && handed_on(r, q, hits[n]));
    } else if n < c {
        assert(hits.subrange(b, c)[n - b] == hits[n]);
        let r = index.regexes[regexes[n - b]];
        assert(r.kind == TriggerType::Regex);
        assert(index.regexes.contains(r) && handed_on(r, q, hits[n]));
    } else {
        let r = index.dynamics[n - c];
        assert(r.kind == TriggerType::Dynamic);
        assert(index.dynamics.contains(r) && handed_on(r, q, hits[n]));
    }
}

/// Whether `r` is the route of the command `c` of a plugin.
pub open spec fn is_route_of(r: RouteView, plugin_id: Seq<char>, c: CommandView) -> bool {
    &&& r.plugin_id == plugin_id
    &&& r.command == c.name
    &&& r.title == c.title
    &&& r.kind == c.kind
    &&& r.value == (match c.value {
        Some(value) => value,
        None => Seq::empty(),
    })
    &&& r.detachable == c.detachable
    &&& r.haystacks == route_forms(c)
}

/// Whether the routes from `from` on are those of the commands of one kind, in the
/// order of the manifest.
pub open spec fn added_routes(
    routes: Seq<RouteView>,
    plugin_id: Seq<char>,
    cs: Seq<CommandView>,
    kind: TriggerType,
    places: Seq<int>,
) -> bool {
    &&& rising(places, cs.len())
    &&& routes.len() == places.len()
    &&& forall|i: int|
        0 <= i < cs.len() ==> (#[trigger] places.contains(i) <==> cs[i].kind == kind)
    &&& forall|i: int|
        0 <= i < places.len() ==> is_route_of(#[trigger] routes[i], plugin_id, cs[places[i]])
}

/// The places of the commands of one kind.
spec fn kind_places(cs: Seq<CommandView>, kind: TriggerType) -> Seq<int>
    decreases cs.len(),
{
    if cs.len() == 0 {
        Seq::empty()
    } else {
        let rest = kind_places(cs.drop_last(), kind);
        if cs.last().kind == kind {
            rest.push(cs.len() - 1)
        } else {
            rest
        }
    }
}

#[verifier::rlimit(40)]
proof fn lemma_added(plugin_id: Seq<char>, cs: Seq<CommandView>, kind: TriggerType)
    ensures
        added_routes(routes_of(plugin_id, cs, kind), plugin_id, cs, kind, kind_places(cs, kind)),
    decreases cs.len(),
{
    if cs.len() > 0 {
        let fewer = cs.drop_last();
        let n = cs.len() - 1;
        lemma_added(plugin_id, fewer, kind);
        let p0 = kind_places(fewer, kind);
        let p = kind_places(cs, kind);
        let r0 = routes_of(plugin_id, fewer, kind);
        let r = routes_of(plugin_id, cs, kind);
        assert forall|i: int| 0 <= i < cs.len() implies (#[trigger] p.contains(i) <==> cs[i].kind
            == kind) by {
            if i < n {
                assert(fewer[i] == cs[i]);
                assert(p0.contains(i) <==> fewer[i].kind == kind);
                if p0.contains(i) {
                    let k = choose|k: int| 0 <= k < p0.len() && p0[k] == i;
                    assert(p[k] == i);
                }
                if p.contains(i) {
                    let k = choose|k: int| 0 <= k < p.len() && p[k] == i;
                    assert(p0[k] == i);
                }
            } else {
                if cs[n].kind == kind {
                    assert(p[p.len() - 1] == n);
                } else if p.contains(n) {
                    let k = choose|k: int| 0 <= k < p.len() && p[k] == n;
                    assert(p0[k] == n);
                }
            }
        }
        assert forall|i: int| 0 <= i < p.len() implies is_route_of(
            #[trigger] r[i],
            plugin_id,
            cs[p[i]],
        ) by {
            if i < p0.len() {
                assert(r[i] == r0[i] && p[i] == p0[i]);
                assert(fewer[p0[i]] == cs[p0[i]]);
            }
        }
    }
}

/// The routes of a plugin's commands come behind those there were, in the table of
/// their kind and in the order of the manifest.
pub proof fn commands_become_routes(index: IndexView, plugin_id: Seq<char>, cs: Seq<CommandView>)
    ensures
        ({
            let next = with_plugin(index, plugin_id, cs);
            let n = index.commands.len() as int;
            &&& next.commands.len() >= n && next.commands.take(n) == index.commands
            &&& exists|places: Seq<int>|
                added_routes(
                    next.commands.skip(n),
                    plugin_id,
                    cs,
                    TriggerType::Command,
                    places,
                )
        }),
        ({
            let next = with_plugin(index, plugin_id, cs);
            let n = index.regexes.len() as int;
            &&& next.regexes.len() >= n && next.regexes.take(n) == index.regexes
            &&& exists|places: Seq<int>|
                added_routes(next.regexes.skip(n), plugin_id, cs, TriggerType::Regex, places)
        }),
        ({
            let next = with_plugin(index, plugin_id, cs);
            let n = index.dynamics.len() as int;
            &&& next.dynamics.len() >= n && next.dynamics.take(n) == index.dynamics
            &&& exists|places: Seq<int>|
                added_routes(
                    next.dynamics.skip(n),
                    plugin_id,
                    cs,
                    TriggerType::Dynamic,
                    places,
                )
        }),
{
    let next = with_plugin(index, plugin_id, cs);
    lemma_added(plugin_id, cs, TriggerType::Command);
    lemma_added(plugin_id, cs, TriggerType::Regex);
    lemma_added(plugin_id, cs, TriggerType::Dynamic);
    let a = index.commands.len() as int;
    let b = index.regexes.len() as int;
    let c = index.dynamics.len() as int;
    assert(next.commands.take(a) =~= index.commands);
    assert(next.regexes.take(b) =~= index.regexes);
    assert(next.dynamics.take(c) =~= index.dynamics);
    assert(next.commands.skip(a) =~= routes_of(plugin_id, cs, TriggerType::Command));
    assert(next.regexes.skip(b) =~= routes_of(plugin_id, cs, TriggerType::Regex));
    assert(next.dynamics.skip(c) =~= routes_of(plugin_id, cs, TriggerType::Dynamic));
}

/// Whether `routes` are `all`, those with the longest prefixes first, and those with
/// equally long ones as they stood.
pub open spec fn sorted_routes(
    routes: Seq<RouteView>,
    all: Seq<RouteView>,
    order: Seq<int>,
) -> bool {
    &&& routes.len() == all.len() && order.len() == all.len()
    &&& order.no_duplicates()
    &&& forall|i: int| 0 <= i < order.len() ==> 0 <= #[trigger] order[i] < all.len()
    &&& forall|i: int| 0 <= i < order.len() ==> #[trigger] routes[i] == all[order[i]]
    &&& forall|i: int, j: int|
        0 <= i < j < order.len() ==> byte_len(all[#[trigger] order[i]].value) > byte_len(
            all[#[trigger] order[j]].value,
        ) || (byte_len(all[order[i]].value) == byte_len(all[order[j]].value) && order[i]
            < order[j])
}

/// The prefix routes of a plugin's commands are sorted in among those there were,
/// the longest prefixes first.
pub proof fn prefix_routes_are_sorted_in(
    index: IndexView,
    plugin_id: Seq<char>,
    cs: Seq<CommandView>,
)
    ensures
        exists|added: Seq<RouteView>, places: Seq<int>, order: Seq<int>|
            added_routes(added, plugin_id, cs, TriggerType::Prefix, places)
                && #[trigger] sorted_routes(
                with_plugin(index, plugin_id, cs).prefixes,
                index.prefixes + added,
                order,
            ) && #[trigger] rising(places, cs.len()),
{
    lemma_added(plugin_id, cs, TriggerType::Prefix);
    let added = routes_of(plugin_id, cs, TriggerType::Prefix);
    let places = kind_places(cs, TriggerType::Prefix);
    let all = index.prefixes + added;
    let keys = prefix_lens(all);
    falling_order_exists(keys);
    let order = falling_order(keys);
    let routes = with_plugin(index, plugin_id, cs).prefixes;
    assert(routes == longest_first(all));
    assert forall|i: int, j: int| 0 <= i < j < order.len() implies byte_len(
        all[#[trigger] order[i]].value,
    ) > byte_len(all[#[trigger] order[j]].value) || (byte_len(all[order[i]].value) == byte_len(
        all[order[j]].value,
    ) && order[i] < order[j]) by {
        assert(crate::order::ahead(keys, order[i], order[j]));
    }
    assert forall|i: int, j: int| 0 <= i < order.len() && 0 <= j < order.len() && i
        != j implies order[i] != order[j] by {
        if i < j {
            assert(crate::order::ahead(keys, order[i], order[j]));
        } else {
            assert(crate::order::ahead(keys, order[j], order[i]));
        }
    }
    assert(routes =~= arranged(all, order));
    assert(sorted_routes(routes, all, order) && rising(places, cs.len()) && added_routes(
        added,
        plugin_id,
        cs,
        TriggerType::Prefix,
        places,
    ));
}

/// Whether `left` are the routes of `rs` that are not of the plugin, as they stood.
pub open spec fn kept_routes(
    left: Seq<RouteView>,
    rs: Seq<RouteView>,
    plugin_id: Seq<char>,
    places: Seq<int>,
) -> bool {
    &&& rising(places, rs.len())
    &&& left.len() == places.len()
    &&& forall|i: int|
        0 <= i < rs.len() ==> (#[trigger] places.contains(i) <==> rs[i].plugin_id != plugin_id)
    &&& forall|i: int| 0 <= i < places.len() ==> #[trigger] left[i] == rs[places[i]]
}

/// Whether `left` are the routes of `rs` that are not of the plugin.
pub open spec fn leaves_others(
    left: Seq<RouteView>,
    rs: Seq<RouteView>,
    plugin_id: Seq<char>,
) -> bool {
    exists|places: Seq<int>| kept_routes(left, rs, plugin_id, places)
}

spec fn other_places(rs: Seq<RouteView>, plugin_id: Seq<char>) -> Seq<int>
    decreases rs.len(),
{
    if rs.len() == 0 {
        Seq::empty()
    } else {
        let rest = other_places(rs.drop_last(), plugin_id);
        if rs.last().plugin_id != plugin_id {
            rest.push(rs.len() - 1)
        } else {
            rest
        }
    }
}

proof fn lemma_kept(rs: Seq<RouteView>, plugin_id: Seq<char>)
    ensures
        kept_routes(others(rs, plugin_id), rs, plugin_id, other_places(rs, plugin_id)),
    decreases rs.len(),
{
    if rs.len() > 0 {
        let fewer = rs.drop_last();
        let n = rs.len() - 1;
        lemma_kept(fewer, plugin_id);
        let p0 = other_places(fewer, plugin_id);
        let p = other_places(rs, plugin_id);
        let r0 = others(fewer, plugin_id);
        let r = others(rs, plugin_id);
        assert forall|i: int| 0 <= i < rs.len() implies (#[trigger] p.contains(i)
            <==> rs[i].plugin_id != plugin_id) by {
            if i < n {
                assert(fewer[i] == rs[i]);
                assert(p0.contains(i) <==> fewer[i].plugin_id != plugin_id);
                if p0.contains(i) {
                    let k = choose|k: int| 0 <= k < p0.len() && p0[k] == i;
                    assert(p[k] == i);
                }
                if p.contains(i) {
                    let k = choose|k: int| 0 <= k < p.len() && p[k] == i;
                    assert(p0[k] == i);
                }
            } else {
                if rs[n].plugin_id != plugin_id {
                    assert(p[p.len() - 1] == n);
                } else if p.contains(n) {
                    let k = choose|k: int| 0 <= k < p.len() && p[k] == n;
                    assert(p0[k] == n);
                }
            }
        }
        assert forall|i: int| 0 <= i < p.len() implies #[trigger] r[i] == rs[p[i]] by {
            if i < p0.len() {
                assert(r[i] == r0[i] && p[i] == p0[i]);
                assert(fewer[p0[i]] == rs[p0[i]]);
            }
        }
    }
}

/// Removing a plugin takes its own routes out of every table and leaves all others
/// as they stood.
pub proof fn removing_takes_only_its_routes(index: IndexView, plugin_id: Seq<char>)
    ensures
        leaves_others(without_plugin(index, plugin_id).commands, index.commands, plugin_id),
        leaves_others(without_plugin(index, plugin_id).prefixes, index.prefixes, plugin_id),
        leaves_others(without_plugin(index, plugin_id).regexes, index.regexes, plugin_id),
        leaves_others(without_plugin(index, plugin_id).dynamics, index.dynamics, plugin_id),
{
    lemma_kept(index.commands, plugin_id);
    lemma_kept(index.prefixes, plugin_id);
    lemma_kept(index.regexes, plugin_id);
    lemma_kept(index.dynamics, plugin_id);
}

/// All routes are listed without input, commands first, then prefixes, regular
/// expressions and dynamic routes, each with the deadline of its kind.
pub proof fn all_routes_are_listed(index: IndexView, n: int)
    requires
        index.valid(),
        0 <= n < index.commands.len() + index.prefixes.len() + index.regexes.len()
            + index.dynamics.len(),
    ensures
        all_hits(index).len() == index.commands.len() + index.prefixes.len() + index.regexes.len()
            + index.dynamics.len(),
        ({
            let a = index.commands.len() as int;
            let b = a + index.prefixes.len();
            let c = b + index.regexes.len();
            let h = all_hits(index)[n];
            if n < a {
                runs(h, index.commands[n], Seq::empty(), 500)
            } else if n < b {
                runs(h, index.prefixes[n - a], Seq::empty(), 500)
            } else if n < c {
                runs(h, index.regexes[n - b], Seq::empty(), 500)
            } else {
                runs(h, index.dynamics[n - c], Seq::empty(), 100)
            }
        }),
{
    let a = index.commands.len() as int;
    let b = a + index.prefixes.len();
    let c = b + index.regexes.len();
    if n < a {
        assert(index.commands[n].kind == TriggerType::Command);
    } else if n < b {
        assert(index.prefixes[n - a].kind == TriggerType::Prefix);
    } else if n < c {
        assert(index.regexes[n - b].kind == TriggerType::Regex);
    } else {
        assert(index.dynamics[n - c].kind == TriggerType::Dynamic);
    }
}

/// Whether two texts are the same to the matcher, whatever their case.
pub open spec fn alike(a: Seq<char>, b: Seq<char>) -> bool {
    lowercase(matcher_text(a)) == lowercase(matcher_text(b))
}

/// Whether one of the texts is like `t`.
pub open spec fn has_alike(texts: Seq<Seq<char>>, t: Seq<char>) -> bool {
    exists|i: int| 0 <= i < texts.len() && alike(#[trigger] texts[i], t)
}

#[verifier::rlimit(40)]
proof fn lemma_distinct_folded(s: Seq<Seq<char>>)
    ensures
        forall|i: int|
            0 <= i < distinct_folded(s).len() ==> s.contains(#[trigger] distinct_folded(s)[i]),
        forall|i: int| 0 <= i < s.len() ==> has_alike(distinct_folded(s), #[trigger] s[i]),
        forall|i: int, j: int|
            0 <= i < j < distinct_folded(s).len() ==> !alike(
                #[trigger] distinct_folded(s)[i],
                #[trigger] distinct_folded(s)[j],
            ),
        s.len() > 0 ==> distinct_folded(s).len() > 0 && distinct_folded(s)[0] == s[0],
        distinct_folded(s).len() <= s.len(),
    decreases s.len(),
{
    if s.len() > 0 {
        let rest = s.drop_last();
        let n = s.len() - 1;
        lemma_distinct_folded(rest);
        let d = distinct_folded(rest);
        let e = distinct_folded(s);
        let keys = fold_keys(d);
        assert forall|i: int| 0 <= i < e.len() implies s.contains(#[trigger] e[i]) by {
            if i < d.len() {
                assert(e[i] == d[i]);
                assert(rest.contains(d[i]));
                let k = choose|k: int| 0 <= k < rest.len() && rest[k] == d[i];
                assert(s[k] == e[i]);
            } else {
                assert(s[n] == e[i]);
            }
        }
        assert forall|i: int| 0 <= i < s.len() implies has_alike(e, #[trigger] s[i]) by {
            if i < n {
                assert(rest[i] == s[i]);
                assert(has_alike(d, rest[i]));
                let k = choose|k: int| 0 <= k < d.len() && alike(#[trigger] d[k], s[i]);
                assert(e[k] == d[k]);
                assert(alike(e[k], s[i]));
            } else if keys.contains(fold_key(s.last())) {
                let k = choose|k: int| 0 <= k < keys.len() && keys[k] == fold_key(s.last());
                assert(alike(e[k], s[n]));
            } else {
                assert(alike(e[e.len() - 1], s[n]));
            }
        }
        assert forall|i: int, j: int| 0 <= i < j < e.len() implies !alike(
            #[trigger] e[i],
            #[trigger] e[j],
        ) by {
            assert(e[i] == d[i]);
            if j < d.len() {
                assert(e[j] == d[j]);
            } else if alike(e[i], e[j]) {
                assert(keys[i] == fold_key(s.last()));
                assert(keys.contains(fold_key(s.last())));
            }
        }
    }
}

#[verifier::rlimit(40)]
proof fn lemma_all_forms(texts: Seq<Seq<char>>)
    ensures
        forall|t: Seq<char>| #[trigger]
            all_forms(texts).contains(t) ==> exists|i: int|
                0 <= i < texts.len() && search_forms(#[trigger] texts[i]).contains(t),
        forall|i: int, t: Seq<char>|
            0 <= i < texts.len() && #[trigger] search_forms(texts[i]).contains(t) ==> all_forms(
                texts,
            ).contains(t),
        texts.len() > 0 ==> all_forms(texts).len() > 0 && all_forms(texts)[0] == texts[0],
    decreases texts.len(),
{
    if texts.len() > 0 {
        let rest = texts.drop_last();
        let n = texts.len() - 1;
        let a = all_forms(rest);
        let b = search_forms(texts.last());
        lemma_all_forms(rest);
        assert(all_forms(texts) == a + b);
        assert forall|t: Seq<char>| #[trigger] all_forms(texts).contains(t) implies exists|i: int|
            0 <= i < texts.len() && search_forms(#[trigger] texts[i]).contains(t) by {
            let k = choose|k: int| 0 <= k < (a + b).len() && (a + b)[k] == t;
            if k < a.len() {
                assert(a[k] == t);
                assert(a.contains(t));
                let i = choose|i: int|
                    0 <= i < rest.len() && search_forms(#[trigger] rest[i]).contains(t);
                assert(search_forms(texts[i]).contains(t));
            } else {
                assert(b[k - a.len()] == t);
                assert(search_forms(texts[n]).contains(t));
            }
        }
        assert forall|i: int, t: Seq<char>|
            0 <= i < texts.len() && #[trigger] search_forms(texts[i]).contains(
                t,
            ) implies all_forms(texts).contains(t) by {
            if i < n {
                assert(rest[i] == texts[i]);
                assert(search_forms(rest[i]).contains(t));
                assert(a.contains(t));
                let k = choose|k: int| 0 <= k < a.len() && a[k] == t;
                assert((a + b)[k] == t);
            } else {
                let k = choose|k: int| 0 <= k < b.len() && b[k] == t;
                assert((a + b)[a.len() + k] == t);
            }
        }
        if n == 0 {
            lemma_first_form_is_the_text(texts[0]);
            assert((a + b)[0] == b[0]);
        } else {
            assert(rest[0] == texts[0]);
        }
    }
}

proof fn lemma_first_form_is_the_text(name: Seq<char>)
    ensures
        search_forms(name).len() > 0,
        search_forms(name)[0] == name,
{
    let s = seq![name] + crate::search::pinyin_forms(name);
    lemma_first_of_distinct(s);
    assert(s[0] == name);
}

proof fn lemma_first_of_distinct(s: Seq<Seq<char>>)
    requires
        s.len() > 0,
    ensures
        crate::search::distinct(s).len() > 0,
        crate::search::distinct(s)[0] == s[0],
    decreases s.len(),
{
    if s.len() > 1 {
        lemma_first_of_distinct(s.drop_last());
    } else {
        assert(crate::search::distinct(s.drop_last()).len() == 0);
    }
}

/// The texts of a command: its name, its title, then its keywords.
pub open spec fn own_text(c: CommandView, i: int) -> Seq<char> {
    if i == 0 {
        c.name
    } else if i == 1 {
        c.title
    } else {
        c.keywords[i - 2]
    }
}

/// A command is matched by its name, its title and its keywords: its search forms
/// begin with its name, each is a search form of one of these texts, no two are
/// alike, and there are at most 32. Where there are fewer, none is left out.
pub proof fn commands_are_matched_by_their_texts(c: CommandView, n: int)
    requires
        0 <= n < route_forms(c).len(),
    ensures
        1 <= route_forms(c).len() <= 32,
        route_forms(c)[0] == c.name,
        exists|i: int|
            0 <= i < 2 + c.keywords.len() && search_forms(#[trigger] own_text(c, i)).contains(
                route_forms(c)[n],
            ),
        forall|i: int, j: int|
            0 <= i < j < route_forms(c).len() ==> !alike(
                #[trigger] route_forms(c)[i],
                #[trigger] route_forms(c)[j],
            ),
        route_forms(c).len() < 32 ==> forall|i: int, t: Seq<char>|
            0 <= i < 2 + c.keywords.len() && #[trigger] search_forms(own_text(c, i)).contains(t)
                ==> has_alike(route_forms(c), t),
{
    let texts = command_texts(c);
    let all = all_forms(texts);
    lemma_all_forms(texts);
    lemma_distinct_folded(all);
    let d = distinct_folded(all);
    let kept = route_forms(c);
    assert(texts[0] == c.name);
    assert forall|i: int| 0 <= i < kept.len() implies #[trigger] kept[i] == d[i] by {}
    assert(all.contains(d[n]));
    let m = choose|i: int| 0 <= i < texts.len() && search_forms(#[trigger] texts[i]).contains(d[n]);
    assert(own_text(c, m) == texts[m]);
    assert(search_forms(own_text(c, m)).contains(kept[n]));
    if kept.len() < 32 {
        assert(kept == d);
        assert forall|i: int, t: Seq<char>|
            0 <= i < 2 + c.keywords.len() && #[trigger] search_forms(own_text(c, i)).contains(
                t,
            ) implies has_alike(kept, t) by {
            assert(own_text(c, i) == texts[i]);
            assert(search_forms(texts[i]).contains(t));
            assert(all.contains(t));
            let k = choose|k: int| 0 <= k < all.len() && all[k] == t;
            assert(has_alike(d, all[k]));
        }
    }
}

/// Whether a route stands in one of the tables.
pub open spec fn holds_route(index: IndexView, r: RouteView) -> bool {
    ||| index.commands.contains(r)
    ||| index.prefixes.contains(r)
    ||| index.regexes.contains(r)
    ||| index.dynamics.contains(r)
}

proof fn lemma_contains_sum(a: Seq<RouteView>, b: Seq<RouteView>, r: RouteView)
    ensures
        (a + b).contains(r) <==> a.contains(r) || b.contains(r),
{
    if a.contains(r) {
        let k = choose|k: int| 0 <= k < a.len() && a[k] == r;
        assert((a + b)[k] == r);
    }
    if b.contains(r) {
        let k = choose|k: int| 0 <= k < b.len() && b[k] == r;
        assert((a + b)[a.len() + k] == r);
    }
    if (a + b).contains(r) {
        let k = choose|k: int| 0 <= k < (a + b).len() && (a + b)[k] == r;
        if k < a.len() {
            assert(a[k] == r);
        } else {
            assert(b[k - a.len()] == r);
        }
    }
}

proof fn lemma_contains_sorted(rs: Seq<RouteView>, r: RouteView)
    ensures
        longest_first(rs).contains(r) <==> rs.contains(r),
{
    let keys = prefix_lens(rs);
    falling_order_exists(keys);
    let order = falling_order(keys);
    let sorted = longest_first(rs);
    if rs.contains(r) {
        let k = choose|k: int| 0 <= k < rs.len() && rs[k] == r;
        assert(order.contains(k));
        let m = choose|m: int| 0 <= m < order.len() && order[m] == k;
        assert(sorted[m] == r);
    }
    if sorted.contains(r) {
        let m = choose|m: int| 0 <= m < sorted.len() && sorted[m] == r;
        assert(rs[order[m]] == r);
    }
}

proof fn lemma_holds(index: IndexView, plugin_id: Seq<char>, cs: Seq<CommandView>, r: RouteView)
    ensures
        holds_route(with_plugin(index, plugin_id, cs), r) <==> holds_route(index, r) || exists|
            j: int,
        | 0 <= j < cs.len() && r == route_of(plugin_id, #[trigger] cs[j]),
{
    let a = routes_of(plugin_id, cs, TriggerType::Command);
    let b = routes_of(plugin_id, cs, TriggerType::Prefix);
    let c = routes_of(plugin_id, cs, TriggerType::Regex);
    let d = routes_of(plugin_id, cs, TriggerType::Dynamic);
    lemma_contains_sum(index.commands, a, r);
    lemma_contains_sum(index.prefixes, b, r);
    lemma_contains_sum(index.regexes, c, r);
    lemma_contains_sum(index.dynamics, d, r);
    lemma_contains_sorted(index.prefixes + b, r);
    lemma_routes_hold(plugin_id, cs, TriggerType::Command, r);
    lemma_routes_hold(plugin_id, cs, TriggerType::Prefix, r);
    lemma_routes_hold(plugin_id, cs, TriggerType::Regex, r);
    lemma_routes_hold(plugin_id, cs, TriggerType::Dynamic, r);
}

proof fn lemma_routes_hold(
    plugin_id: Seq<char>,
    cs: Seq<CommandView>,
    kind: TriggerType,
    r: RouteView,
)
    ensures
        routes_of(plugin_id, cs, kind).contains(r) <==> exists|j: int|
            0 <= j < cs.len() && (#[trigger] cs[j]).kind == kind && r == route_of(plugin_id, cs[j]),
    decreases cs.len(),
{
    if cs.len() > 0 {
        let fewer = cs.drop_last();
        let n = cs.len() - 1;
        let a = routes_of(plugin_id, fewer, kind);
        let b = routes_of(plugin_id, cs, kind);
        lemma_routes_hold(plugin_id, fewer, kind, r);
        if b.contains(r) {
            let k = choose|k: int| 0 <= k < b.len() && b[k] == r;
            if k < a.len() {
                assert(a[k] == r);
                let j = choose|j: int|
                    0 <= j < fewer.len() && (#[trigger] fewer[j]).kind == kind && r == route_of(
                        plugin_id,
                        fewer[j],
                    );
                assert(cs[j] == fewer[j]);
            } else {
                assert(cs[n].kind == kind);
            }
        }
        if exists|j: int|
            0 <= j < cs.len() && (#[trigger] cs[j]).kind == kind && r == route_of(plugin_id, cs[j]) {
            let j = choose|j: int|
                0 <= j < cs.len() && (#[trigger] cs[j]).kind == kind && r == route_of(
                    plugin_id,
                    cs[j],
                );
            if j < n {
                assert(fewer[j] == cs[j]);
                let k = choose|k: int| 0 <= k < a.len() && a[k] == r;
                assert(b[k] == r);
            } else {
                assert(b[b.len() - 1] == r);
            }
        }
    }
}

/// Whether `r` is the route of some command of one of the plugins.
pub open spec fn routed(metas: Seq<MetaView>, i: int, j: int, r: RouteView) -> bool {
    &&& 0 <= i < metas.len()
    &&& 0 <= j < metas[i].manifest.commands.len()
    &&& is_route_of(r, metas[i].manifest.id, metas[i].manifest.commands[j])
}

/// Every command of every plugin of a set has a route under the id of its plugin,
/// and there is no other route.
pub proof fn every_command_is_routed(metas: Seq<MetaView>, r: RouteView)
    ensures
        holds_route(routes_for(metas), r) <==> exists|i: int, j: int| #[trigger]
            routed(metas, i, j, r),
    decreases metas.len(),
{
    if metas.len() == 0 {
        assert(!holds_route(routes_for(metas), r));
    } else {
        let fewer = metas.drop_last();
        let n = metas.len() - 1;
        let m = metas.last();
        every_command_is_routed(fewer, r);
        lemma_holds(routes_for(fewer), m.manifest.id, m.manifest.commands, r);
        if holds_route(routes_for(metas), r) {
            if holds_route(routes_for(fewer), r) {
                let (i, j) = choose|i: int, j: int| #[trigger] routed(fewer, i, j, r);
                assert(routed(metas, i, j, r));
            } else {
                let j = choose|j: int|
                    0 <= j < m.manifest.commands.len() && r == route_of(
                        m.manifest.id,
                        #[trigger] m.manifest.commands[j],
                    );
                assert(routed(metas, n, j, r));
            }
        }
        if exists|i: int, j: int| #[trigger] routed(metas, i, j, r) {
            let (i, j) = choose|i: int, j: int| #[trigger] routed(metas, i, j, r);
            if i < n {
                assert(fewer[i] == metas[i]);
                assert(routed(fewer, i, j, r));
            } else {
                assert(r == route_of(m.manifest.id, m.manifest.commands[j]));
            }
        }
    }
}

} // verus!
