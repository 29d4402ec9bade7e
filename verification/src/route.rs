//! Trigger routing: which plugin commands may answer a query.
//!
//! Routing wakes no plugin. A command answers by its name (exactly, or fuzzily
//! like application search, over its title and keywords too), by a keyword
//! prefix (the longest one that matches), by a regular expression, or always.

use vstd::prelude::*;

use crate::manifest::{command_views, CommandView, PluginCommand, TriggerType};
use crate::order::{
    arranged, falling_order, falling_order_exists, ints, is_falling_order, order_falling,
    ordering_keeps_the_items, places,
};
use crate::pattern::{is_match, matches_somewhere, regex_problem};
use crate::search::{
    best_match, best_score, contains_text, first, matcher_text, matcher_text_of, new_matcher,
    search_forms, search_haystacks,
};
use crate::text::{
    byte_len, chars_of, chars_start_with, copy_opt, copy_strings, has_prefix, lowercase, opt_view,
    same, starts_with, string_of, trim, trimmed, utf8_len, views,
};

verus! {

/// The deadline of a command that is not dynamic, in milliseconds.
pub const STATIC_DEADLINE_MS: u64 = 500;

/// The deadline of a dynamic command, in milliseconds.
pub const DYNAMIC_DEADLINE_MS: u64 = 100;

/// Upper bound on the fuzzy search forms kept of one command.
pub const MAX_ROUTE_HAYSTACKS: usize = 32;

/// A command that a query reached, and the input to hand it.
#[derive(Debug, PartialEq, Eq)]
pub struct RouteHit {
    pub plugin_id: String,
    pub command: String,
    /// Human-readable command title (the row label before the view returns).
    pub title: String,
    /// Query text passed to the command: the text after the prefix for
    /// `prefix`, the full query for the others.
    pub input: String,
    /// Execution deadline the host must honor for this hit.
    pub deadline_ms: u64,
    /// Whether the command's view may be shown in a window of its own.
    pub detachable: bool,
}

/// What a [`RouteHit`] is.
pub struct HitView {
    pub plugin_id: Seq<char>,
    pub command: Seq<char>,
    pub title: Seq<char>,
    pub input: Seq<char>,
    pub deadline_ms: u64,
    pub detachable: bool,
}

impl View for RouteHit {
    type V = HitView;

    open spec fn view(&self) -> HitView {
        HitView {
            plugin_id: self.plugin_id@,
            command: self.command@,
            title: self.title@,
            input: self.input@,
            deadline_ms: self.deadline_ms,
            detachable: self.detachable,
        }
    }
}

impl Clone for RouteHit {
    fn clone(&self) -> (r: Self)
        ensures
            r == *self,
    {
        RouteHit {
            plugin_id: self.plugin_id.clone(),
            command: self.command.clone(),
            title: self.title.clone(),
            input: self.input.clone(),
            deadline_ms: self.deadline_ms,
            detachable: self.detachable,
        }
    }
}

/// The views of a list of hits.
pub open spec fn hit_views(v: Seq<RouteHit>) -> Seq<HitView> {
    v.map_values(|h: RouteHit| h@)
}

/// A command registered for routing.
pub struct Route {
    plugin_id: String,
    command: String,
    title: String,
    kind: TriggerType,
    value: Option<String>,
    detachable: bool,
    haystacks: Vec<String>,
}

/// What a [`Route`] is.
pub struct RouteView {
    pub plugin_id: Seq<char>,
    pub command: Seq<char>,
    pub title: Seq<char>,
    pub kind: TriggerType,
    /// Prefix or regular expression; empty where there is none.
    pub value: Seq<char>,
    pub detachable: bool,
    /// What a query is fuzzy-matched against.
    pub haystacks: Seq<Seq<char>>,
}

/// The text of an optional string, empty where there is none.
pub open spec fn text_or_empty(o: Option<Seq<char>>) -> Seq<char> {
    match o {
        Some(s) => s,
        None => Seq::empty(),
    }
}

impl View for Route {
    type V = RouteView;

    closed spec fn view(&self) -> RouteView {
        RouteView {
            plugin_id: self.plugin_id@,
            command: self.command@,
            title: self.title@,
            kind: self.kind,
            value: text_or_empty(opt_view(self.value)),
            detachable: self.detachable,
            haystacks: views(self.haystacks@),
        }
    }
}

/// The views of a list of routes.
pub open spec fn route_views(v: Seq<Route>) -> Seq<RouteView> {
    v.map_values(|r: Route| r@)
}

/// The routing tables of all loaded plugins.
pub struct RouteIndex {
    commands: Vec<Route>,
    /// Prefix routes by falling length of the prefix.
    prefixes: Vec<Route>,
    regexes: Vec<Route>,
    dynamics: Vec<Route>,
}

/// What a [`RouteIndex`] holds, by kind of trigger.
pub struct IndexView {
    pub commands: Seq<RouteView>,
    pub prefixes: Seq<RouteView>,
    pub regexes: Seq<RouteView>,
    pub dynamics: Seq<RouteView>,
}

impl View for RouteIndex {
    type V = IndexView;

    closed spec fn view(&self) -> IndexView {
        IndexView {
            commands: route_views(self.commands@),
            prefixes: route_views(self.prefixes@),
            regexes: route_views(self.regexes@),
            dynamics: route_views(self.dynamics@),
        }
    }
}

/// The index without routes.
pub open spec fn empty_index() -> IndexView {
    IndexView {
        commands: Seq::empty(),
        prefixes: Seq::empty(),
        regexes: Seq::empty(),
        dynamics: Seq::empty(),
    }
}

/// Whether all of the routes are of the given kind.
pub open spec fn all_of_kind(rs: Seq<RouteView>, kind: TriggerType) -> bool {
    forall|i: int| 0 <= i < rs.len() ==> (#[trigger] rs[i]).kind == kind
}

/// Whether no route has a longer prefix than one before it.
pub open spec fn by_length(rs: Seq<RouteView>) -> bool {
    forall|i: int, j: int|
        0 <= i < j < rs.len() ==> byte_len((#[trigger] rs[i]).value) >= byte_len(
            (#[trigger] rs[j]).value,
        )
}

impl IndexView {
    /// Every table holds routes of its own kind only, and the longest prefixes
    /// come first.
    pub open spec fn valid(self) -> bool {
        &&& all_of_kind(self.commands, TriggerType::Command)
        &&& all_of_kind(self.prefixes, TriggerType::Prefix)
        &&& all_of_kind(self.regexes, TriggerType::Regex)
        &&& all_of_kind(self.dynamics, TriggerType::Dynamic)
        &&& by_length(self.prefixes)
    }

    /// The number of routes.
    pub open spec fn count(self) -> nat {
        self.commands.len() + self.prefixes.len() + self.regexes.len() + self.dynamics.len()
    }
}

/// Texts that differ in case only, as far as the matcher sees them, have the same key.
pub open spec fn fold_key(s: Seq<char>) -> Seq<char> {
    lowercase(matcher_text(s))
}

/// The keys of a list of texts.
pub open spec fn fold_keys(s: Seq<Seq<char>>) -> Seq<Seq<char>> {
    s.map_values(|t: Seq<char>| fold_key(t))
}

/// The items of `s` without those whose key is that of an earlier one.
pub open spec fn distinct_folded(s: Seq<Seq<char>>) -> Seq<Seq<char>>
    decreases s.len(),
{
    if s.len() == 0 {
        s
    } else {
        let d = distinct_folded(s.drop_last());
        if fold_keys(d).contains(fold_key(s.last())) {
            d
        } else {
            d.push(s.last())
        }
    }
}

/// The search forms of all the texts, in order.
pub open spec fn all_forms(texts: Seq<Seq<char>>) -> Seq<Seq<char>>
    decreases texts.len(),
{
    if texts.len() == 0 {
        Seq::empty()
    } else {
        all_forms(texts.drop_last()) + search_forms(texts.last())
    }
}

/// The texts of a command that a query is matched against.
pub open spec fn command_texts(c: CommandView) -> Seq<Seq<char>> {
    seq![c.name, c.title] + c.keywords
}

/// The search forms of the name, the title and the keywords of a command, each
/// once whatever its case, up to the bound.
pub open spec fn route_forms(c: CommandView) -> Seq<Seq<char>> {
    first(distinct_folded(all_forms(command_texts(c))), MAX_ROUTE_HAYSTACKS as int)
}

/// The route of a command.
pub open spec fn route_of(plugin_id: Seq<char>, c: CommandView) -> RouteView {
    RouteView {
        plugin_id,
        command: c.name,
        title: c.title,
        kind: c.kind,
        value: text_or_empty(c.value),
        detachable: c.detachable,
        haystacks: route_forms(c),
    }
}

/// The routes of the commands with a trigger of the given kind, in order.
pub open spec fn routes_of(plugin_id: Seq<char>, cs: Seq<CommandView>, kind: TriggerType) -> Seq<
    RouteView,
>
    decreases cs.len(),
{
    if cs.len() == 0 {
        Seq::empty()
    } else {
        let rest = routes_of(plugin_id, cs.drop_last(), kind);
        if cs.last().kind == kind {
            rest.push(route_of(plugin_id, cs.last()))
        } else {
            rest
        }
    }
}

/// The lengths of the prefixes in bytes.
pub open spec fn prefix_lens(rs: Seq<RouteView>) -> Seq<int> {
    rs.map_values(|r: RouteView| byte_len(r.value) as int)
}

/// The routes by falling length of the prefix, with ties in place.
pub open spec fn longest_first(rs: Seq<RouteView>) -> Seq<RouteView> {
    arranged(rs, falling_order(prefix_lens(rs)))
}

/// The index with the routes of a plugin added.
pub open spec fn with_plugin(
    index: IndexView,
    plugin_id: Seq<char>,
    cs: Seq<CommandView>,
) -> IndexView {
    IndexView {
        commands: index.commands + routes_of(plugin_id, cs, TriggerType::Command),
        prefixes: longest_first(index.prefixes + routes_of(plugin_id, cs, TriggerType::Prefix)),
        regexes: index.regexes + routes_of(plugin_id, cs, TriggerType::Regex),
        dynamics: index.dynamics + routes_of(plugin_id, cs, TriggerType::Dynamic),
    }
}

/// The routes that are not of the given plugin, in order.
pub open spec fn others(rs: Seq<RouteView>, plugin_id: Seq<char>) -> Seq<RouteView>
    decreases rs.len(),
{
    if rs.len() == 0 {
        rs
    } else {
        let rest = others(rs.drop_last(), plugin_id);
        if rs.last().plugin_id == plugin_id {
            rest
        } else {
            rest.push(rs.last())
        }
    }
}

/// The index without the routes of a plugin.
pub open spec fn without_plugin(index: IndexView, plugin_id: Seq<char>) -> IndexView {
    IndexView {
        commands: others(index.commands, plugin_id),
        prefixes: others(index.prefixes, plugin_id),
        regexes: others(index.regexes, plugin_id),
        dynamics: others(index.dynamics, plugin_id),
    }
}

/// A hit of the route with the given input and deadline.
pub open spec fn hit(r: RouteView, input: Seq<char>, deadline_ms: u64) -> HitView {
    HitView {
        plugin_id: r.plugin_id,
        command: r.command,
        title: r.title,
        input,
        deadline_ms,
        detachable: r.detachable,
    }
}

/// A hit of the route without input.
pub open spec fn idle_hit(r: RouteView) -> HitView {
    hit(
        r,
        Seq::empty(),
        if r.kind == TriggerType::Dynamic {
            DYNAMIC_DEADLINE_MS
        } else {
            STATIC_DEADLINE_MS
        },
    )
}

/// All routes of an index.
pub open spec fn all_of(index: IndexView) -> Seq<RouteView> {
    index.commands + index.prefixes + index.regexes + index.dynamics
}

/// A hit without input for each route.
pub open spec fn all_hits(index: IndexView) -> Seq<HitView> {
    all_of(index).map_values(|r: RouteView| idle_hit(r))
}

/// Whether the query is the command, or the command and a space and more.
pub open spec fn names_command(command: Seq<char>, q: Seq<char>) -> bool {
    q == command || (has_prefix(q, command) && q.len() > command.len() && q[command.len() as int]
        == ' ')
}

/// The score of a query for a command route: the largest there is where it
/// names the command, else the best fuzzy score over its search forms.
pub open spec fn route_score(r: RouteView, q: Seq<char>) -> Option<u16> {
    if names_command(r.command, q) {
        Some(u16::MAX)
    } else {
        best_score(r.haystacks, lowercase(q))
    }
}

/// The command routes that the query matches, with their scores, in table order.
pub open spec fn scored_commands(rs: Seq<RouteView>, q: Seq<char>) -> Seq<(u16, HitView)>
    decreases rs.len(),
{
    if rs.len() == 0 {
        Seq::empty()
    } else {
        let rest = scored_commands(rs.drop_last(), q);
        match route_score(rs.last(), q) {
            Some(score) => rest.push((score, hit(rs.last(), q, STATIC_DEADLINE_MS))),
            None => rest,
        }
    }
}

/// The scores of scored hits.
pub open spec fn scores(s: Seq<(u16, HitView)>) -> Seq<int> {
    s.map_values(|p: (u16, HitView)| p.0 as int)
}

/// The hits of the command routes, by falling score, with ties in table order.
pub open spec fn command_hits(rs: Seq<RouteView>, q: Seq<char>) -> Seq<HitView> {
    let s = scored_commands(rs, q);
    arranged(s, falling_order(scores(s))).map_values(|p: (u16, HitView)| p.1)
}

/// Whether the prefix of `r` begins the query, and no longer prefix in `rs` does.
pub open spec fn prefix_fires(rs: Seq<RouteView>, r: RouteView, q: Seq<char>) -> bool {
    &&& has_prefix(q, r.value)
    &&& forall|j: int|
        0 <= j < rs.len() && has_prefix(q, #[trigger] rs[j].value) ==> byte_len(rs[j].value)
            <= byte_len(r.value)
}

/// The hits of those of `some` whose prefix fires among `rs`, in order, with
/// the trimmed text after the prefix as input.
pub open spec fn prefix_hits(rs: Seq<RouteView>, some: Seq<RouteView>, q: Seq<char>) -> Seq<HitView>
    decreases some.len(),
{
    if some.len() == 0 {
        Seq::empty()
    } else {
        let rest = prefix_hits(rs, some.drop_last(), q);
        let r = some.last();
        if prefix_fires(rs, r, q) {
            rest.push(hit(r, trimmed(q.skip(r.value.len() as int)), STATIC_DEADLINE_MS))
        } else {
            rest
        }
    }
}

/// The hits of the routes whose regular expression matches the query, in order.
pub open spec fn regex_hits(rs: Seq<RouteView>, q: Seq<char>) -> Seq<HitView>
    decreases rs.len(),
{
    if rs.len() == 0 {
        Seq::empty()
    } else {
        let rest = regex_hits(rs.drop_last(), q);
        if regex_problem(rs.last().value) is None && matches_somewhere(rs.last().value, q) {
            rest.push(hit(rs.last(), q, STATIC_DEADLINE_MS))
        } else {
            rest
        }
    }
}

/// The hits of the dynamic routes.
pub open spec fn dynamic_hits(rs: Seq<RouteView>, q: Seq<char>) -> Seq<HitView> {
    rs.map_values(|r: RouteView| hit(r, q, DYNAMIC_DEADLINE_MS))
}

/// The hits of a query: commands, then prefixes, then regular expressions, then
/// dynamic routes. A blank query reaches the dynamic routes only.
pub open spec fn query_hits(index: IndexView, query: Seq<char>) -> Seq<HitView> {
    let q = trimmed(query);
    if q.len() == 0 {
        index.dynamics.map_values(|r: RouteView| idle_hit(r))
    } else {
        command_hits(index.commands, q) + prefix_hits(index.prefixes, index.prefixes, q)
            + regex_hits(index.regexes, q) + dynamic_hits(index.dynamics, q)
    }
}

impl Route {
    /// A route with the same view.
    fn copied(&self) -> (r: Route)
        ensures
            r@ == self@,
    {
        Route {
            plugin_id: self.plugin_id.clone(),
            command: self.command.clone(),
            title: self.title.clone(),
            kind: self.kind,
            value: copy_opt(&self.value),
            detachable: self.detachable,
            haystacks: copy_strings(&self.haystacks),
        }
    }

    /// The prefix or regular expression, empty where there is none.
    fn value_text(&self) -> (r: String)
        ensures
            r@ == self@.value,
    {
        match &self.value {
            Some(value) => value.clone(),
            None => String::new(),
        }
    }

    /// A hit with the given input and deadline.
    fn hit_with(&self, input: String, deadline_ms: u64) -> (r: RouteHit)
        ensures
            r@ == hit(self@, input@, deadline_ms),
    {
        RouteHit {
            plugin_id: self.plugin_id.clone(),
            command: self.command.clone(),
            title: self.title.clone(),
            input,
            deadline_ms,
            detachable: self.detachable,
        }
    }
}

/// A hit without input.
fn hit_for(route: &Route) -> (r: RouteHit)
    ensures
        r@ == idle_hit(route@),
{
    let deadline_ms: u64 = match route.kind {
        TriggerType::Dynamic => DYNAMIC_DEADLINE_MS,
        _ => STATIC_DEADLINE_MS,
    };
    let input = String::new();
    assert(input@ =~= Seq::<char>::empty());
    route.hit_with(input, deadline_ms)
}

/// Whether the query is the command, or the command and a space and more, but
/// never the mere start of another word.
pub fn matches_command(command: &str, query: &str) -> (r: bool)
    ensures
        r == names_command(command@, query@),
{
    if same(query, command) {
        return true;
    }
    let q = chars_of(query);
    let c = chars_of(command);
    chars_start_with(&q, &c) && q.len() > c.len() && q[c.len()] == ' '
}

proof fn lemma_distinct_folded_prefix(s: Seq<Seq<char>>, k: int)
    requires
        0 <= k <= s.len(),
    ensures
        distinct_folded(s.take(k)).len() <= distinct_folded(s).len(),
        distinct_folded(s.take(k)) == distinct_folded(s).take(
            distinct_folded(s.take(k)).len() as int,
        ),
    decreases s.len(),
{
    if k == s.len() {
        assert(s.take(k) =~= s);
        assert(distinct_folded(s).take(distinct_folded(s).len() as int) =~= distinct_folded(s));
    } else {
        let t = s.drop_last();
        lemma_distinct_folded_prefix(t, k);
        assert(t.take(k) =~= s.take(k));
        let n = distinct_folded(s.take(k)).len() as int;
        assert(distinct_folded(s).take(n) =~= distinct_folded(t).take(n));
    }
}

proof fn lemma_all_forms_prefix(texts: Seq<Seq<char>>, k: int)
    requires
        0 <= k <= texts.len(),
    ensures
        all_forms(texts.take(k)).len() <= all_forms(texts).len(),
        all_forms(texts.take(k)) == all_forms(texts).take(all_forms(texts.take(k)).len() as int),
    decreases texts.len(),
{
    if k == texts.len() {
        assert(texts.take(k) =~= texts);
        assert(all_forms(texts).take(all_forms(texts).len() as int) =~= all_forms(texts));
    } else {
        let t = texts.drop_last();
        lemma_all_forms_prefix(t, k);
        assert(t.take(k) =~= texts.take(k));
        let n = all_forms(texts.take(k)).len() as int;
        assert(all_forms(texts).take(n) =~= all_forms(t).take(n));
    }
}

/// The search forms of the name, the title and the keywords of a command, each
/// once whatever its case, up to the bound.
fn route_haystacks(command: &PluginCommand) -> (r: Vec<String>)
    ensures
        views(r@) == route_forms(command@),
{
    let mut texts: Vec<String> = Vec::new();
    texts.push(command.name.clone());
    texts.push(command.title.clone());
    let mut keywords = copy_strings(&command.keywords);
    texts.append(&mut keywords);
    let ghost ts = command_texts(command@);
    assert(views(texts@) =~= ts);
    let ghost all = all_forms(ts);
    let mut keys: Vec<String> = Vec::new();
    let mut r: Vec<String> = Vec::new();
    assert(ts.take(0) =~= Seq::<Seq<char>>::empty());
    assert(all.take(0) =~= Seq::<Seq<char>>::empty());
    assert(views(r@) =~= Seq::<Seq<char>>::empty());
    assert(views(keys@) =~= fold_keys(views(r@)));
    let mut i: usize = 0;
    while i < texts.len()
        invariant
            i <= texts.len(),
            ts == views(texts@),
            ts == command_texts(command@),
            all == all_forms(ts),
            views(r@) == distinct_folded(all_forms(ts.take(i as int))),
            views(keys@) == fold_keys(views(r@)),
            r@.len() < MAX_ROUTE_HAYSTACKS,
        decreases texts.len() - i,
    {
        let variants = search_haystacks(texts[i].as_str());
        let ghost done = all_forms(ts.take(i as int));
        let ghost vs = views(variants@);
        proof {
            assert(ts.take(i + 1).drop_last() =~= ts.take(i as int));
            assert(ts.take(i + 1).last() == texts@[i as int]@);
            lemma_all_forms_prefix(ts, i + 1);
        }
        let mut j: usize = 0;
        assert(done + vs.take(0) =~= done);
        while j < variants.len()
            invariant
                j <= variants.len(),
                i < texts.len(),
                ts == views(texts@),
                ts == command_texts(command@),
                all == all_forms(ts),
                vs == views(variants@),
                all_forms(ts.take(i + 1)) == done + vs,
                (done + vs).len() <= all.len(),
                done + vs == all.take((done + vs).len() as int),
                views(r@) == distinct_folded(done + vs.take(j as int)),
                views(keys@) == fold_keys(views(r@)),
                r@.len() < MAX_ROUTE_HAYSTACKS,
            decreases variants.len() - j,
        {
            let shown = matcher_text_of(variants[j].as_str());
            let key = shown.as_str().to_lowercase();
            let ghost next = done + vs.take(j + 1);
            assert(next.drop_last() =~= done + vs.take(j as int));
            assert(next.last() == variants@[j as int]@);
            if !contains_text(&keys, key.as_str()) {
                let ghost before = views(r@);
                let ghost keys_before = views(keys@);
                r.push(variants[j].clone());
                keys.push(key);
                assert(views(r@) =~= before.push(variants@[j as int]@));
                assert(views(keys@) =~= keys_before.push(key@));
                assert(views(keys@) =~= fold_keys(views(r@)));
                if r.len() >= MAX_ROUTE_HAYSTACKS {
                    proof {
                        assert(next =~= all.take(next.len() as int)) by {
                            assert forall|k: int| 0 <= k < next.len() implies next[k] == all[k] by {
                                assert(next[k] == (done + vs)[k]);
                                assert(all.take((done + vs).len() as int)[k] == all[k]);
                            }
                        }
                        lemma_distinct_folded_prefix(all, next.len() as int);
                        let d = distinct_folded(all);
                        if d.len() == MAX_ROUTE_HAYSTACKS {
                            assert(d.take(MAX_ROUTE_HAYSTACKS as int) =~= d);
                        }
                    }
                    return r;
                }
            }
            j += 1;
        }
        assert(vs.take(vs.len() as int) =~= vs);
        i += 1;
    }
    assert(ts.take(ts.len() as int) =~= ts);
    r
}

/// The routes by falling length of the prefix, with ties in place.
fn sort_prefixes(routes: &Vec<Route>) -> (r: Vec<Route>)
    ensures
        route_views(r@) == longest_first(route_views(routes@)),
{
    let ghost rs = route_views(routes@);
    let mut keys: Vec<u64> = Vec::new();
    let mut i: usize = 0;
    while i < routes.len()
        invariant
            i <= routes.len(),
            rs == route_views(routes@),
            keys@.len() == i,
            forall|j: int| 0 <= j < i ==> #[trigger] keys@[j] == byte_len(rs[j].value),
        decreases routes.len() - i,
    {
        let value = routes[i].value_text();
        let n: usize = utf8_len(value.as_str());
        keys.push(n as u64);
        i += 1;
    }
    assert(ints(keys@) =~= prefix_lens(rs));
    let order = order_falling(&keys);
    let ghost want = longest_first(rs);
    let mut r: Vec<Route> = Vec::new();
    let mut i: usize = 0;
    while i < order.len()
        invariant
            i <= order.len(),
            rs == route_views(routes@),
            want == longest_first(rs),
            places(order@) == falling_order(prefix_lens(rs)),
            is_falling_order(prefix_lens(rs), places(order@)),
            r@.len() == i,
            forall|j: int| 0 <= j < i ==> (#[trigger] r@[j])@ == want[j],
        decreases order.len() - i,
    {
        assert(places(order@)[i as int] == order@[i as int]);
        r.push(routes[order[i]].copied());
        i += 1;
    }
    assert(route_views(r@) =~= want);
    r
}

/// The routes that are not of the given plugin, in order.
fn keep_others(routes: &Vec<Route>, plugin_id: &str) -> (r: Vec<Route>)
    ensures
        route_views(r@) == others(route_views(routes@), plugin_id@),
{
    let ghost rs = route_views(routes@);
    let mut r: Vec<Route> = Vec::new();
    assert(rs.take(0) =~= Seq::<RouteView>::empty());
    assert(route_views(r@) =~= Seq::<RouteView>::empty());
    let mut i: usize = 0;
    while i < routes.len()
        invariant
            i <= routes.len(),
            rs == route_views(routes@),
            route_views(r@) == others(rs.take(i as int), plugin_id@),
        decreases routes.len() - i,
    {
        assert(rs.take(i + 1).drop_last() =~= rs.take(i as int));
        assert(rs.take(i + 1).last() == routes@[i as int]@);
        if !same(routes[i].plugin_id.as_str(), plugin_id) {
            let ghost before = route_views(r@);
            r.push(routes[i].copied());
            assert(route_views(r@) =~= before.push(routes@[i as int]@));
        }
        i += 1;
    }
    assert(rs.take(rs.len() as int) =~= rs);
    r
}

/// Hits of all the routes, without input.
fn idle_hits(routes: &Vec<Route>) -> (r: Vec<RouteHit>)
    ensures
        hit_views(r@) == route_views(routes@).map_values(|r: RouteView| idle_hit(r)),
{
    let mut r: Vec<RouteHit> = Vec::new();
    let mut i: usize = 0;
    while i < routes.len()
        invariant
            i <= routes.len(),
            r@.len() == i,
            forall|j: int| 0 <= j < i ==> (#[trigger] r@[j])@ == idle_hit(routes@[j]@),
        decreases routes.len() - i,
    {
        r.push(hit_for(&routes[i]));
        i += 1;
    }
    assert(hit_views(r@) =~= route_views(routes@).map_values(|r: RouteView| idle_hit(r)));
    r
}

/// The hits of the command routes, best first.
fn match_commands(routes: &Vec<Route>, q: &str) -> (r: Vec<RouteHit>)
    ensures
        hit_views(r@) == command_hits(route_views(routes@), q@),
{
    let ghost rs = route_views(routes@);
    let mut matcher = new_matcher();
    let needle = q.to_lowercase();
    let mut keys: Vec<u64> = Vec::new();
    let mut hits: Vec<RouteHit> = Vec::new();
    assert(rs.take(0) =~= Seq::<RouteView>::empty());
    let mut i: usize = 0;
    while i < routes.len()
        invariant
            i <= routes.len(),
            rs == route_views(routes@),
            needle@ == lowercase(q@),
            ({
                let s = scored_commands(rs.take(i as int), q@);
                &&& keys@.len() == s.len()
                &&& hits@.len() == s.len()
                &&& forall|j: int| 0 <= j < s.len() ==> #[trigger] keys@[j] == s[j].0
                &&& forall|j: int| 0 <= j < s.len() ==> (#[trigger] hits@[j])@ == s[j].1
            }),
        decreases routes.len() - i,
    {
        let route = &routes[i];
        assert(rs.take(i + 1).drop_last() =~= rs.take(i as int));
        assert(rs.take(i + 1).last() == route@);
        let score = if matches_command(route.command.as_str(), q) {
            Some(u16::MAX)
        } else {
            best_match(&mut matcher, &route.haystacks, needle.as_str())
        };
        if let Some(score) = score {
            keys.push(score as u64);
            hits.push(route.hit_with(q.to_owned(), STATIC_DEADLINE_MS));
        }
        i += 1;
    }
    assert(rs.take(rs.len() as int) =~= rs);
    let ghost s = scored_commands(rs, q@);
    assert(ints(keys@) =~= scores(s));
    let order = order_falling(&keys);
    let ghost want = command_hits(rs, q@);
    let mut r: Vec<RouteHit> = Vec::new();
    let mut i: usize = 0;
    while i < order.len()
        invariant
            i <= order.len(),
            s == scored_commands(rs, q@),
            want == command_hits(rs, q@),
            hits@.len() == s.len(),
            forall|j: int| 0 <= j < s.len() ==> (#[trigger] hits@[j])@ == s[j].1,
            places(order@) == falling_order(scores(s)),
            is_falling_order(scores(s), places(order@)),
            r@.len() == i,
            forall|j: int| 0 <= j < i ==> (#[trigger] r@[j])@ == want[j],
        decreases order.len() - i,
    {
        assert(places(order@)[i as int] == order@[i as int]);
        r.push(hits[order[i]].clone());
        i += 1;
    }
    assert(hit_views(r@) =~= want);
    r
}

/// The hits of the prefix routes: those with the longest prefix that matches.
fn match_prefixes(routes: &Vec<Route>, q: &str) -> (r: Vec<RouteHit>)
    ensures
        hit_views(r@) == prefix_hits(route_views(routes@), route_views(routes@), q@),
{
    let ghost rs = route_views(routes@);
    let chars = chars_of(q);
    let mut longest: usize = 0;
    let mut i: usize = 0;
    while i < routes.len()
        invariant
            i <= routes.len(),
            rs == route_views(routes@),
            forall|j: int|
                0 <= j < i && has_prefix(q@, #[trigger] rs[j].value) ==> byte_len(rs[j].value)
                    <= longest,
            longest == 0 || exists|j: int|
                0 <= j < i && has_prefix(q@, #[trigger] rs[j].value) && byte_len(rs[j].value)
                    == longest,
        decreases routes.len() - i,
    {
        let value = routes[i].value_text();
        assert(value@ == rs[i as int].value);
        let n: usize = utf8_len(value.as_str());
        if starts_with(q, value.as_str()) && n > longest {
            longest = n;
        }
        i += 1;
    }
    let mut r: Vec<RouteHit> = Vec::new();
    assert(rs.take(0) =~= Seq::<RouteView>::empty());
    assert(hit_views(r@) =~= Seq::<HitView>::empty());
    let mut i: usize = 0;
    while i < routes.len()
        invariant
            i <= routes.len(),
            rs == route_views(routes@),
            chars@ == q@,
            forall|j: int|
                0 <= j < rs.len() && has_prefix(q@, #[trigger] rs[j].value) ==> byte_len(
                    rs[j].value,
                ) <= longest,
            longest == 0 || exists|j: int|
                0 <= j < rs.len() && has_prefix(q@, #[trigger] rs[j].value) && byte_len(
                    rs[j].value,
                ) == longest,
            hit_views(r@) == prefix_hits(rs, rs.take(i as int), q@),
        decreases routes.len() - i,
    {
        let value = routes[i].value_text();
        assert(rs.take(i + 1).drop_last() =~= rs.take(i as int));
        assert(rs.take(i + 1).last() == routes@[i as int]@);
        assert(value@ == rs[i as int].value);
        let n: usize = utf8_len(value.as_str());
        if starts_with(q, value.as_str()) && n == longest {
            let rest = string_of(&chars, value.as_str().unicode_len(), chars.len());
            assert(rest@ =~= q@.skip(value@.len() as int));
            let ghost before = hit_views(r@);
            let h = routes[i].hit_with(trim(rest.as_str()), STATIC_DEADLINE_MS);
            r.push(h);
            assert(hit_views(r@) =~= before.push(h@));
        } else {
            assert(!prefix_fires(rs, rs[i as int], q@));
        }
        i += 1;
    }
    assert(rs.take(rs.len() as int) =~= rs);
    r
}

/// The hits of the routes whose regular expression matches.
fn match_regexes(routes: &Vec<Route>, q: &str) -> (r: Vec<RouteHit>)
    ensures
        hit_views(r@) == regex_hits(route_views(routes@), q@),
{
    let ghost rs = route_views(routes@);
    let mut r: Vec<RouteHit> = Vec::new();
    assert(rs.take(0) =~= Seq::<RouteView>::empty());
    assert(hit_views(r@) =~= Seq::<HitView>::empty());
    let mut i: usize = 0;
    while i < routes.len()
        invariant
            i <= routes.len(),
            rs == route_views(routes@),
            hit_views(r@) == regex_hits(rs.take(i as int), q@),
        decreases routes.len() - i,
    {
        let pattern = routes[i].value_text();
        assert(rs.take(i + 1).drop_last() =~= rs.take(i as int));
        assert(rs.take(i + 1).last() == routes@[i as int]@);
        if is_match(pattern.as_str(), q) {
            let ghost before = hit_views(r@);
            let h = routes[i].hit_with(q.to_owned(), STATIC_DEADLINE_MS);
            r.push(h);
            assert(hit_views(r@) =~= before.push(h@));
        }
        i += 1;
    }
    assert(rs.take(rs.len() as int) =~= rs);
    r
}

/// The hits of the dynamic routes.
fn match_dynamics(routes: &Vec<Route>, q: &str) -> (r: Vec<RouteHit>)
    ensures
        hit_views(r@) == dynamic_hits(route_views(routes@), q@),
{
    let mut r: Vec<RouteHit> = Vec::new();
    let mut i: usize = 0;
    while i < routes.len()
        invariant
            i <= routes.len(),
            r@.len() == i,
            forall|j: int|
                0 <= j < i ==> (#[trigger] r@[j])@ == hit(routes@[j]@, q@, DYNAMIC_DEADLINE_MS),
        decreases routes.len() - i,
    {
        r.push(routes[i].hit_with(q.to_owned(), DYNAMIC_DEADLINE_MS));
        i += 1;
    }
    assert(hit_views(r@) =~= dynamic_hits(route_views(routes@), q@));
    r
}

/// Appends all of `b` to `a`.
fn append_hits(a: &mut Vec<RouteHit>, b: Vec<RouteHit>)
    ensures
        hit_views(final(a)@) == hit_views(old(a)@) + hit_views(b@),
{
    let ghost added = hit_views(b@);
    let mut b = b;
    a.append(&mut b);
    assert(hit_views(a@) =~= hit_views(old(a)@) + added);
}

/// Appends a route.
fn push_route(routes: &mut Vec<Route>, route: Route)
    ensures
        route_views(final(routes)@) == route_views(old(routes)@).push(route@),
{
    routes.push(route);
    assert(route_views(routes@) =~= route_views(old(routes)@).push(route@));
}

impl RouteIndex {
    #[verifier::type_invariant]
    closed spec fn inv(self) -> bool {
        self@.valid()
    }

    /// The index without routes.
    pub fn new() -> (r: Self)
        ensures
            r@ == empty_index(),
            r@.valid(),
    {
        let none: Vec<Route> = Vec::new();
        assert(route_views(none@) =~= Seq::<RouteView>::empty());
        let r = RouteIndex {
            commands: none,
            prefixes: Vec::new(),
            regexes: Vec::new(),
            dynamics: Vec::new(),
        };
        assert(r@.commands =~= Seq::<RouteView>::empty());
        assert(r@.prefixes =~= Seq::<RouteView>::empty());
        assert(r@.regexes =~= Seq::<RouteView>::empty());
        assert(r@.dynamics =~= Seq::<RouteView>::empty());
        r
    }

    /// Registers every command of a plugin. Routes of different plugins may
    /// overlap; all that match fire.
    pub fn add_plugin(&mut self, plugin_id: &str, commands: &[PluginCommand])
        ensures
            final(self)@ == with_plugin(old(self)@, plugin_id@, command_views(commands@)),
            final(self)@.valid(),
    {
        let ghost cs = command_views(commands@);
        let ghost before = self@;
        proof {
            use_type_invariant(&*self);
            adding_keeps_the_index_valid(before, plugin_id@, cs);
        }
        let mut tables = RouteIndex::new();
        core::mem::swap(self, &mut tables);
        let mut by_name = tables.commands;
        let mut by_prefix = tables.prefixes;
        let mut by_regex = tables.regexes;
        let mut always = tables.dynamics;
        let mut i: usize = 0;
        proof {
            assert(cs.take(0) =~= Seq::<CommandView>::empty());
            assert(before.commands + Seq::<RouteView>::empty() =~= before.commands);
            assert(before.prefixes + Seq::<RouteView>::empty() =~= before.prefixes);
            assert(before.regexes + Seq::<RouteView>::empty() =~= before.regexes);
            assert(before.dynamics + Seq::<RouteView>::empty() =~= before.dynamics);
        }
        while i < commands.len()
            invariant
                i <= commands.len(),
                cs == command_views(commands@),
                route_views(by_name@) == before.commands + routes_of(
                    plugin_id@,
                    cs.take(i as int),
                    TriggerType::Command,
                ),
                route_views(by_prefix@) == before.prefixes + routes_of(
                    plugin_id@,
                    cs.take(i as int),
                    TriggerType::Prefix,
                ),
                route_views(by_regex@) == before.regexes + routes_of(
                    plugin_id@,
                    cs.take(i as int),
                    TriggerType::Regex,
                ),
                route_views(always@) == before.dynamics + routes_of(
                    plugin_id@,
                    cs.take(i as int),
                    TriggerType::Dynamic,
                ),
            decreases commands.len() - i,
        {
            let command = &commands[i];
            let route = Route {
                plugin_id: plugin_id.to_owned(),
                command: command.name.clone(),
                title: command.title.clone(),
                kind: command.trigger.kind,
                value: copy_opt(&command.trigger.value),
                detachable: command.detachable,
                haystacks: route_haystacks(command),
            };
            let ghost so_far = cs.take(i as int);
            let ghost next = cs.take(i + 1);
            assert(next.drop_last() =~= so_far);
            assert(next.last() == command@);
            assert(route@ == route_of(plugin_id@, command@));
            match command.trigger.kind {
                TriggerType::Command => push_route(&mut by_name, route),
                TriggerType::Prefix => push_route(&mut by_prefix, route),
                TriggerType::Regex => push_route(&mut by_regex, route),
                TriggerType::Dynamic => push_route(&mut always, route),
            }
            proof {
                assert(route_views(by_name@) =~= before.commands + routes_of(
                    plugin_id@,
                    next,
                    TriggerType::Command,
                ));
                assert(route_views(by_prefix@) =~= before.prefixes + routes_of(
                    plugin_id@,
                    next,
                    TriggerType::Prefix,
                ));
                assert(route_views(by_regex@) =~= before.regexes + routes_of(
                    plugin_id@,
                    next,
                    TriggerType::Regex,
                ));
                assert(route_views(always@) =~= before.dynamics + routes_of(
                    plugin_id@,
                    next,
                    TriggerType::Dynamic,
                ));
            }
            i += 1;
        }
        assert(cs.take(cs.len() as int) =~= cs);
        *self = RouteIndex {
            commands: by_name,
            prefixes: sort_prefixes(&by_prefix),
            regexes: by_regex,
            dynamics: always,
        };
    }

    /// Drops every route of a plugin.
    pub fn remove_plugin(&mut self, plugin_id: &str)
        ensures
            final(self)@ == without_plugin(old(self)@, plugin_id@),
            final(self)@.valid(),
    {
        proof {
            use_type_invariant(&*self);
            removing_keeps_the_index_valid(self@, plugin_id@);
        }
        let commands = keep_others(&self.commands, plugin_id);
        let prefixes = keep_others(&self.prefixes, plugin_id);
        let regexes = keep_others(&self.regexes, plugin_id);
        let dynamics = keep_others(&self.dynamics, plugin_id);
        *self = RouteIndex { commands, prefixes, regexes, dynamics };
    }

    /// Drops all routes.
    pub fn clear(&mut self)
        ensures
            final(self)@ == empty_index(),
            final(self)@.valid(),
    {
        *self = RouteIndex::new();
    }

    /// The number of routes of all kinds.
    pub fn len(&self) -> (r: usize)
        requires
            self@.count() <= usize::MAX,
        ensures
            r == self@.count(),
    {
        self.commands.len() + self.prefixes.len() + self.regexes.len() + self.dynamics.len()
    }

    /// Whether there are no routes.
    pub fn is_empty(&self) -> (r: bool)
        ensures
            r == (self@.count() == 0),
    {
        self.commands.len() == 0 && self.prefixes.len() == 0 && self.regexes.len() == 0
            && self.dynamics.len() == 0
    }

    /// The hits of a query, in order of precedence.
    pub fn match_query(&self, query: &str) -> (r: Vec<RouteHit>)
        ensures
            hit_views(r@) == query_hits(self@, query@),
            self@.valid(),
    {
        proof {
            use_type_invariant(self);
        }
        let q = trim(query);
        let q = q.as_str();
        if q.unicode_len() == 0 {
            return idle_hits(&self.dynamics);
        }
        let mut hits = match_commands(&self.commands, q);
        append_hits(&mut hits, match_prefixes(&self.prefixes, q));
        append_hits(&mut hits, match_regexes(&self.regexes, q));
        append_hits(&mut hits, match_dynamics(&self.dynamics, q));
        hits
    }

    /// Hits of all routes, whatever the query, without input.
    pub fn all_routes(&self) -> (r: Vec<RouteHit>)
        ensures
            hit_views(r@) == all_hits(self@),
            self@.valid(),
    {
        proof {
            use_type_invariant(self);
        }
        let mut hits = idle_hits(&self.commands);
        append_hits(&mut hits, idle_hits(&self.prefixes));
        append_hits(&mut hits, idle_hits(&self.regexes));
        append_hits(&mut hits, idle_hits(&self.dynamics));
        assert(hit_views(hits@) =~= all_hits(self@));
        hits
    }
}

impl Default for RouteIndex {
    fn default() -> (r: Self)
        ensures
            r@ == empty_index(),
    {
        RouteIndex::new()
    }
}

/// Whether `h` is a hit of one of the routes.
pub open spec fn hit_of_some(h: HitView, rs: Seq<RouteView>) -> bool {
    exists|i: int|
        0 <= i < rs.len() && (#[trigger] rs[i]).plugin_id == h.plugin_id && rs[i].command == h.command
            && rs[i].title == h.title && rs[i].detachable == h.detachable
}

proof fn lemma_hit_of_more(h: HitView, rs: Seq<RouteView>, all: Seq<RouteView>, offset: int)
    requires
        hit_of_some(h, rs),
        0 <= offset,
        offset + rs.len() <= all.len(),
        forall|i: int| 0 <= i < rs.len() ==> #[trigger] rs[i] == all[i + offset],
    ensures
        hit_of_some(h, all),
{
    let i = choose|i: int|
        0 <= i < rs.len() && (#[trigger] rs[i]).plugin_id == h.plugin_id && rs[i].command == h.command
            && rs[i].title == h.title && rs[i].detachable == h.detachable;
    assert(rs[i] == all[i + offset]);
}

proof fn lemma_scored_commands(rs: Seq<RouteView>, q: Seq<char>)
    ensures
        forall|i: int|
            0 <= i < scored_commands(rs, q).len() ==> hit_of_some(
                (#[trigger] scored_commands(rs, q)[i]).1,
                rs,
            ),
    decreases rs.len(),
{
    if rs.len() > 0 {
        lemma_scored_commands(rs.drop_last(), q);
        let s = scored_commands(rs, q);
        assert forall|i: int| 0 <= i < s.len() implies hit_of_some((#[trigger] s[i]).1, rs) by {
            if i < scored_commands(rs.drop_last(), q).len() {
                assert(s[i] == scored_commands(rs.drop_last(), q)[i]);
                lemma_hit_of_more(s[i].1, rs.drop_last(), rs, 0);
            } else {
                assert(rs[rs.len() - 1].plugin_id == s[i].1.plugin_id);
            }
        }
    }
}

proof fn lemma_command_hits(rs: Seq<RouteView>, q: Seq<char>)
    ensures
        forall|i: int|
            0 <= i < command_hits(rs, q).len() ==> hit_of_some(
                #[trigger] command_hits(rs, q)[i],
                rs,
            ),
{
    lemma_scored_commands(rs, q);
    let s = scored_commands(rs, q);
    falling_order_exists(scores(s));
    let order = falling_order(scores(s));
    assert forall|i: int| 0 <= i < command_hits(rs, q).len() implies hit_of_some(
        #[trigger] command_hits(rs, q)[i],
        rs,
    ) by {
        assert(0 <= order[i] < s.len());
        assert(command_hits(rs, q)[i] == s[order[i]].1);
    }
}

proof fn lemma_prefix_hits(rs: Seq<RouteView>, some: Seq<RouteView>, q: Seq<char>)
    ensures
        forall|i: int|
            0 <= i < prefix_hits(rs, some, q).len() ==> hit_of_some(
                #[trigger] prefix_hits(rs, some, q)[i],
                some,
            ),
    decreases some.len(),
{
    if some.len() > 0 {
        lemma_prefix_hits(rs, some.drop_last(), q);
        let s = prefix_hits(rs, some, q);
        assert forall|i: int| 0 <= i < s.len() implies hit_of_some(#[trigger] s[i], some) by {
            if i < prefix_hits(rs, some.drop_last(), q).len() {
                assert(s[i] == prefix_hits(rs, some.drop_last(), q)[i]);
                lemma_hit_of_more(s[i], some.drop_last(), some, 0);
            } else {
                assert(some[some.len() - 1].plugin_id == s[i].plugin_id);
            }
        }
    }
}

proof fn lemma_regex_hits(rs: Seq<RouteView>, q: Seq<char>)
    ensures
        forall|i: int|
            0 <= i < regex_hits(rs, q).len() ==> hit_of_some(#[trigger] regex_hits(rs, q)[i], rs),
    decreases rs.len(),
{
    if rs.len() > 0 {
        lemma_regex_hits(rs.drop_last(), q);
        let s = regex_hits(rs, q);
        assert forall|i: int| 0 <= i < s.len() implies hit_of_some(#[trigger] s[i], rs) by {
            if i < regex_hits(rs.drop_last(), q).len() {
                assert(s[i] == regex_hits(rs.drop_last(), q)[i]);
                lemma_hit_of_more(s[i], rs.drop_last(), rs, 0);
            } else {
                assert(rs[rs.len() - 1].plugin_id == s[i].plugin_id);
            }
        }
    }
}

/// Every hit of a query is a hit of some registered route.
pub proof fn hits_come_from_routes(index: IndexView, query: Seq<char>, n: int)
    requires
        0 <= n < query_hits(index, query).len(),
    ensures
        hit_of_some(query_hits(index, query)[n], all_of(index)),
{
    let q = trimmed(query);
    let hits = query_hits(index, query);
    let h = hits[n];
    let all = all_of(index);
    let nc = index.commands.len() as int;
    let np = index.prefixes.len() as int;
    let nr = index.regexes.len() as int;
    let off = nc + np + nr;
    if q.len() == 0 {
        assert(index.dynamics[n].plugin_id == h.plugin_id);
        lemma_hit_of_more(h, index.dynamics, all, off);
    } else {
        lemma_command_hits(index.commands, q);
        lemma_prefix_hits(index.prefixes, index.prefixes, q);
        lemma_regex_hits(index.regexes, q);
        let a = command_hits(index.commands, q);
        let b = prefix_hits(index.prefixes, index.prefixes, q);
        let c = regex_hits(index.regexes, q);
        if n < a.len() {
            assert(h == a[n]);
            lemma_hit_of_more(h, index.commands, all, 0);
        } else if n < a.len() + b.len() {
            assert(h == b[n - a.len()]);
            lemma_hit_of_more(h, index.prefixes, all, nc);
        } else if n < a.len() + b.len() + c.len() {
            assert(h == c[n - a.len() - b.len()]);
            lemma_hit_of_more(h, index.regexes, all, nc + np);
        } else {
            let k = n - a.len() - b.len() - c.len();
            assert(h == dynamic_hits(index.dynamics, q)[k]);
            assert(index.dynamics[k].plugin_id == h.plugin_id);
            lemma_hit_of_more(h, index.dynamics, all, off);
        }
    }
}

proof fn lemma_others(rs: Seq<RouteView>, plugin_id: Seq<char>)
    ensures
        forall|i: int|
            0 <= i < others(rs, plugin_id).len() ==> (#[trigger] others(rs, plugin_id)[i]).plugin_id
                != plugin_id,
    decreases rs.len(),
{
    if rs.len() > 0 {
        lemma_others(rs.drop_last(), plugin_id);
    }
}

/// Once a plugin is removed, no query reaches it.
pub proof fn removed_plugin_is_never_hit(
    index: IndexView,
    plugin_id: Seq<char>,
    query: Seq<char>,
    n: int,
)
    requires
        0 <= n < query_hits(without_plugin(index, plugin_id), query).len(),
    ensures
        query_hits(without_plugin(index, plugin_id), query)[n].plugin_id != plugin_id,
{
    let left = without_plugin(index, plugin_id);
    hits_come_from_routes(left, query, n);
    lemma_others(index.commands, plugin_id);
    lemma_others(index.prefixes, plugin_id);
    lemma_others(index.regexes, plugin_id);
    lemma_others(index.dynamics, plugin_id);
    let h = query_hits(left, query)[n];
    let all = all_of(left);
    let i = choose|i: int|
        0 <= i < all.len() && (#[trigger] all[i]).plugin_id == h.plugin_id && all[i].command
            == h.command && all[i].title == h.title && all[i].detachable == h.detachable;
    let nc = left.commands.len() as int;
    let np = left.prefixes.len() as int;
    let nr = left.regexes.len() as int;
    if i < nc {
        assert(all[i] == left.commands[i]);
    } else if i < nc + np {
        assert(all[i] == left.prefixes[i - nc]);
    } else if i < nc + np + nr {
        assert(all[i] == left.regexes[i - nc - np]);
    } else {
        assert(all[i] == left.dynamics[i - nc - np - nr]);
    }
}

/// Every dynamic route takes part in every query, with the short deadline.
pub proof fn dynamic_routes_always_take_part(index: IndexView, query: Seq<char>, n: int)
    requires
        index.valid(),
        0 <= n < index.dynamics.len(),
    ensures
        query_hits(index, query).contains(
            hit(index.dynamics[n], trimmed(query), DYNAMIC_DEADLINE_MS),
        ),
{
    let q = trimmed(query);
    let hits = query_hits(index, query);
    let want = hit(index.dynamics[n], q, DYNAMIC_DEADLINE_MS);
    if q.len() == 0 {
        assert(q =~= Seq::<char>::empty());
        assert(hits[n] == want);
    } else {
        let k = hits.len() - index.dynamics.len() + n;
        assert(hits[k] == want);
    }
}

proof fn lemma_bytes_add(a: Seq<char>, b: Seq<char>)
    ensures
        byte_len(a + b) == byte_len(a) + byte_len(b),
    decreases a.len(),
{
    if a.len() == 0 {
        assert(a + b =~= b);
    } else {
        assert((a + b).drop_first() =~= a.drop_first() + b);
        lemma_bytes_add(a.drop_first(), b);
    }
}

proof fn lemma_bytes_positive(a: Seq<char>)
    requires
        a.len() > 0,
    ensures
        byte_len(a) > 0,
{
    assert(vstd::utf8::encode_scalar(a[0] as u32).len() > 0);
}

/// Prefixes of one text that take equally many bytes are the same.
proof fn lemma_same_prefix(q: Seq<char>, a: Seq<char>, b: Seq<char>)
    requires
        has_prefix(q, a),
        has_prefix(q, b),
        byte_len(a) == byte_len(b),
        a.len() <= b.len(),
    ensures
        a == b,
{
    let more = b.skip(a.len() as int);
    assert(a =~= b.take(a.len() as int)) by {
        assert forall|i: int| 0 <= i < a.len() implies a[i] == b[i] by {
            assert(q.take(a.len() as int)[i] == q[i]);
            assert(q.take(b.len() as int)[i] == q[i]);
        }
    }
    assert(b =~= a + more);
    lemma_bytes_add(a, more);
    if more.len() > 0 {
        lemma_bytes_positive(more);
    }
}

/// Of the prefixes that begin a query only the longest fires: any two routes
/// that fire have the same prefix.
pub proof fn only_the_longest_prefix_fires(rs: Seq<RouteView>, a: int, b: int, q: Seq<char>)
    requires
        0 <= a < rs.len(),
        0 <= b < rs.len(),
        prefix_fires(rs, rs[a], q),
        prefix_fires(rs, rs[b], q),
    ensures
        rs[a].value == rs[b].value,
{
    if rs[a].value.len() <= rs[b].value.len() {
        lemma_same_prefix(q, rs[a].value, rs[b].value);
    } else {
        lemma_same_prefix(q, rs[b].value, rs[a].value);
    }
}

/// Command hits come by falling score, and hits with equal scores in table order;
/// a command that the query names has the largest score there is.
pub proof fn command_hits_fall_in_score(rs: Seq<RouteView>, q: Seq<char>, a: int, b: int)
    requires
        0 <= a < b < command_hits(rs, q).len(),
    ensures
        ({
            let s = scored_commands(rs, q);
            let order = falling_order(scores(s));
            &&& command_hits(rs, q)[a] == s[order[a]].1
            &&& command_hits(rs, q)[b] == s[order[b]].1
            &&& s[order[a]].0 > s[order[b]].0 || (s[order[a]].0 == s[order[b]].0 && order[a]
                < order[b])
        }),
{
    let s = scored_commands(rs, q);
    falling_order_exists(scores(s));
    let order = falling_order(scores(s));
    assert(crate::order::ahead(scores(s), order[a], order[b]));
}

proof fn lemma_routes_count(plugin_id: Seq<char>, cs: Seq<CommandView>)
    ensures
        routes_of(plugin_id, cs, TriggerType::Command).len() + routes_of(
            plugin_id,
            cs,
            TriggerType::Prefix,
        ).len() + routes_of(plugin_id, cs, TriggerType::Regex).len() + routes_of(
            plugin_id,
            cs,
            TriggerType::Dynamic,
        ).len() == cs.len(),
    decreases cs.len(),
{
    if cs.len() > 0 {
        lemma_routes_count(plugin_id, cs.drop_last());
    }
}

/// Adding a plugin adds one route for each of its commands.
pub proof fn each_command_adds_a_route(index: IndexView, plugin_id: Seq<char>, cs: Seq<CommandView>)
    ensures
        with_plugin(index, plugin_id, cs).count() == index.count() + cs.len(),
{
    lemma_routes_count(plugin_id, cs);
    let ps = index.prefixes + routes_of(plugin_id, cs, TriggerType::Prefix);
    falling_order_exists(prefix_lens(ps));
}

proof fn lemma_routes_of_kind(plugin_id: Seq<char>, cs: Seq<CommandView>, kind: TriggerType)
    ensures
        all_of_kind(routes_of(plugin_id, cs, kind), kind),
    decreases cs.len(),
{
    if cs.len() > 0 {
        lemma_routes_of_kind(plugin_id, cs.drop_last(), kind);
    }
}

/// Adding a plugin keeps every route in the table of its kind, and the longest
/// prefixes first.
pub proof fn adding_keeps_the_index_valid(
    index: IndexView,
    plugin_id: Seq<char>,
    cs: Seq<CommandView>,
)
    requires
        index.valid(),
    ensures
        with_plugin(index, plugin_id, cs).valid(),
{
    lemma_routes_of_kind(plugin_id, cs, TriggerType::Command);
    lemma_routes_of_kind(plugin_id, cs, TriggerType::Prefix);
    lemma_routes_of_kind(plugin_id, cs, TriggerType::Regex);
    lemma_routes_of_kind(plugin_id, cs, TriggerType::Dynamic);
    let ps = index.prefixes + routes_of(plugin_id, cs, TriggerType::Prefix);
    let keys = prefix_lens(ps);
    falling_order_exists(keys);
    let order = falling_order(keys);
    let sorted = longest_first(ps);
    assert forall|i: int| 0 <= i < sorted.len() implies (#[trigger] sorted[i]).kind
        == TriggerType::Prefix by {
        assert(sorted[i] == ps[order[i]]);
    }
    assert forall|i: int, j: int| 0 <= i < j < sorted.len() implies byte_len(
        (#[trigger] sorted[i]).value,
    ) >= byte_len((#[trigger] sorted[j]).value) by {
        assert(crate::order::ahead(keys, order[i], order[j]));
        assert(sorted[i] == ps[order[i]] && sorted[j] == ps[order[j]]);
    }
}

proof fn lemma_others_of_kind(rs: Seq<RouteView>, plugin_id: Seq<char>, kind: TriggerType)
    requires
        all_of_kind(rs, kind),
    ensures
        all_of_kind(others(rs, plugin_id), kind),
    decreases rs.len(),
{
    if rs.len() > 0 {
        lemma_others_of_kind(rs.drop_last(), plugin_id, kind);
    }
}

proof fn lemma_others_not_shorter(rs: Seq<RouteView>, plugin_id: Seq<char>, n: int)
    requires
        forall|i: int| 0 <= i < rs.len() ==> byte_len((#[trigger] rs[i]).value) >= n,
    ensures
        ({
            let left = others(rs, plugin_id);
            forall|i: int| 0 <= i < left.len() ==> byte_len((#[trigger] left[i]).value) >= n
        }),
    decreases rs.len(),
{
    if rs.len() > 0 {
        lemma_others_not_shorter(rs.drop_last(), plugin_id, n);
    }
}

proof fn lemma_others_by_length(rs: Seq<RouteView>, plugin_id: Seq<char>)
    requires
        by_length(rs),
    ensures
        by_length(others(rs, plugin_id)),
    decreases rs.len(),
{
    if rs.len() > 0 {
        lemma_others_by_length(rs.drop_last(), plugin_id);
        lemma_others_not_shorter(rs.drop_last(), plugin_id, byte_len(rs.last().value) as int);
    }
}

/// Removing a plugin keeps every route in the table of its kind, and the longest
/// prefixes first.
pub proof fn removing_keeps_the_index_valid(index: IndexView, plugin_id: Seq<char>)
    requires
        index.valid(),
    ensures
        without_plugin(index, plugin_id).valid(),
{
    lemma_others_of_kind(index.commands, plugin_id, TriggerType::Command);
    lemma_others_of_kind(index.prefixes, plugin_id, TriggerType::Prefix);
    lemma_others_of_kind(index.regexes, plugin_id, TriggerType::Regex);
    lemma_others_of_kind(index.dynamics, plugin_id, TriggerType::Dynamic);
    lemma_others_by_length(index.prefixes, plugin_id);
}

/// The routes of commands, in order.
pub open spec fn command_routes(plugin_id: Seq<char>, cs: Seq<CommandView>) -> Seq<RouteView> {
    cs.map_values(|c: CommandView| route_of(plugin_id, c))
}

proof fn lemma_routes_by_kind(plugin_id: Seq<char>, cs: Seq<CommandView>)
    ensures
        command_routes(plugin_id, cs).to_multiset() == routes_of(
            plugin_id,
            cs,
            TriggerType::Command,
        ).to_multiset().add(routes_of(plugin_id, cs, TriggerType::Prefix).to_multiset()).add(
            routes_of(plugin_id, cs, TriggerType::Regex).to_multiset(),
        ).add(routes_of(plugin_id, cs, TriggerType::Dynamic).to_multiset()),
    decreases cs.len(),
{
    broadcast use vstd::seq_lib::group_to_multiset_ensures;

    let all = command_routes(plugin_id, cs);
    let a = routes_of(plugin_id, cs, TriggerType::Command).to_multiset();
    let b = routes_of(plugin_id, cs, TriggerType::Prefix).to_multiset();
    let c = routes_of(plugin_id, cs, TriggerType::Regex).to_multiset();
    let d = routes_of(plugin_id, cs, TriggerType::Dynamic).to_multiset();
    if cs.len() == 0 {
        assert(all =~= Seq::<RouteView>::empty());
        assert(all.to_multiset() =~= a.add(b).add(c).add(d));
    } else {
        lemma_routes_by_kind(plugin_id, cs.drop_last());
        assert(all =~= command_routes(plugin_id, cs.drop_last()).push(
            route_of(plugin_id, cs.last()),
        ));
        assert(all.to_multiset() =~= a.add(b).add(c).add(d));
    }
}

proof fn lemma_all_of(index: IndexView)
    ensures
        all_of(index).to_multiset() == index.commands.to_multiset().add(
            index.prefixes.to_multiset(),
        ).add(index.regexes.to_multiset()).add(index.dynamics.to_multiset()),
{
    vstd::seq_lib::lemma_multiset_commutative(index.commands, index.prefixes);
    vstd::seq_lib::lemma_multiset_commutative(index.commands + index.prefixes, index.regexes);
    vstd::seq_lib::lemma_multiset_commutative(
        index.commands + index.prefixes + index.regexes,
        index.dynamics,
    );
}

proof fn lemma_map_multiset(a: Seq<RouteView>, b: Seq<RouteView>)
    requires
        a.to_multiset() == b.to_multiset(),
    ensures
        a.map_values(|r: RouteView| idle_hit(r)).to_multiset() == b.map_values(
            |r: RouteView| idle_hit(r),
        ).to_multiset(),
    decreases a.len(),
{
    broadcast use vstd::seq_lib::group_to_multiset_ensures;

    let ma = a.map_values(|r: RouteView| idle_hit(r));
    let mb = b.map_values(|r: RouteView| idle_hit(r));
    assert(a.len() == a.to_multiset().len() && b.len() == b.to_multiset().len());
    if a.len() == 0 {
        assert(ma =~= mb);
    } else {
        let x = a.last();
        assert(a[a.len() - 1] == x);
        assert(a.to_multiset().count(x) > 0);
        assert(b.contains(x));
        let p = choose|p: int| 0 <= p < b.len() && b[p] == x;
        let fewer = a.drop_last();
        let rest = b.remove(p);
        assert(fewer =~= a.remove(a.len() - 1));
        lemma_map_multiset(fewer, rest);
        assert(mb.remove(p) =~= rest.map_values(|r: RouteView| idle_hit(r)));
        assert(ma.remove(ma.len() - 1) =~= fewer.map_values(|r: RouteView| idle_hit(r)));
        assert(ma[ma.len() - 1] == idle_hit(x) && mb[p] == idle_hit(x));
        assert(ma.to_multiset().remove(idle_hit(x)).insert(idle_hit(x)) =~= ma.to_multiset());
        assert(mb.to_multiset().remove(idle_hit(x)).insert(idle_hit(x)) =~= mb.to_multiset());
    }
}

/// Adding a plugin keeps all routes and adds exactly one for each of its commands:
/// all routes together are the old ones and these, each as often.
pub proof fn adding_adds_the_commands(index: IndexView, plugin_id: Seq<char>, cs: Seq<CommandView>)
    ensures
        all_of(with_plugin(index, plugin_id, cs)).to_multiset() == (all_of(index) + command_routes(
            plugin_id,
            cs,
        )).to_multiset(),
        all_hits(with_plugin(index, plugin_id, cs)).to_multiset() == (all_hits(index)
            + command_routes(plugin_id, cs).map_values(|r: RouteView| idle_hit(r))).to_multiset(),
{
    let next = with_plugin(index, plugin_id, cs);
    let a = routes_of(plugin_id, cs, TriggerType::Command);
    let b = routes_of(plugin_id, cs, TriggerType::Prefix);
    let c = routes_of(plugin_id, cs, TriggerType::Regex);
    let d = routes_of(plugin_id, cs, TriggerType::Dynamic);
    let added = command_routes(plugin_id, cs);
    lemma_all_of(index);
    lemma_all_of(next);
    lemma_routes_by_kind(plugin_id, cs);
    vstd::seq_lib::lemma_multiset_commutative(index.commands, a);
    vstd::seq_lib::lemma_multiset_commutative(index.prefixes, b);
    vstd::seq_lib::lemma_multiset_commutative(index.regexes, c);
    vstd::seq_lib::lemma_multiset_commutative(index.dynamics, d);
    vstd::seq_lib::lemma_multiset_commutative(all_of(index), added);
    ordering_keeps_the_items(index.prefixes + b, prefix_lens(index.prefixes + b));
    assert(all_of(next).to_multiset() =~= (all_of(index) + added).to_multiset());
    lemma_map_multiset(all_of(next), all_of(index) + added);
    assert((all_of(index) + added).map_values(|r: RouteView| idle_hit(r)) =~= all_hits(index)
        + added.map_values(|r: RouteView| idle_hit(r)));
}

} // verus!
