//! The index of installed applications, and queries over it.

use vstd::prelude::*;

use crate::order::{
    arranged, falling_order, falling_order_exists, ints, is_falling_order, order_falling, places,
};
use crate::search::{best_match, best_score, new_matcher, search_forms, search_haystacks};
use crate::text::{blank, is_blank, lowercase, views};

verus! {

/// An installed application that the launcher can find.
#[derive(Debug, PartialEq, Eq)]
pub struct AppEntry {
    pub name: String,
    pub path: String,
}

/// What an [`AppEntry`] is.
pub struct AppView {
    pub name: Seq<char>,
    pub path: Seq<char>,
}

impl View for AppEntry {
    type V = AppView;

    open spec fn view(&self) -> AppView {
        AppView { name: self.name@, path: self.path@ }
    }
}

impl Clone for AppEntry {
    fn clone(&self) -> (r: Self)
        ensures
            r == *self,
    {
        AppEntry { name: self.name.clone(), path: self.path.clone() }
    }
}

/// The views of a list of entries.
pub open spec fn app_views(v: Seq<AppEntry>) -> Seq<AppView> {
    v.map_values(|a: AppEntry| a@)
}

/// An entry that a query found: its place in the index, and its fuzzy score.
#[derive(Debug, Clone, Copy, PartialEq, Eq, Structural)]
pub struct ScoredApp {
    pub index: usize,
    pub score: u16,
}

/// The search engine: an index of applications, with the texts that a query is
/// matched against prepared once per entry.
pub struct Engine {
    entries: Vec<AppEntry>,
    haystacks: Vec<Vec<String>>,
}

/// The score of `app` for `query`, whatever its case: a blank query finds
/// everything, with score 0.
pub open spec fn app_score(app: AppView, query: Seq<char>) -> Option<u16> {
    if blank(query) {
        Some(0)
    } else {
        best_score(search_forms(app.name), lowercase(query))
    }
}

/// What `query` finds among the first `n` entries, in index order.
pub open spec fn found(entries: Seq<AppView>, query: Seq<char>, n: int) -> Seq<(int, u16)>
    decreases n,
{
    if n <= 0 {
        seq![]
    } else {
        let rest = found(entries, query, n - 1);
        match app_score(entries[n - 1], query) {
            Some(score) => rest.push((n - 1, score)),
            None => rest,
        }
    }
}

/// The places and scores of found entries.
pub open spec fn scored_views(v: Seq<ScoredApp>) -> Seq<(int, u16)> {
    v.map_values(|s: ScoredApp| (s.index as int, s.score))
}

/// The counts as integers.
pub open spec fn counts_view(v: Seq<u32>) -> Seq<int> {
    v.map_values(|k: u32| k as int)
}

/// The entries that were found, the one with the largest key first.
pub open spec fn ranked(entries: Seq<AppView>, found: Seq<(int, u16)>, keys: Seq<int>) -> Seq<
    AppView,
> {
    arranged(found, falling_order(keys)).map_values(|f: (int, u16)| entries[f.0])
}

impl View for Engine {
    type V = Seq<AppView>;

    /// The entries of the index, in order.
    closed spec fn view(&self) -> Seq<AppView> {
        app_views(self.entries@)
    }
}

impl Engine {
    /// Every entry's haystacks are the search forms of its name.
    pub closed spec fn wf(&self) -> bool {
        &&& self.haystacks@.len() == self.entries@.len()
        &&& forall|i: int|
            0 <= i < self.entries@.len() ==> views((#[trigger] self.haystacks@[i])@)
                == search_forms(self.entries@[i].name@)
    }

    /// An engine with an empty index.
    pub fn new() -> (r: Self)
        ensures
            r.wf(),
            r@ == Seq::<AppView>::empty(),
    {
        let r = Engine { entries: Vec::new(), haystacks: Vec::new() };
        assert(r@ =~= Seq::<AppView>::empty());
        r
    }

    /// Rebuilds the index from the entries that a scan found.
    pub fn set_entries(&mut self, entries: Vec<AppEntry>)
        ensures
            final(self).wf(),
            final(self)@ == app_views(entries@),
    {
        let mut haystacks: Vec<Vec<String>> = Vec::new();
        let mut i: usize = 0;
        while i < entries.len()
            invariant
                i <= entries.len(),
                haystacks@.len() == i,
                forall|j: int|
                    0 <= j < i ==> views((#[trigger] haystacks@[j])@) == search_forms(
                        entries@[j].name@,
                    ),
            decreases entries.len() - i,
        {
            haystacks.push(search_haystacks(entries[i].name.as_str()));
            i += 1;
        }
        *self = Engine { entries, haystacks };
    }

    /// The entries of the index.
    pub fn entries(&self) -> (r: &Vec<AppEntry>)
        ensures
            app_views(r@) == self@,
    {
        &self.entries
    }

    /// What `query` finds, in index order. A blank query finds every entry;
    /// any other query finds the entries that it fuzzy-matches, whatever its
    /// case, in one of their search forms, with the best score over these.
    pub fn matches(&self, query: &str) -> (r: Vec<ScoredApp>)
        requires
            self.wf(),
        ensures
            scored_views(r@) == found(self@, query@, self@.len() as int),
    {
        let everything = is_blank(query);
        let needle = query.to_lowercase();
        let mut matcher = new_matcher();
        let mut r: Vec<ScoredApp> = Vec::new();
        assert(scored_views(r@) =~= found(self@, query@, 0));
        let mut i: usize = 0;
        while i < self.entries.len()
            invariant
                i <= self.entries.len(),
                self.wf(),
                everything == blank(query@),
                needle@ == lowercase(query@),
                scored_views(r@) == found(self@, query@, i as int),
            decreases self.entries.len() - i,
        {
            let score = if everything {
                Some(0)
            } else {
                best_match(&mut matcher, &self.haystacks[i], needle.as_str())
            };
            assert(self@[i as int] == self.entries@[i as int]@);
            if let Some(score) = score {
                let ghost before = scored_views(r@);
                r.push(ScoredApp { index: i, score });
                assert(scored_views(r@) =~= before.push((i as int, score)));
            }
            i += 1;
        }
        r
    }

    /// The entries that `query` found, best first: by usage count for a blank
    /// query, by the given ranks for any other. Ties stay in index order.
    /// `counts` and `ranks` hold one key for each entry of `found`.
    pub fn query(
        &self,
        query: &str,
        found: &Vec<ScoredApp>,
        counts: &Vec<u32>,
        ranks: &Vec<u64>,
    ) -> (r: Vec<AppEntry>)
        requires
            counts@.len() == found@.len(),
            ranks@.len() == found@.len(),
            forall|i: int| 0 <= i < found@.len() ==> (#[trigger] found@[i]).index < self@.len(),
        ensures
            app_views(r@) == ranked(
                self@,
                scored_views(found@),
                if blank(query@) {
                    counts_view(counts@)
                } else {
                    ints(ranks@)
                },
            ),
    {
        let order = if is_blank(query) {
            let mut keys: Vec<u64> = Vec::new();
            let mut i: usize = 0;
            while i < counts.len()
                invariant
                    i <= counts.len(),
                    keys@.len() == i,
                    forall|j: int| 0 <= j < i ==> #[trigger] keys@[j] == counts@[j],
                decreases counts.len() - i,
            {
                keys.push(counts[i] as u64);
                i += 1;
            }
            assert(ints(keys@) =~= counts_view(counts@));
            order_falling(&keys)
        } else {
            order_falling(ranks)
        };
        let ghost keys = if blank(query@) {
            counts_view(counts@)
        } else {
            ints(ranks@)
        };
        let mut r: Vec<AppEntry> = Vec::new();
        let ghost want = ranked(self@, scored_views(found@), keys);
        let mut i: usize = 0;
        while i < order.len()
            invariant
                i <= order.len(),
                order@.len() == found@.len(),
                places(order@) == falling_order(keys),
                is_falling_order(keys, places(order@)),
                keys.len() == found@.len(),
                forall|i: int| 0 <= i < found@.len() ==> (#[trigger] found@[i]).index < self@.len(),
                want == ranked(self@, scored_views(found@), keys),
                r@.len() == i,
                forall|j: int| 0 <= j < i ==> (#[trigger] r@[j])@ == want[j],
            decreases order.len() - i,
        {
            assert(places(order@)[i as int] == order@[i as int]);
            let k: usize = order[i];
            assert(found@[k as int].index < self@.len());
            r.push(self.entries[found[k].index].clone());
            assert(want[i as int] == self@[found@[k as int].index as int]);
            i += 1;
        }
        assert(app_views(r@) =~= want);
        r
    }
}

impl Default for Engine {
    fn default() -> (r: Self)
        ensures
            r.wf(),
            r@ == Seq::<AppView>::empty(),
    {
        Engine::new()
    }
}

proof fn lemma_blank_finds_all(entries: Seq<AppView>, query: Seq<char>, n: int)
    requires
        blank(query),
        0 <= n <= entries.len(),
    ensures
        found(entries, query, n).len() == n,
        forall|i: int| 0 <= i < n ==> #[trigger] found(entries, query, n)[i] == (i, 0u16),
    decreases n,
{
    if n > 0 {
        lemma_blank_finds_all(entries, query, n - 1);
    }
}

/// A blank query lists every entry, each as often as it is in the index, by
/// falling usage count: whatever has been used more comes first, and entries
/// used equally often stay in index order.
pub proof fn blank_query_lists_everything(entries: Seq<AppView>, query: Seq<char>, counts: Seq<u32>)
    requires
        blank(query),
        counts.len() == entries.len(),
    ensures
        ({
            let order = falling_order(counts_view(counts));
            let listed = ranked(
                entries,
                found(entries, query, entries.len() as int),
                counts_view(counts),
            );
            &&& listed.len() == entries.len()
            &&& listed == arranged(entries, order)
            &&& forall|i: int| 0 <= i < entries.len() ==> order.contains(i)
            &&& forall|p: int, q: int|
                0 <= p < q < order.len() ==> counts[#[trigger] order[p]] > counts[#[trigger] order[q]]
                    || (counts[order[p]] == counts[order[q]] && order[p] < order[q])
        }),
{
    let keys = counts_view(counts);
    let order = falling_order(keys);
    falling_order_exists(keys);
    lemma_blank_finds_all(entries, query, entries.len() as int);
    let listed = ranked(entries, found(entries, query, entries.len() as int), keys);
    assert(listed =~= arranged(entries, order));
    assert forall|p: int, q: int| 0 <= p < q < order.len() implies counts[#[trigger] order[p]]
        > counts[#[trigger] order[q]] || (counts[order[p]] == counts[order[q]] && order[p]
        < order[q]) by {
        assert(crate::order::ahead(keys, order[p], order[q]));
    }
}

} // verus!
