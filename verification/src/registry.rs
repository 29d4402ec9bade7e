//! The plugin registry: what a scan of the plugin directories changes in the
//! cache of plugins.

use vstd::prelude::*;

use crate::host::{meta_views, metas_by_id};
use crate::manifest::{
    entry_path, path_in, ManifestView, MetaView, PluginManifest, PluginMeta, ENTRY_FILE,
};
use crate::search::contains_text;
use crate::table::Table;
use crate::text::{copy_opt, same, text3, views};

verus! {

/// What a scan did.
#[derive(Debug, PartialEq, Eq)]
pub struct ScanReport {
    /// The number of plugins after the scan.
    pub plugins: usize,
    /// Plugins that are new.
    pub inserted: usize,
    /// Plugins whose version changed.
    pub updated: usize,
    /// Plugins that needed no write.
    pub unchanged: usize,
    /// Plugins that were dropped.
    pub removed: usize,
    /// Failures, in words: the directory and the reason.
    pub failed: Vec<String>,
}

impl Default for ScanReport {
    fn default() -> (r: Self)
        ensures
            r.plugins == 0 && r.inserted == 0 && r.updated == 0 && r.unchanged == 0 && r.removed
                == 0,
            r.failed@.len() == 0,
    {
        ScanReport {
            plugins: 0,
            inserted: 0,
            updated: 0,
            unchanged: 0,
            removed: 0,
            failed: Vec::new(),
        }
    }
}

/// A plugin directory that a scan found: its manifest, where it is valid, or
/// else the reason.
#[derive(Debug)]
pub struct FoundPlugin {
    pub dir: String,
    pub manifest: Result<PluginManifest, String>,
}

/// What a [`FoundPlugin`] is.
pub struct FoundView {
    pub dir: Seq<char>,
    pub manifest: Result<ManifestView, Seq<char>>,
}

impl View for FoundPlugin {
    type V = FoundView;

    open spec fn view(&self) -> FoundView {
        FoundView {
            dir: self.dir@,
            manifest: match self.manifest {
                Ok(m) => Ok(m@),
                Err(s) => Err(s@),
            },
        }
    }
}

/// The views of a list of plugin directories.
pub open spec fn found_views(v: Seq<FoundPlugin>) -> Seq<FoundView> {
    v.map_values(|f: FoundPlugin| f@)
}

/// The cached plugins.
pub struct PluginCache {
    plugins: Table<String, PluginMeta>,
}

impl View for PluginCache {
    type V = Map<Seq<char>, MetaView>;

    closed spec fn view(&self) -> Map<Seq<char>, MetaView> {
        self.plugins@
    }
}

/// What is to be written to and removed from the stored cache.
#[derive(Debug)]
pub struct ScanPlan {
    pub report: ScanReport,
    /// The plugins to write, in order.
    pub write: Vec<PluginMeta>,
    /// The ids of the plugins to remove.
    pub remove: Vec<String>,
}

/// How far a scan has come.
pub struct ScanView {
    /// The plugins known.
    pub cached: Map<Seq<char>, MetaView>,
    /// The plugins to write.
    pub write: Seq<MetaView>,
    /// The directories with a valid manifest.
    pub seen: Seq<Seq<char>>,
    pub inserted: int,
    pub updated: int,
    pub unchanged: int,
    pub failed: Seq<Seq<char>>,
}

/// What is cached of a plugin that was found at the time `now`.
pub open spec fn cached_meta(dir: Seq<char>, m: ManifestView, now: i64) -> MetaView {
    MetaView {
        manifest: m,
        dir,
        entry: path_in(dir, ENTRY_FILE@),
        icon: m.icon,
        scanned_at: now,
    }
}

/// The scan after one more directory: a plugin is written where it is new or
/// its version changed, and left as it is where its version is the same.
pub open spec fn scan_step(s: ScanView, f: FoundView, now: i64) -> ScanView {
    match f.manifest {
        Err(reason) => ScanView { failed: s.failed.push(f.dir + ": "@ + reason), ..s },
        Ok(m) => {
            let seen = ScanView { seen: s.seen.push(f.dir), ..s };
            let meta = cached_meta(f.dir, m, now);
            if s.cached.contains_key(m.id) {
                if s.cached[m.id].manifest.version == m.version {
                    ScanView { unchanged: s.unchanged + 1, ..seen }
                } else {
                    ScanView {
                        cached: s.cached.insert(m.id, meta),
                        write: s.write.push(meta),
                        updated: s.updated + 1,
                        ..seen
                    }
                }
            } else {
                ScanView {
                    cached: s.cached.insert(m.id, meta),
                    write: s.write.push(meta),
                    inserted: s.inserted + 1,
                    ..seen
                }
            }
        },
    }
}

/// The scan at its start.
pub open spec fn scan_start(cached: Map<Seq<char>, MetaView>) -> ScanView {
    ScanView {
        cached,
        write: Seq::empty(),
        seen: Seq::empty(),
        inserted: 0,
        updated: 0,
        unchanged: 0,
        failed: Seq::empty(),
    }
}

/// The scan after the directories.
pub open spec fn scanned(cached: Map<Seq<char>, MetaView>, found: Seq<FoundView>, now: i64) -> ScanView
    decreases found.len(),
{
    if found.len() == 0 {
        scan_start(cached)
    } else {
        scan_step(scanned(cached, found.drop_last(), now), found.last(), now)
    }
}

/// Whether a cached plugin is dropped: its directory is gone, or has no valid
/// manifest.
pub open spec fn is_stale(s: ScanView, present: Seq<Seq<char>>, meta: MetaView) -> bool {
    !present.contains(meta.dir) || !s.seen.contains(meta.dir)
}

/// The plugins that stay in the cache.
pub open spec fn kept(s: ScanView, present: Seq<Seq<char>>) -> Map<Seq<char>, MetaView> {
    Map::new(
        |id: Seq<char>| s.cached.contains_key(id) && !is_stale(s, present, s.cached[id]),
        |id: Seq<char>| s.cached[id],
    )
}

impl PluginCache {
    /// The cache with the given plugins; of two with the same id the later counts.
    pub fn new(plugins: &Vec<PluginMeta>) -> (r: Self)
        ensures
            r@ == metas_by_id(meta_views(plugins@)),
    {
        PluginCache { plugins: crate::host::table_of(plugins) }
    }

    /// The number of plugins.
    pub fn len(&self) -> (r: usize)
        ensures
            r == self@.len(),
    {
        self.plugins.len()
    }

    /// The plugin with the given id.
    pub fn get(&self, id: &str) -> (r: Option<&PluginMeta>)
        ensures
            match r {
                Some(meta) => self@.contains_key(id@) && self@[id@] == meta@,
                None => !self@.contains_key(id@),
            },
    {
        self.plugins.get(&id.to_owned())
    }

    /// Brings the cache in line with the plugin directories that were found at
    /// the time `now`, and tells what is to be written to and removed from
    /// where it is stored. `present` holds the directories that there are.
    pub fn scan(&mut self, found: &Vec<FoundPlugin>, present: &Vec<String>, now: i64) -> (r:
        ScanPlan)
        ensures
            ({
                let s = scanned(old(self)@, found_views(found@), now);
                let dirs = views(present@);
                &&& final(self)@ == kept(s, dirs)
                &&& meta_views(r.write@) == s.write
                &&& forall|id: Seq<char>|
                    views(r.remove@).contains(id) <==> s.cached.contains_key(id) && is_stale(
                        s,
                        dirs,
                        s.cached[id],
                    )
                &&& views(r.remove@).no_duplicates()
                &&& r.report.inserted == s.inserted
                &&& r.report.updated == s.updated
                &&& r.report.unchanged == s.unchanged
                &&& views(r.report.failed@) == s.failed
                &&& r.report.removed == r.remove@.len()
                &&& r.report.plugins == final(self)@.len()
                &&& r.report.plugins + r.report.removed == old(self)@.len() + r.report.inserted
                &&& r.report.inserted + r.report.updated + r.report.unchanged
                    + r.report.failed@.len() == found@.len()
            }),
    {
        let ghost all = found_views(found@);
        let ghost start = self@;
        let _ = self.plugins.len();
        assert(start.dom().finite());
        let mut write: Vec<PluginMeta> = Vec::new();
        let mut seen: Vec<String> = Vec::new();
        let mut report = ScanReport::default();
        assert(all.take(0) =~= Seq::<FoundView>::empty());
        assert(meta_views(write@) =~= Seq::<MetaView>::empty());
        assert(views(seen@) =~= Seq::<Seq<char>>::empty());
        assert(views(report.failed@) =~= Seq::<Seq<char>>::empty());
        let mut i: usize = 0;
        while i < found.len()
            invariant
                i <= found.len(),
                all == found_views(found@),
                ({
                    let s = scanned(start, all.take(i as int), now);
                    &&& self@ == s.cached
                    &&& meta_views(write@) == s.write
                    &&& views(seen@) == s.seen
                    &&& report.inserted == s.inserted
                    &&& report.updated == s.updated
                    &&& report.unchanged == s.unchanged
                    &&& views(report.failed@) == s.failed
                    &&& report.inserted + report.updated + report.unchanged <= i
                }),
            decreases found.len() - i,
        {
            let f = &found[i];
            proof {
                assert(all.take(i + 1).drop_last() =~= all.take(i as int));
                assert(all.take(i + 1).last() == f@);
            }
            let ghost wrote = meta_views(write@);
            let ghost saw = views(seen@);
            let ghost failed = views(report.failed@);
            match &f.manifest {
                Err(reason) => {
                    let text = text3(f.dir.as_str(), ": ", reason.as_str());
                    report.failed.push(text);
                    assert(views(report.failed@) =~= failed.push(text@));
                },
                Ok(manifest) => {
                    seen.push(f.dir.clone());
                    assert(views(seen@) =~= saw.push(f.dir@));
                    let known = match self.plugins.get(&manifest.id) {
                        Some(meta) => Some(
                            same(meta.manifest.version.as_str(), manifest.version.as_str()),
                        ),
                        None => None,
                    };
                    if let Some(true) = known {
                        report.unchanged = report.unchanged + 1;
                    } else {
                        let meta = PluginMeta {
                            manifest: manifest.clone(),
                            dir: f.dir.clone(),
                            entry: entry_path(f.dir.as_str()),
                            icon: copy_opt(&manifest.icon),
                            scanned_at: now,
                        };
                        assert(meta@ == cached_meta(f.dir@, manifest@, now));
                        write.push(meta.clone());
                        assert(meta_views(write@) =~= wrote.push(meta@));
                        self.plugins.set(manifest.id.clone(), meta);
                        if known.is_some() {
                            report.updated = report.updated + 1;
                        } else {
                            report.inserted = report.inserted + 1;
                        }
                    }
                },
            }
            i += 1;
        }
        assert(all.take(all.len() as int) =~= all);
        let ghost s = scanned(start, all, now);
        let remove = self.drop_stale(&seen, present, Ghost(s));
        proof {
            counts_add_up(start, all, now);
            removed_and_kept_add_up(s, views(present@), views(remove@));
        }
        report.removed = remove.len();
        report.plugins = self.plugins.len();
        ScanPlan { report, write, remove }
    }

    /// As [`PluginCache::scan`]; where there is no plugin root to look in, and so
    /// nothing was looked for, nothing changes and nothing is reported.
    pub fn scan_root(
        &mut self,
        found: Option<&Vec<FoundPlugin>>,
        present: &Vec<String>,
        now: i64,
    ) -> (r: ScanPlan)
        ensures
            match found {
                Some(found) => {
                    let s = scanned(old(self)@, found_views(found@), now);
                    &&& final(self)@ == kept(s, views(present@))
                    &&& meta_views(r.write@) == s.write
                    &&& forall|id: Seq<char>|
                        views(r.remove@).contains(id) <==> s.cached.contains_key(id) && is_stale(
                            s,
                            views(present@),
                            s.cached[id],
                        )
                    &&& views(r.remove@).no_duplicates()
                    &&& r.report.inserted == s.inserted
                    &&& r.report.updated == s.updated
                    &&& r.report.unchanged == s.unchanged
                    &&& views(r.report.failed@) == s.failed
                    &&& r.report.removed == r.remove@.len()
                    &&& r.report.plugins == final(self)@.len()
                    &&& r.report.plugins + r.report.removed == old(self)@.len()
                        + r.report.inserted
                    &&& r.report.inserted + r.report.updated + r.report.unchanged
                        + r.report.failed@.len() == found@.len()
                },
                None => {
                    &&& final(self)@ == old(self)@
                    &&& r.write@.len() == 0 && r.remove@.len() == 0
                    &&& r.report.plugins == 0 && r.report.inserted == 0 && r.report.updated == 0
                    &&& r.report.unchanged == 0 && r.report.removed == 0
                    &&& r.report.failed@.len() == 0
                },
            },
    {
        match found {
            Some(found) => self.scan(found, present, now),
            None => ScanPlan {
                report: ScanReport::default(),
                write: Vec::new(),
                remove: Vec::new(),
            },
        }
    }

    /// Drops the plugins whose directory is gone or was not seen, and names them.
    fn drop_stale(&mut self, seen: &Vec<String>, present: &Vec<String>, Ghost(s): Ghost<ScanView>) -> (r:
        Vec<String>)
        requires
            old(self)@ == s.cached,
            views(seen@) == s.seen,
        ensures
            final(self)@ == kept(s, views(present@)),
            forall|id: Seq<char>|
                views(r@).contains(id) <==> s.cached.contains_key(id) && is_stale(
                    s,
                    views(present@),
                    s.cached[id],
                ),
            views(r@).no_duplicates(),
    {
        let ghost dirs = views(present@);
        let ghost all = s.cached;
        let mut rest: Table<String, PluginMeta> = Table::new();
        core::mem::swap(&mut rest, &mut self.plugins);
        let mut stay: Table<String, PluginMeta> = Table::new();
        let mut r: Vec<String> = Vec::new();
        assert(views(r@) =~= Seq::<Seq<char>>::empty());
        loop
            invariant
                all == s.cached,
                views(seen@) == s.seen,
                dirs == views(present@),
                forall|p: Seq<char>| #[trigger]
                    rest@.contains_key(p) ==> all.contains_key(p) && rest@[p] == all[p],
                forall|p: Seq<char>| #[trigger]
                    stay@.contains_key(p) <==> all.contains_key(p) && !rest@.contains_key(p)
                        && !is_stale(s, dirs, all[p]),
                forall|p: Seq<char>| #[trigger] stay@.contains_key(p) ==> stay@[p] == all[p],
                forall|p: Seq<char>| #[trigger]
                    views(r@).contains(p) <==> all.contains_key(p) && !rest@.contains_key(p)
                        && is_stale(s, dirs, all[p]),
                views(r@).no_duplicates(),
            ensures
                forall|p: Seq<char>| !rest@.contains_key(p),
            decreases rest@.len(),
        {
            let ghost before = rest@;
            match rest.pop() {
                Some((id, meta)) => {
                    if contains_text(present, meta.dir.as_str()) && contains_text(
                        seen,
                        meta.dir.as_str(),
                    ) {
                        stay.set(id, meta);
                    } else {
                        let ghost had = views(r@);
                        assert(!had.contains(id@)) by {
                            assert(before.contains_key(id@));
                        }
                        r.push(id.clone());
                        proof {
                            let now = views(r@);
                            assert(now =~= had.push(id@));
                            assert forall|p: Seq<char>| #[trigger] now.contains(p) <==> had.contains(
                                p,
                            ) || p == id@ by {
                                if had.contains(p) {
                                    let j = choose|j: int| 0 <= j < had.len() && had[j] == p;
                                    assert(now[j] == p);
                                }
                                if p == id@ {
                                    assert(now[had.len() as int] == p);
                                }
                                if now.contains(p) {
                                    let j = choose|j: int| 0 <= j < now.len() && now[j] == p;
                                    if j < had.len() {
                                        assert(had[j] == p);
                                    }
                                }
                            }
                        }
                    }
                },
                None => {
                    break ;
                },
            }
        }
        self.plugins = stay;
        assert(self@ =~= kept(s, dirs));
        r
    }
}

/// The directories of a scan are those with a new, a changed or an unchanged
/// plugin and those that failed, and the cache grows by the new ones.
pub proof fn counts_add_up(cached: Map<Seq<char>, MetaView>, found: Seq<FoundView>, now: i64)
    requires
        cached.dom().finite(),
    ensures
        ({
            let s = scanned(cached, found, now);
            &&& s.inserted + s.updated + s.unchanged + s.failed.len() == found.len()
            &&& s.cached.dom().finite()
            &&& s.cached.len() == cached.len() + s.inserted
        }),
    decreases found.len(),
{
    if found.len() > 0 {
        counts_add_up(cached, found.drop_last(), now);
        let before = scanned(cached, found.drop_last(), now).cached;
        if let Ok(m) = found.last().manifest {
            let meta = cached_meta(found.last().dir, m, now);
            assert(before.insert(m.id, meta).dom() =~= before.dom().insert(m.id));
        }
    }
}

/// The plugins that stay and those that are removed are all that the scan knew.
pub proof fn removed_and_kept_add_up(
    s: ScanView,
    present: Seq<Seq<char>>,
    removed: Seq<Seq<char>>,
)
    requires
        s.cached.dom().finite(),
        removed.no_duplicates(),
        forall|id: Seq<char>|
            removed.contains(id) <==> s.cached.contains_key(id) && is_stale(
                s,
                present,
                s.cached[id],
            ),
    ensures
        kept(s, present).len() + removed.len() == s.cached.len(),
{
    let stay = kept(s, present).dom();
    let gone = removed.to_set();
    assert forall|id: Seq<char>| gone.contains(id) == removed.contains(id) by {}
    assert(stay + gone =~= s.cached.dom());
    assert(stay.subset_of(s.cached.dom()));
    vstd::set_lib::lemma_len_subset(stay, s.cached.dom());
    removed.unique_seq_to_set();
    removed.lemma_cardinality_of_set();
    assert(stay.disjoint(gone));
    vstd::set_lib::lemma_set_disjoint_lens(stay, gone);
}

/// Whether the cache holds every valid plugin that was found, at its version.
pub open spec fn up_to_date(cached: Map<Seq<char>, MetaView>, found: Seq<FoundView>) -> bool {
    forall|i: int|
        0 <= i < found.len() && (#[trigger] found[i]).manifest is Ok ==> cached.contains_key(
            found[i].manifest->Ok_0.id,
        ) && cached[found[i].manifest->Ok_0.id].manifest.version == found[i].manifest->Ok_0.version
}

/// Whether no plugin was found at two versions.
pub open spec fn versions_agree(found: Seq<FoundView>) -> bool {
    forall|i: int, j: int|
        0 <= i < found.len() && 0 <= j < found.len() && (#[trigger] found[i]).manifest is Ok && (
        #[trigger] found[j]).manifest is Ok && found[i].manifest->Ok_0.id
            == found[j].manifest->Ok_0.id ==> found[i].manifest->Ok_0.version
            == found[j].manifest->Ok_0.version
}

/// A scan of plugins whose versions have not changed writes nothing and leaves
/// the plugins it knows as they are.
pub proof fn unchanged_plugins_are_not_written(
    cached: Map<Seq<char>, MetaView>,
    found: Seq<FoundView>,
    now: i64,
)
    requires
        up_to_date(cached, found),
    ensures
        scanned(cached, found, now).write == Seq::<MetaView>::empty(),
        scanned(cached, found, now).cached == cached,
        scanned(cached, found, now).inserted == 0,
        scanned(cached, found, now).updated == 0,
    decreases found.len(),
{
    if found.len() > 0 {
        let rest = found.drop_last();
        assert(up_to_date(cached, rest)) by {
            assert forall|i: int|
                0 <= i < rest.len() && (#[trigger] rest[i]).manifest is Ok implies cached.contains_key(
                rest[i].manifest->Ok_0.id,
            ) && cached[rest[i].manifest->Ok_0.id].manifest.version
                == rest[i].manifest->Ok_0.version by {
                assert(rest[i] == found[i]);
            }
        }
        unchanged_plugins_are_not_written(cached, rest, now);
        assert(found[found.len() - 1] == found.last());
    }
}

/// After a scan every valid plugin that was found is known at the version that
/// was found, unless one plugin was found at two versions.
pub proof fn scan_brings_the_cache_up_to_date(
    cached: Map<Seq<char>, MetaView>,
    found: Seq<FoundView>,
    now: i64,
)
    requires
        versions_agree(found),
    ensures
        up_to_date(scanned(cached, found, now).cached, found),
    decreases found.len(),
{
    if found.len() > 0 {
        let rest = found.drop_last();
        assert(versions_agree(rest)) by {
            assert forall|i: int, j: int|
                0 <= i < rest.len() && 0 <= j < rest.len() && (#[trigger] rest[i]).manifest is Ok
                    && (#[trigger] rest[j]).manifest is Ok && rest[i].manifest->Ok_0.id
                    == rest[j].manifest->Ok_0.id implies rest[i].manifest->Ok_0.version
                == rest[j].manifest->Ok_0.version by {
                assert(rest[i] == found[i] && rest[j] == found[j]);
            }
        }
        scan_brings_the_cache_up_to_date(cached, rest, now);
        let before = scanned(cached, rest, now).cached;
        let after = scanned(cached, found, now).cached;
        let n = found.len() - 1;
        assert forall|i: int|
            0 <= i < found.len() && (#[trigger] found[i]).manifest is Ok implies after.contains_key(
            found[i].manifest->Ok_0.id,
        ) && after[found[i].manifest->Ok_0.id].manifest.version
            == found[i].manifest->Ok_0.version by {
            if i < n {
                assert(rest[i] == found[i]);
                if found[n].manifest is Ok && found[n].manifest->Ok_0.id
                    == found[i].manifest->Ok_0.id {
                    assert(found[n].manifest->Ok_0.version == found[i].manifest->Ok_0.version);
                }
            }
        }
    }
}

/// Every plugin that stays in the cache has a directory that is there and holds
/// a valid manifest.
pub proof fn kept_plugins_have_directories(s: ScanView, present: Seq<Seq<char>>, id: Seq<char>)
    requires
        kept(s, present).contains_key(id),
    ensures
        present.contains(kept(s, present)[id].dir),
        s.seen.contains(kept(s, present)[id].dir),
{
}

} // verus!
