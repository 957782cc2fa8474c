//! The bridge itself: the filter table, the caching policy, the logging
//! entry points, and the reset capability.

use vstd::prelude::*;
use vstd::string::*;
use std::sync::Arc;
use crate::cache::{find_in_tree, lookup_local, CacheEntry, CacheNode};
use crate::host;
use crate::level::{map_level, Level, LevelFilter};
use crate::path::{join_segments, lemma_join_snoc, prefixes, segments, split_target, translate_target};
use crate::sync::{compare_and_swap_cache, load_cache, new_cache_cell, share_cell, store_cache, CacheCell};

verus! {

use pyo3::Py;
use pyo3::PyAny;
use pyo3::PyErr;
use pyo3::Python;

/// What the bridge may cache per source path.
#[derive(Copy, Clone, Debug, PartialEq, Eq, Structural)]
#[non_exhaustive]
pub enum Caching {
    /// Caches nothing: every eligible message goes to the host to ask whether
    /// it shall be logged.
    Nothing,
    /// Caches the host-side logging handles, but not their thresholds: a
    /// handle is looked up at most once per path, but the host is still asked
    /// about every eligible message.
    Loggers,
    /// Caches the handles and their effective thresholds: once a path is
    /// cached, messages below its threshold are dropped without consulting
    /// the host at all, at the cost of staleness until the next reset.
    LoggersAndLevels,
}

impl Default for Caching {
    /// Full caching is the default.
    fn default() -> (r: Self)
        ensures
            r == Caching::LoggersAndLevels,
    {
        Caching::LoggersAndLevels
    }
}

/// The value a filter-override table associates with `k`: the value of the
/// first pair carrying that key, if any.
pub open spec fn assoc(s: Seq<(String, LevelFilter)>, k: Seq<char>) -> Option<LevelFilter>
    decreases s.len(),
{
    if s.len() == 0 {
        None
    } else if s[0].0@ == k {
        Some(s[0].1)
    } else {
        assoc(s.skip(1), k)
    }
}

/// The override table as a mathematical map; an earlier pair shadows a later
/// one with the same key.
pub open spec fn assoc_map(s: Seq<(String, LevelFilter)>) -> Map<Seq<char>, LevelFilter>
    decreases s.len(),
{
    if s.len() == 0 {
        Map::empty()
    } else {
        assoc_map(s.skip(1)).insert(s[0].0@, s[0].1)
    }
}

/// The association list and its map agree.
proof fn lemma_assoc_map_agrees(s: Seq<(String, LevelFilter)>, k: Seq<char>)
    ensures
        assoc_map(s).contains_key(k) == (assoc(s, k) is Some),
        assoc(s, k) is Some ==> assoc_map(s)[k] == assoc(s, k).unwrap(),
    decreases s.len(),
{
    if s.len() == 0 {
    } else {
        lemma_assoc_map_agrees(s.skip(1), k);
    }
}

/// A found key is backed by an index in the list.
proof fn lemma_assoc_index(s: Seq<(String, LevelFilter)>, k: Seq<char>)
    requires
        assoc(s, k) is Some,
    ensures
        exists|j: int|
            0 <= j < s.len() && s[j].0@ == k && s[j].1 == assoc(s, k).unwrap(),
    decreases s.len(),
{
    if s[0].0@ == k {
        assert(s[0].0@ == k && s[0].1 == assoc(s, k).unwrap());
    } else {
        lemma_assoc_index(s.skip(1), k);
        let j = choose|j: int|
            0 <= j < s.skip(1).len() && s.skip(1)[j].0@ == k && s.skip(1)[j].1 == assoc(
                s.skip(1),
                k,
            ).unwrap();
        assert(s[j + 1] == s.skip(1)[j]);
    }
}

/// The first pair with a given key decides the map's value for it.
proof fn lemma_assoc_map_first(s: Seq<(String, LevelFilter)>, j: int)
    requires
        0 <= j < s.len(),
        forall|m: int| 0 <= m < j ==> s[m].0@ != s[j].0@,
    ensures
        assoc_map(s).contains_key(s[j].0@),
        assoc_map(s)[s[j].0@] == s[j].1,
    decreases j,
{
    if j == 0 {
    } else {
        assert(s.skip(1)[j - 1] == s[j]);
        assert forall|m: int| 0 <= m < j - 1 implies (#[trigger] s.skip(1)[m]).0@ != s.skip(1)[j
            - 1].0@ by {
            assert(s.skip(1)[m] == s[m + 1]);
        }
        lemma_assoc_map_first(s.skip(1), j - 1);
        assert(s[0].0@ != s[j].0@);
    }
}

/// Replacing the first pair carrying a key with a fresh pair for the same
/// key is, at the map level, an insert of that key.
proof fn lemma_assoc_map_update(s: Seq<(String, LevelFilter)>, k: int, v: (String, LevelFilter))
    requires
        0 <= k < s.len(),
        forall|m: int| 0 <= m < k ==> s[m].0@ != s[k].0@,
        v.0@ == s[k].0@,
    ensures
        assoc_map(s.update(k, v)) == assoc_map(s).insert(v.0@, v.1),
    decreases k,
{
    let s2 = s.update(k, v);
    if k == 0 {
        assert(s2.skip(1) =~= s.skip(1));
        assert(assoc_map(s2) == assoc_map(s2.skip(1)).insert(s2[0].0@, s2[0].1));
        assert(assoc_map(s) == assoc_map(s.skip(1)).insert(s[0].0@, s[0].1));
        assert(assoc_map(s2) =~= assoc_map(s).insert(v.0@, v.1));
    } else {
        assert(s2[0] == s[0]);
        assert(s2.skip(1) =~= s.skip(1).update(k - 1, v));
        assert(s.skip(1)[k - 1] == s[k]);
        assert forall|m: int| 0 <= m < k - 1 implies (#[trigger] s.skip(1)[m]).0@ != s.skip(1)[k
            - 1].0@ by {
            assert(s.skip(1)[m] == s[m + 1]);
        }
        lemma_assoc_map_update(s.skip(1), k - 1, v);
        assert(s[0].0@ != s[k].0@);
        assert(assoc_map(s2) == assoc_map(s2.skip(1)).insert(s2[0].0@, s2[0].1));
        assert(assoc_map(s2.skip(1)) == assoc_map(s.skip(1)).insert(v.0@, v.1));
        assert(assoc_map(s) == assoc_map(s.skip(1)).insert(s[0].0@, s[0].1));
        assert(assoc_map(s2) =~= assoc_map(s).insert(v.0@, v.1));
    }
}

/// Appending a pair with a fresh key is, at the map level, an insert.
proof fn lemma_assoc_map_push(s: Seq<(String, LevelFilter)>, v: (String, LevelFilter))
    requires
        forall|m: int| 0 <= m < s.len() ==> s[m].0@ != v.0@,
    ensures
        assoc_map(s.push(v)) == assoc_map(s).insert(v.0@, v.1),
    decreases s.len(),
{
    if s.len() == 0 {
        assert(s.push(v)[0] == v);
        assert(s.push(v).skip(1) =~= Seq::<(String, LevelFilter)>::empty());
        assert(assoc_map(s.push(v)) == assoc_map(s.push(v).skip(1)).insert(v.0@, v.1));
        assert(assoc_map(s.push(v).skip(1)) == Map::<Seq<char>, LevelFilter>::empty());
        assert(assoc_map(s.push(v)) =~= assoc_map(s).insert(v.0@, v.1));
    } else {
        assert(s.push(v)[0] == s[0]);
        assert(s.push(v).skip(1) =~= s.skip(1).push(v));
        assert forall|m: int| 0 <= m < s.skip(1).len() implies (#[trigger] s.skip(1)[m]).0@
            != v.0@ by {
            assert(s.skip(1)[m] == s[m + 1]);
        }
        lemma_assoc_map_push(s.skip(1), v);
        assert(s[0].0@ != v.0@);
        assert(assoc_map(s.push(v)) == assoc_map(s.skip(1).push(v)).insert(s[0].0@, s[0].1));
        assert(assoc_map(s.skip(1).push(v)) == assoc_map(s.skip(1)).insert(v.0@, v.1));
        assert(assoc_map(s) == assoc_map(s.skip(1)).insert(s[0].0@, s[0].1));
        assert(assoc_map(s.push(v)) =~= assoc_map(s).insert(v.0@, v.1));
    }
}

/// The resolved threshold over a list of candidate prefixes: the override of
/// the last (most specific) prefix that has one, else the default.
pub open spec fn resolve_ps(
    overrides: Map<Seq<char>, LevelFilter>,
    default_filter: LevelFilter,
    ps: Seq<Seq<char>>,
) -> LevelFilter
    decreases ps.len(),
{
    if ps.len() == 0 {
        default_filter
    } else if overrides.contains_key(ps.last()) {
        overrides[ps.last()]
    } else {
        resolve_ps(overrides, default_filter, ps.drop_last())
    }
}

/// The mathematical content of a logger's configuration.
pub struct LoggerView {
    /// The threshold used when no override matches.
    pub top_filter: LevelFilter,
    /// The per-path override thresholds, keyed by the path in `::` form.
    pub overrides: Map<Seq<char>, LevelFilter>,
    /// The caching mode.
    pub caching: Caching,
}

impl LoggerView {
    /// The effective threshold for a path: the override of the most specific
    /// configured ancestor — the longest match among the path's cumulative
    /// prefixes, the path itself included — or the default when none match.
    pub open spec fn resolve(self, t: Seq<char>) -> LevelFilter {
        resolve_ps(self.overrides, self.top_filter, prefixes(t))
    }
}

/// The threshold a cache lookup result carries: `Trace` ("no restriction")
/// unless the lookup found a node with an entry. An absent entry must never
/// suppress a message; it only defers to the table check and the host.
pub open spec fn cached_filter_of(cache: Option<Arc<CacheNode>>) -> LevelFilter {
    match cache {
        Some(node) => match (*node).local {
            Some(e) => e.filter,
            None => LevelFilter::Trace,
        },
        None => LevelFilter::Trace,
    }
}

/// Whether a cache lookup result already carries a host handle.
pub open spec fn has_cached_handle(cache: Option<Arc<CacheNode>>) -> bool {
    match cache {
        Some(node) => (*node).local is Some,
        None => false,
    }
}

/// The eligibility decision of one logging call: the message passes iff it
/// passes both the cached host threshold and the filter table.
pub open spec fn should_emit_spec(
    v: LoggerView,
    t: Seq<char>,
    level: Level,
    cache: Option<Arc<CacheNode>>,
) -> bool {
    level.verbosity() <= cached_filter_of(cache).verbosity() && level.verbosity()
        <= v.resolve(t).verbosity()
}

/// The bridge: filters log events against its table and its cache, and
/// forwards what passes into the host's logging subsystem.
pub struct Logger {
    /// Filter used as a fallback if none of the overrides match.
    top_filter: LevelFilter,
    /// Override thresholds per path, stored in `::` form, each path at most
    /// once.
    filters: Vec<(String, LevelFilter)>,
    /// Caching configuration.
    caching: Caching,
    /// The shared, atomically swappable cache tree root.
    cache: Arc<CacheCell>,
}

impl View for Logger {
    type V = LoggerView;

    closed spec fn view(&self) -> LoggerView {
        LoggerView {
            top_filter: self.top_filter,
            overrides: assoc_map(self.filters@),
            caching: self.caching,
        }
    }
}

/// A handle into a [`Logger`], able to reset its caches even after the
/// logger has been installed, for example when the host's logging settings
/// change.
#[derive(Clone)]
pub struct ResetHandle(Arc<CacheCell>);

impl ResetHandle {
    /// Resets the logger's caches: unconditionally installs a fresh, empty
    /// tree, winning over any concurrent cache population.
    pub fn reset(&self) {
        store_cache(&self.0, Arc::new(CacheNode::empty()));
    }
}

/// The value of the first table pair carrying `key`, if any.
fn table_get(filters: &Vec<(String, LevelFilter)>, key: &String) -> (r: Option<LevelFilter>)
    ensures
        r == assoc(filters@, key@),
{
    let mut k: usize = 0;
    proof {
        assert(filters@.skip(0) =~= filters@);
    }
    while k < filters.len()
        invariant
            k <= filters@.len(),
            assoc(filters@, key@) == assoc(filters@.skip(k as int), key@),
        decreases filters@.len() - k,
    {
        proof {
            assert(filters@.skip(k as int)[0] == filters@[k as int]);
            assert(filters@.skip(k as int).skip(1) =~= filters@.skip(k as int + 1));
        }
        if filters[k].0 == *key {
            return Some(filters[k].1);
        }
        k = k + 1;
    }
    proof {
        assert(filters@.skip(k as int) =~= Seq::<(String, LevelFilter)>::empty());
    }
    None
}

/// The first index of the table pair carrying `key`, if any.
fn table_index(filters: &Vec<(String, LevelFilter)>, key: &String) -> (r: Option<usize>)
    ensures
        match r {
            Some(k) => k < filters@.len() && filters@[k as int].0@ == key@ && (forall|j: int|
                0 <= j < k ==> filters@[j].0@ != key@),
            None => forall|j: int| 0 <= j < filters@.len() ==> filters@[j].0@ != key@,
        },
{
    let mut k: usize = 0;
    while k < filters.len()
        invariant
            k <= filters@.len(),
            forall|j: int| 0 <= j < k ==> filters@[j].0@ != key@,
        decreases filters@.len() - k,
    {
        if filters[k].0 == *key {
            return Some(k);
        }
        k = k + 1;
    }
    None
}

impl Logger {
    /// Override paths are stored at most once, so "the override of a path"
    /// is unambiguous.
    #[verifier::type_invariant]
    spec fn wf(self) -> bool {
        forall|i: int, j: int|
            0 <= i < j < self.filters@.len() ==> self.filters@[i].0@ != self.filters@[j].0@
    }

    /// Creates a new bridge with the given caching mode, an empty cache, a
    /// default threshold of `Debug`, and no overrides.
    pub fn new(caching: Caching) -> (r: Logger)
        ensures
            r@.top_filter == LevelFilter::Debug,
            r@.overrides == Map::<Seq<char>, LevelFilter>::empty(),
            r@.caching == caching,
    {
        Logger {
            top_filter: LevelFilter::Debug,
            filters: Vec::new(),
            caching,
            cache: new_cache_cell(CacheNode::empty()),
        }
    }

    /// Configures the default threshold, used when no override matches.
    pub fn filter(self, filter: LevelFilter) -> (r: Logger)
        ensures
            r@ == (LoggerView { top_filter: filter, ..self@ }),
    {
        proof {
            use_type_invariant(&self);
        }
        let Logger { top_filter: _, filters, caching, cache } = self;
        Logger { top_filter: filter, filters, caching, cache }
    }

    /// Sets the override threshold for one path (and thereby all its
    /// descendants without a more specific override), replacing any override
    /// previously set for the same path.
    pub fn filter_target(self, target: String, filter: LevelFilter) -> (r: Logger)
        ensures
            r@ == (LoggerView { overrides: self@.overrides.insert(target@, filter), ..self@ }),
    {
        proof {
            use_type_invariant(&self);
        }
        let Logger { top_filter, mut filters, caching, cache } = self;
        let ghost old_filters = filters@;
        match table_index(&filters, &target) {
            Some(k) => {
                filters.remove(k);
                let ghost removed = filters@;
                filters.insert(k, (target, filter));
                proof {
                    let ghost v = filters@[k as int];
                    assert(v.0@ == old_filters[k as int].0@ && v.1 == filter);
                    assert forall|m: int|
                        0 <= m < filters@.len() implies #[trigger] filters@[m] == old_filters
                        .update(k as int, v)[m] by {
                        if m > k {
                            assert(filters@[m] == removed[m - 1]);
                            assert(removed[m - 1] == old_filters[m]);
                        }
                    }
                    assert(filters@ =~= old_filters.update(k as int, v));
                    lemma_assoc_map_update(old_filters, k as int, v);
                    assert(forall|m: int|
                        0 <= m < filters@.len() ==> (#[trigger] filters@[m]).0@ == old_filters[m].0@);
                }
            },
            None => {
                filters.push((target, filter));
                proof {
                    assert(filters@ =~= old_filters.push(
                        (filters@[old_filters.len() as int].0, filter),
                    ));
                    assert(filters@[old_filters.len() as int].0@ == target@);
                    lemma_assoc_map_push(old_filters, filters@[old_filters.len() as int]);
                    assert(forall|m: int| 0 <= m < old_filters.len() ==> filters@[m] == old_filters[m]);
                }
            },
        }
        Logger { top_filter, filters, caching, cache }
    }

    /// Resolves the effective threshold for `target`: the override of the
    /// most specific configured ancestor, or the default threshold.
    pub fn filter_for(&self, target: &str) -> (f: LevelFilter)
        ensures
            f == self@.resolve(target@),
    {
        let ghost t = target@;
        let ghost ps = prefixes(t);
        let ghost ov = self@.overrides;
        let segs = split_target(target);
        proof {
            assert(ps.len() == segs@.len());
            assert(segments(t).take(1) =~= seq![segments(t)[0]]);
            assert(join_segments(seq![segments(t)[0]]) == segments(t)[0]);
        }
        let mut prefix: String = segs[0].clone();
        let mut f: LevelFilter;
        match table_get(&self.filters, &prefix) {
            Some(v) => {
                f = v;
            },
            None => {
                f = self.top_filter;
            },
        }
        proof {
            assert(prefix@ == ps[0]);
            lemma_assoc_map_agrees(self.filters@, prefix@);
            assert(ps.take(1).last() == ps[0]);
            assert(ps.take(1).drop_last() =~= Seq::<Seq<char>>::empty());
            assert(resolve_ps(ov, self@.top_filter, Seq::<Seq<char>>::empty())
                == self@.top_filter);
            assert(f == resolve_ps(ov, self@.top_filter, ps.take(1)));
        }
        let mut j: usize = 1;
        while j < segs.len()
            invariant
                1 <= j <= segs@.len(),
                ps.len() == segs@.len(),
                ps == prefixes(t),
                ov == self@.overrides,
                crate::path::views_of(segs@) == segments(t),
                prefix@ == ps[j - 1],
                f == resolve_ps(ov, self@.top_filter, ps.take(j as int)),
            decreases segs@.len() - j,
        {
            proof {
                reveal_strlit("::");
                assert("::"@ =~= seq![':', ':']);
                assert(segments(t).take(j as int + 1) =~= segments(t).take(j as int).push(
                    segments(t)[j as int],
                ));
                lemma_join_snoc(segments(t).take(j as int), segments(t)[j as int]);
                assert(segs@[j as int]@ == segments(t)[j as int]);
            }
            prefix.append("::");
            prefix.append(segs[j].as_str());
            proof {
                assert(prefix@ == ps[j as int]);
            }
            match table_get(&self.filters, &prefix) {
                Some(v) => {
                    f = v;
                },
                None => {
                },
            }
            proof {
                lemma_assoc_map_agrees(self.filters@, prefix@);
                assert(ps.take(j as int + 1).last() == ps[j as int]);
                assert(ps.take(j as int + 1).drop_last() =~= ps.take(j as int));
            }
            j = j + 1;
        }
        proof {
            assert(ps.take(segs@.len() as int) =~= ps);
        }
        f
    }

    /// The host-free eligibility check against an already made cache lookup.
    pub fn enabled_inner(&self, level: Level, target: &str, cache: &Option<Arc<CacheNode>>) -> (r:
        bool)
        ensures
            r == should_emit_spec(self@, target@, level, *cache),
    {
        let cache_filter = match cache {
            Some(node) => {
                let nd: &CacheNode = &**node;
                match &nd.local {
                    Some(e) => e.filter,
                    None => LevelFilter::Trace,
                }
            },
            None => LevelFilter::Trace,
        };
        level.passes(cache_filter) && level.passes(self.filter_for(target))
    }

    /// Finds the cached node for `target` in the current tree; caching
    /// `Nothing` never looks anything up. What the walk finds is exactly what
    /// the loaded tree holds; which tree is current is up to the shared cell.
    pub fn lookup(&self, target: &str) -> (r: Option<Arc<CacheNode>>)
        ensures
            self@.caching == Caching::Nothing ==> r is None,
    {
        if self.caching == Caching::Nothing {
            return None;
        }
        let root = load_cache(&self.cache);
        let segs = split_target(target);
        find_in_tree(&root, &segs)
    }

    /// Whether `h` resets this logger's cache.
    pub closed spec fn shares_cache_with(&self, h: &ResetHandle) -> bool {
        self.cache == h.0
    }

    /// A reset handle bound to this logger's cache. Installing the logger
    /// returns one too; this one exists for loggers handed to an aggregating
    /// log system instead.
    pub fn reset_handle(&self) -> (r: ResetHandle)
        ensures
            self.shares_cache_with(&r),
    {
        ResetHandle(share_cell(&self.cache))
    }

    /// The systems-side gate to advertise at installation: the most
    /// permissive of the default threshold and every override, so that no
    /// configured override is starved by a stricter global gate.
    pub fn global_filter(&self) -> (r: LevelFilter)
        ensures
            r.verbosity() >= self@.top_filter.verbosity(),
            forall|k: Seq<char>|
                self@.overrides.contains_key(k) ==> self@.overrides[k].verbosity()
                    <= r.verbosity(),
            r == self@.top_filter || (exists|k: Seq<char>|
                self@.overrides.contains_key(k) && self@.overrides[k] == r),
    {
        proof {
            use_type_invariant(&*self);
        }
        let mut r = self.top_filter;
        let mut i: usize = 0;
        while i < self.filters.len()
            invariant
                i <= self.filters@.len(),
                r.verbosity() >= self.top_filter.verbosity(),
                forall|j: int|
                    0 <= j < i ==> (#[trigger] self.filters@[j]).1.verbosity() <= r.verbosity(),
                r == self.top_filter || (exists|j: int|
                    0 <= j < i && (#[trigger] self.filters@[j]).1 == r),
            decreases self.filters@.len() - i,
        {
            let ghost old_r = r;
            r = r.most_verbose(self.filters[i].1);
            proof {
                if r != old_r {
                    assert(self.filters@[i as int].1 == r);
                }
            }
            i = i + 1;
        }
        proof {
            assert forall|k: Seq<char>| self@.overrides.contains_key(k) implies self@.overrides.index(
                k,
            ).verbosity() <= r.verbosity() by {
                lemma_assoc_map_agrees(self.filters@, k);
                lemma_assoc_index(self.filters@, k);
                let j = choose|j: int|
                    0 <= j < self.filters@.len() && self.filters@[j].0@ == k && self.filters@[j].1
                        == assoc(self.filters@, k).unwrap();
                assert(self.filters@[j].1.verbosity() <= r.verbosity());
            }
            if r != self.top_filter {
                let j = choose|j: int|
                    0 <= j < self.filters@.len() && (#[trigger] self.filters@[j]).1 == r;
                lemma_assoc_map_first(self.filters@, j);
                assert(self@.overrides.contains_key(self.filters@[j].0@) && self@.overrides[self
                    .filters@[j].0@] == r);
            }
        }
        r
    }

    /// One attempt to deliver an eligible record to the host. Returns the
    /// freshly obtained handle exactly when it should be remembered: when it
    /// did not come from the cache and caching is on. The enablement check
    /// asks the host even for a cached handle, since the host's configuration
    /// can change behind the cache's back.
    fn log_inner(
        &self,
        py: Python<'_>,
        target: &str,
        level: Level,
        file: Option<&str>,
        line: u32,
        msg: &str,
        cache: &Option<Arc<CacheNode>>,
    ) -> (r: Result<Option<Py<PyAny>>, PyErr>)
        ensures
            r matches Ok(h) ==> (h is Some) == (self@.caching != Caching::Nothing
                && !has_cached_handle(*cache)),
    {
        let name = translate_target(target);
        let py_level = map_level(level);
        let mut cached_ref: Option<&Py<PyAny>> = None;
        match cache {
            Some(node) => {
                let nd: &CacheNode = &**node;
                match &nd.local {
                    Some(e) => {
                        cached_ref = Some(&e.logger);
                    },
                    None => {},
                }
            },
            None => {},
        }
        let logger: Py<PyAny>;
        let was_cached: bool;
        match cached_ref {
            Some(l) => {
                logger = host::clone_handle(py, l);
                was_cached = true;
            },
            None => {
                match host::get_logger(py, name.as_str()) {
                    Ok(l) => {
                        logger = l;
                    },
                    Err(e) => {
                        return Err(e);
                    },
                }
                was_cached = false;
            },
        }
        let enabled_now = match host::is_enabled_for(py, &logger, py_level) {
            Ok(b) => b,
            Err(e) => {
                return Err(e);
            },
        };
        if enabled_now {
            let record = match host::make_record(
                py,
                &logger,
                name.as_str(),
                py_level,
                file,
                line,
                msg,
            ) {
                Ok(rec) => rec,
                Err(e) => {
                    return Err(e);
                },
            };
            match host::handle_record(py, &logger, record) {
                Ok(u) => u,
                Err(e) => {
                    return Err(e);
                },
            }
        }
        if !was_cached && !(self.caching == Caching::Nothing) {
            Ok(Some(logger))
        } else {
            Ok(None)
        }
    }

    /// Builds the copy-on-write replacement tree that stores `entry` for
    /// `target` and offers it to the shared cell. If another update or a
    /// reset got there first, the new tree is dropped: the cache may lose an
    /// update, but it never resurrects pre-reset state by overwriting.
    fn store_to_cache(&self, py: Python<'_>, target: &str, entry: CacheEntry) {
        let segs = split_target(target);
        let orig = load_cache(&self.cache);
        let new = orig.store_to_cache_recursive(py, &segs, 0, entry);
        compare_and_swap_cache(&self.cache, &orig, new);
    }

    /// The host-side half of one eligible logging call, run while attached to
    /// the host: deliver the record if the host's live configuration allows
    /// it, then remember a freshly obtained handle according to the caching
    /// mode — with full caching, together with the threshold probed from the
    /// host. A host failure is reported to the host's own error channel and
    /// otherwise swallowed: logging never fails the instrumented code.
    pub fn log_with_py(
        &self,
        py: Python<'_>,
        target: &str,
        level: Level,
        file: Option<&str>,
        line: Option<u32>,
        msg: &str,
        cache: &Option<Arc<CacheNode>>,
    ) {
        let line_num = match line {
            Some(l) => l,
            None => 0,
        };
        match self.log_inner(py, target, level, file, line_num, msg, cache) {
            Ok(Some(logger)) => {
                let probed: Option<LevelFilter> = if self.caching == Caching::LoggersAndLevels {
                    match extract_max_level(py, &logger) {
                        Ok(f) => Some(f),
                        Err(e) => {
                            host::report_error(py, e);
                            None
                        },
                    }
                } else {
                    None
                };
                let filter = cache_filter_choice(self.caching, probed);
                let entry = CacheEntry { filter, logger };
                self.store_to_cache(py, target, entry);
            },
            Ok(None) => {},
            Err(e) => host::report_error(py, e),
        }
    }

    /// One logging call: look up the cache, decide host-free whether the
    /// event can pass at all, and only then attach to the host to deliver it.
    pub fn log_event(
        &self,
        target: &str,
        level: Level,
        file: Option<&str>,
        line: Option<u32>,
        msg: &str,
    ) {
        let cache = self.lookup(target);
        if self.enabled_inner(level, target, &cache) {
            log_attached(self, target, level, file, line, msg, &cache);
        }
    }

    /// The host-free pre-check of one logging call. The filter table is a
    /// hard upper bound whatever the cache holds; with caching off the table
    /// alone decides.
    pub fn enabled(&self, target: &str, level: Level) -> (r: bool)
        ensures
            level.verbosity() > self@.resolve(target@).verbosity() ==> !r,
            self@.caching == Caching::Nothing ==> r == (level.verbosity() <= self@.resolve(
                target@,
            ).verbosity()),
    {
        let cache = self.lookup(target);
        self.enabled_inner(level, target, &cache)
    }
}

impl Default for Logger {
    /// A logger with the default configuration: threshold `Debug`, no
    /// overrides, full caching.
    fn default() -> (r: Self)
        ensures
            r@.top_filter == LevelFilter::Debug,
            r@.overrides == Map::<Seq<char>, LevelFilter>::empty(),
            r@.caching == Caching::LoggersAndLevels,
    {
        Logger::new(Caching::LoggersAndLevels)
    }
}

/// The threshold cached beside a freshly obtained handle: under full caching
/// the threshold probed from the host, falling back to "no restriction"
/// (`Trace`) when the probe failed; under handle-only caching always "no
/// restriction", so the host is asked again on every call.
pub open spec fn chosen_cache_filter(caching: Caching, probed: Option<LevelFilter>) -> LevelFilter {
    if caching == Caching::LoggersAndLevels {
        match probed {
            Some(f) => f,
            None => LevelFilter::Trace,
        }
    } else {
        LevelFilter::Trace
    }
}

/// Selects the threshold to cache for a freshly obtained handle. Entries are
/// only ever stored with caching on.
pub fn cache_filter_choice(caching: Caching, probed: Option<LevelFilter>) -> (r: LevelFilter)
    requires
        caching != Caching::Nothing,
    ensures
        r == chosen_cache_filter(caching, probed),
{
    match caching {
        Caching::Nothing => LevelFilter::Trace,
        Caching::Loggers => LevelFilter::Trace,
        Caching::LoggersAndLevels => match probed {
            Some(f) => f,
            None => LevelFilter::Trace,
        },
    }
}

/// The law of one probe: a positive enablement answer at `l` fixes the
/// effective threshold at exactly `l`; a negative answer decides nothing and
/// the probe moves on.
fn probe_step(l: Level, enabled: bool) -> (r: Option<LevelFilter>)
    ensures
        r == (if enabled {
            Some(l.as_filter())
        } else {
            None::<LevelFilter>
        }),
{
    if enabled {
        Some(l.to_level_filter())
    } else {
        None
    }
}

/// The probe order: the five levels from the most verbose (`Trace`) up to
/// the most severe (`Error`).
fn probe_order(i: u8) -> (l: Level)
    requires
        i < 5,
    ensures
        l.verbosity() == 5 - i,
{
    match i {
        0 => Level::Trace,
        1 => Level::Debug,
        2 => Level::Info,
        3 => Level::Warn,
        _ => Level::Error,
    }
}

/// Probes the host for the effective threshold of a handle: asks about each
/// level in probe order and stops at the first the host reports enabled;
/// `Off` when none is. The answers follow the host's live configuration and
/// cannot be pinned down here; what each answer decides is stated and
/// verified in `probe_step`.
fn extract_max_level(py: Python<'_>, logger: &Py<PyAny>) -> Result<LevelFilter, PyErr> {
    let mut i: u8 = 0;
    while i < 5
        invariant
            i <= 5,
        decreases 5 - i,
    {
        let l = probe_order(i);
        let enabled = match host::is_enabled_for(py, logger, map_level(l)) {
            Ok(b) => b,
            Err(e) => {
                return Err(e);
            },
        };
        match probe_step(l, enabled) {
            Some(f) => {
                return Ok(f);
            },
            None => {},
        }
        i = i + 1;
    }
    Ok(LevelFilter::Off)
}

/// Relies on `Python::attach`: enters the host interpreter (initializing it
/// if needed) and runs the verified `Logger::log_with_py` for this event.
#[verifier::external_body]
fn log_attached(
    logger: &Logger,
    target: &str,
    level: Level,
    file: Option<&str>,
    line: Option<u32>,
    msg: &str,
    cache: &Option<Arc<CacheNode>>,
) {
    pyo3::Python::attach(|py| logger.log_with_py(py, target, level, file, line, msg, cache));
}

/// The filter table is a hard upper bound: whatever the cache holds, a
/// message more verbose than the resolved threshold is never eligible.
pub proof fn lemma_filter_table_is_hard_bound(
    v: LoggerView,
    t: Seq<char>,
    level: Level,
    cache: Option<Arc<CacheNode>>,
)
    ensures
        level.verbosity() > v.resolve(t).verbosity() ==> !should_emit_spec(v, t, level, cache),
{
}

/// With no overrides configured, every path resolves exactly to the default
/// threshold.
pub proof fn lemma_no_overrides_resolve_default(v: LoggerView, t: Seq<char>)
    requires
        v.overrides == Map::<Seq<char>, LevelFilter>::empty(),
    ensures
        v.resolve(t) == v.top_filter,
{
    lemma_most_specific_override(v, t);
    assert forall|j: int| 0 <= j < prefixes(t).len() implies !v.overrides.contains_key(
        prefixes(t)[j],
    ) by {}
}

/// With no overrides, a message more verbose than the default threshold is
/// never eligible, on any path and whatever the cache holds; the logging
/// call then returns without consulting the host at all.
pub proof fn lemma_below_default_never_eligible(
    v: LoggerView,
    t: Seq<char>,
    level: Level,
    cache: Option<Arc<CacheNode>>,
)
    requires
        v.overrides == Map::<Seq<char>, LevelFilter>::empty(),
        level.verbosity() > v.top_filter.verbosity(),
    ensures
        !should_emit_spec(v, t, level, cache),
{
    lemma_no_overrides_resolve_default(v, t);
}

/// The most specific (longest) matching ancestor strictly determines the
/// resolved threshold; a path with no configured ancestor falls back exactly
/// to the default.
pub proof fn lemma_most_specific_override(v: LoggerView, t: Seq<char>)
    ensures
        (forall|j: int|
            0 <= j < prefixes(t).len() ==> !v.overrides.contains_key(prefixes(t)[j]))
            ==> v.resolve(t) == v.top_filter,
        (exists|j: int| 0 <= j < prefixes(t).len() && v.overrides.contains_key(prefixes(t)[j]))
            ==> (exists|j: int|
            {
                &&& 0 <= j < prefixes(t).len()
                &&& v.overrides.contains_key(prefixes(t)[j])
                &&& v.resolve(t) == v.overrides[prefixes(t)[j]]
                &&& forall|j2: int|
                    0 <= j2 < prefixes(t).len() && v.overrides.contains_key(prefixes(t)[j2])
                        ==> prefixes(t)[j2].len() <= prefixes(t)[j].len()
            }),
{
    lemma_resolve_ps_most_specific(v.overrides, v.top_filter, prefixes(t));
    if exists|j: int| 0 <= j < prefixes(t).len() && v.overrides.contains_key(prefixes(t)[j]) {
        let j = choose|j: int|
            {
                &&& 0 <= j < prefixes(t).len()
                &&& v.overrides.contains_key(prefixes(t)[j])
                &&& resolve_ps(v.overrides, v.top_filter, prefixes(t)) == v.overrides[prefixes(
                    t,
                )[j]]
                &&& forall|j2: int|
                    j < j2 < prefixes(t).len() ==> !v.overrides.contains_key(prefixes(t)[j2])
            };
        assert forall|j2: int|
            0 <= j2 < prefixes(t).len() && v.overrides.contains_key(prefixes(t)[j2]) implies
            prefixes(t)[j2].len() <= prefixes(t)[j].len() by {
            if j2 > j {
                assert(false);
            } else if j2 < j {
                crate::path::lemma_prefix_lengths(t, j2, j);
            }
        }
    }
}

/// Over any prefix list: the last prefix with an override decides, else the
/// default applies.
proof fn lemma_resolve_ps_most_specific(
    ov: Map<Seq<char>, LevelFilter>,
    d: LevelFilter,
    ps: Seq<Seq<char>>,
)
    ensures
        (forall|j: int| 0 <= j < ps.len() ==> !ov.contains_key(ps[j])) ==> resolve_ps(ov, d, ps)
            == d,
        (exists|j: int| 0 <= j < ps.len() && ov.contains_key(ps[j])) ==> (exists|j: int|
            {
                &&& 0 <= j < ps.len()
                &&& ov.contains_key(ps[j])
                &&& resolve_ps(ov, d, ps) == ov[ps[j]]
                &&& forall|j2: int| j < j2 < ps.len() ==> !ov.contains_key(ps[j2])
            }),
    decreases ps.len(),
{
    if ps.len() == 0 {
    } else if ov.contains_key(ps.last()) {
        let j = ps.len() - 1;
        assert(ps[j] == ps.last());
        assert((0 <= j < ps.len() && ov.contains_key(ps[j]) && resolve_ps(ov, d, ps) == ov[ps[j]]
            && (forall|j2: int| j < j2 < ps.len() ==> !ov.contains_key(ps[j2]))));
    } else {
        lemma_resolve_ps_most_specific(ov, d, ps.drop_last());
        assert forall|j: int| 0 <= j < ps.len() - 1 implies ps.drop_last()[j] == ps[j] by {}
        if exists|j: int| 0 <= j < ps.len() && ov.contains_key(ps[j]) {
            let w = choose|j: int| 0 <= j < ps.len() && ov.contains_key(ps[j]);
            assert(w < ps.len() - 1);
            assert(ov.contains_key(ps.drop_last()[w]));
            let j = choose|j: int|
                {
                    &&& 0 <= j < ps.drop_last().len()
                    &&& ov.contains_key(ps.drop_last()[j])
                    &&& resolve_ps(ov, d, ps.drop_last()) == ov[ps.drop_last()[j]]
                    &&& forall|j2: int|
                        j < j2 < ps.drop_last().len() ==> !ov.contains_key(ps.drop_last()[j2])
                };
            assert((0 <= j < ps.len() && ov.contains_key(ps[j]) && resolve_ps(ov, d, ps)
                == ov[ps[j]] && (forall|j2: int| j < j2 < ps.len() ==> !ov.contains_key(ps[j2]))))
                by {
                assert forall|j2: int| j < j2 < ps.len() implies !ov.contains_key(ps[j2]) by {
                    if j2 < ps.len() - 1 {
                        assert(ps.drop_last()[j2] == ps[j2]);
                    }
                }
            }
        }
    }
}

/// Resetting is idempotent: a reset installs an empty tree whatever was
/// there before, so the tree after two consecutive resets is exactly the
/// tree after one — it caches nothing, at any path.
pub proof fn lemma_reset_idempotent(once: &CacheNode, twice: &CacheNode, q: Seq<Seq<char>>)
    requires
        once.local is None,
        once.children@.len() == 0,
        twice.local is None,
        twice.children@.len() == 0,
    ensures
        lookup_local(*once, q) == lookup_local(*twice, q),
        lookup_local(*once, q) is None,
{
    crate::cache::lemma_empty_lookup(once, q);
    crate::cache::lemma_empty_lookup(twice, q);
}

} // verus!
