//! The fingerprint cache: one entry per plugin id, holding the digest of
//! the plugin's sources at its last successful build, and the rebuild
//! decision taken from it. A missing artifact, a missing entry, or a
//! changed digest all require a rebuild; only a full match allows a skip.
use vstd::prelude::*;
use vstd::string::StringExecFns;
use crate::text::str_eq;

verus! {

/// Model of one cache entry.
#[verifier::ext_equal]
pub ghost struct CacheEntryModel {
    pub source_hash: Seq<char>,
    pub built_at: u64,
}

/// Cache entry for a single plugin: the digest of its sources and the
/// time of its last successful build, in seconds since the Unix epoch.
pub struct PluginCacheEntry {
    pub source_hash: String,
    pub built_at: u64,
}

impl View for PluginCacheEntry {
    type V = CacheEntryModel;

    open spec fn view(&self) -> CacheEntryModel {
        CacheEntryModel { source_hash: self.source_hash@, built_at: self.built_at }
    }
}

/// The persisted build cache: plugin id to cache entry, first entry wins.
pub struct BuildCache {
    pub entries: Vec<(String, PluginCacheEntry)>,
}

/// The entry recorded for `id`, if any.
pub open spec fn lookup(
    entries: Seq<(String, PluginCacheEntry)>,
    id: Seq<char>,
) -> Option<CacheEntryModel>
    decreases entries.len(),
{
    if entries.len() == 0 {
        None
    } else if entries[0].0@ == id {
        Some(entries[0].1@)
    } else {
        lookup(entries.drop_first(), id)
    }
}

/// A lookup passes over a prefix that does not hold the id.
proof fn lemma_lookup_skip(entries: Seq<(String, PluginCacheEntry)>, id: Seq<char>, m: int)
    requires
        0 <= m <= entries.len(),
        forall|k: int| 0 <= k < m ==> (#[trigger] entries[k]).0@ != id,
    ensures
        lookup(entries, id) == lookup(entries.skip(m), id),
    decreases m,
{
    if m > 0 {
        assert(entries[0].0@ != id);
        assert(entries.drop_first() =~= entries.skip(1));
        lemma_lookup_skip(entries.skip(1), id, m - 1);
        assert(entries.skip(1).skip(m - 1) =~= entries.skip(m));
    } else {
        assert(entries.skip(0) =~= entries);
    }
}

/// A lookup in a concatenation takes the left answer when there is one.
proof fn lemma_lookup_append(
    a: Seq<(String, PluginCacheEntry)>,
    b: Seq<(String, PluginCacheEntry)>,
    id: Seq<char>,
)
    ensures
        lookup(a + b, id) == if lookup(a, id) is Some {
            lookup(a, id)
        } else {
            lookup(b, id)
        },
    decreases a.len(),
{
    if a.len() == 0 {
        assert(a + b =~= b);
    } else {
        assert((a + b)[0] == a[0]);
        assert((a + b).drop_first() =~= a.drop_first() + b);
        lemma_lookup_append(a.drop_first(), b, id);
    }
}

impl BuildCache {
    /// A cache with no entries.
    pub fn new() -> (r: Self)
        ensures
            r.entries@ =~= Seq::<(String, PluginCacheEntry)>::empty(),
    {
        BuildCache { entries: Vec::new() }
    }

    /// Where the cache file lives under the repository root.
    pub fn cache_path(repo_root: &str) -> (r: String)
        ensures
            r@ == repo_root@ + "/build/.build_cache.json"@,
    {
        let mut out = repo_root.to_owned();
        out.append("/build/.build_cache.json");
        out
    }

    /// Index of the first entry for the id, if any.
    fn find_index(&self, plugin_id: &str) -> (r: Option<usize>)
        ensures
            match r {
                Some(i) => i < self.entries@.len() && self.entries@[i as int].0@ == plugin_id@
                    && forall|k: int|
                    0 <= k < i ==> (#[trigger] self.entries@[k]).0@ != plugin_id@,
                None => forall|k: int|
                    0 <= k < self.entries@.len() ==> (#[trigger] self.entries@[k]).0@
                        != plugin_id@,
            },
    {
        let n: usize = self.entries.len();
        let mut i: usize = 0;
        while i < n
            invariant
                n == self.entries@.len(),
                0 <= i <= n,
                forall|k: int| 0 <= k < i ==> (#[trigger] self.entries@[k]).0@ != plugin_id@,
            decreases n - i,
        {
            if str_eq(self.entries[i].0.as_str(), plugin_id) {
                return Some(i);
            }
            i += 1;
        }
        None
    }

    /// The entry recorded for a plugin id, if any.
    pub fn get(&self, plugin_id: &str) -> (r: Option<&PluginCacheEntry>)
        ensures
            match r {
                Some(e) => lookup(self.entries@, plugin_id@) == Some(e@),
                None => lookup(self.entries@, plugin_id@) is None,
            },
    {
        match self.find_index(plugin_id) {
            Some(i) => {
                proof {
                    lemma_lookup_skip(self.entries@, plugin_id@, i as int);
                    assert(self.entries@.skip(i as int)[0] == self.entries@[i as int]);
                }
                Some(&self.entries[i].1)
            },
            None => {
                proof {
                    lemma_lookup_skip(self.entries@, plugin_id@, self.entries@.len() as int);
                    assert(self.entries@.skip(self.entries@.len() as int) =~= Seq::<
                        (String, PluginCacheEntry),
                    >::empty());
                }
                None
            },
        }
    }

    /// Records a successful build: the plugin's entry now holds the given
    /// digest and timestamp, and every other plugin's entry is unchanged.
    pub fn set(&mut self, plugin_id: &str, source_hash: String, now: u64)
        ensures
            lookup(final(self).entries@, plugin_id@) == Some(
                CacheEntryModel { source_hash: source_hash@, built_at: now },
            ),
            forall|other: Seq<char>|
                other != plugin_id@ ==> #[trigger] lookup(final(self).entries@, other) == lookup(
                    old(self).entries@,
                    other,
                ),
    {
        let entry = PluginCacheEntry { source_hash, built_at: now };
        let key = plugin_id.to_owned();
        let found = self.find_index(plugin_id);
        let ghost before = self.entries@;
        match found {
            Some(i) => {
                let ghost pos = i as int;
                let _replaced = self.entries.remove(i);
                self.entries.insert(i, (key, entry));
                proof {
                    let a = before.subrange(0, pos);
                    let tail = before.subrange(pos + 1, before.len() as int);
                    let e = self.entries@[pos];
                    assert(before.remove(pos) =~= a + tail);
                    assert(self.entries@ =~= a + (seq![e] + tail)) by {
                        before.remove_ensures(pos);
                        (before.remove(pos)).insert_ensures(pos, e);
                    }
                    assert(before =~= a + (seq![before[pos]] + tail));
                    lemma_lookup_append(a, seq![e] + tail, plugin_id@);
                    lemma_lookup_skip(a, plugin_id@, a.len() as int);
                    assert(a.skip(a.len() as int) =~= Seq::<(String, PluginCacheEntry)>::empty());
                    assert((seq![e] + tail)[0] == e);
                    assert(e.0@ == plugin_id@);
                    assert(lookup(self.entries@, plugin_id@) == Some(e.1@));
                    assert forall|other: Seq<char>| other != plugin_id@ implies #[trigger] lookup(
                        self.entries@,
                        other,
                    ) == lookup(old(self).entries@, other) by {
                        lemma_lookup_append(a, seq![e] + tail, other);
                        lemma_lookup_append(a, seq![before[pos]] + tail, other);
                        assert((seq![e] + tail).drop_first() =~= tail);
                        assert((seq![before[pos]] + tail).drop_first() =~= tail);
                        assert((seq![e] + tail)[0] == e);
                        assert((seq![before[pos]] + tail)[0] == before[pos]);
                        assert(before[pos].0@ == plugin_id@);
                        assert(old(self).entries@ == before);
                    }
                }
            },
            None => {
                self.entries.push((key, entry));
                proof {
                    let e = self.entries@[before.len() as int];
                    assert(self.entries@ =~= before + seq![e]);
                    assert(e.0@ == plugin_id@);
                    lemma_lookup_append(before, seq![e], plugin_id@);
                    lemma_lookup_skip(before, plugin_id@, before.len() as int);
                    assert(before.skip(before.len() as int) =~= Seq::<
                        (String, PluginCacheEntry),
                    >::empty());
                    assert(lookup(self.entries@, plugin_id@) == Some(e.1@));
                    assert forall|other: Seq<char>| other != plugin_id@ implies #[trigger] lookup(
                        self.entries@,
                        other,
                    ) == lookup(old(self).entries@, other) by {
                        lemma_lookup_append(before, seq![e], other);
                        assert(seq![e][0] == e);
                        assert(e.0@ == plugin_id@);
                        assert(seq![e].drop_first() =~= Seq::<(String, PluginCacheEntry)>::empty());
                        assert(lookup(Seq::<(String, PluginCacheEntry)>::empty(), other) is None);
                    }
                }
            },
        }
    }
}

/// The rebuild decision: rebuild unless the artifact is present, an entry
/// is recorded, and the recorded digest equals the current one.
pub open spec fn needs_rebuild_spec(
    entries: Seq<(String, PluginCacheEntry)>,
    id: Seq<char>,
    artifact_exists: bool,
    current_hash: Seq<char>,
) -> bool {
    if !artifact_exists {
        true
    } else {
        match lookup(entries, id) {
            None => true,
            Some(e) => e.source_hash != current_hash,
        }
    }
}

/// Whether a plugin must be rebuilt, given whether its expected artifact
/// exists and the digest freshly computed from its sources. True when the
/// artifact is absent, no entry is recorded, or the digest changed.
pub fn plugin_needs_rebuild(
    cache: &BuildCache,
    plugin_id: &str,
    artifact_exists: bool,
    current_hash: &str,
) -> (r: bool)
    ensures
        r == needs_rebuild_spec(cache.entries@, plugin_id@, artifact_exists, current_hash@),
{
    if !artifact_exists {
        return true;
    }
    match cache.get(plugin_id) {
        None => true,
        Some(e) => !str_eq(e.source_hash.as_str(), current_hash),
    }
}

/// A plugin whose artifact exists and whose recorded digest equals the
/// current one needs no rebuild: unchanged sources are skipped.
pub proof fn lemma_unchanged_source_skips(
    entries: Seq<(String, PluginCacheEntry)>,
    id: Seq<char>,
    current_hash: Seq<char>,
)
    requires
        match lookup(entries, id) {
            Some(e) => e.source_hash == current_hash,
            None => false,
        },
    ensures
        !needs_rebuild_spec(entries, id, true, current_hash),
{
}

/// Records a successful build in the cache: called only after the whole
/// pipeline for the plugin, installation included, has succeeded.
pub fn update_build_cache(cache: &mut BuildCache, plugin_id: &str, source_hash: String, now: u64)
    ensures
        lookup(final(cache).entries@, plugin_id@) == Some(
            CacheEntryModel { source_hash: source_hash@, built_at: now },
        ),
        forall|other: Seq<char>|
            other != plugin_id@ ==> #[trigger] lookup(final(cache).entries@, other) == lookup(
                old(cache).entries@,
                other,
            ),
{
    cache.set(plugin_id, source_hash, now);
}

} // verus!
