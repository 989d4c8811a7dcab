//! The pinned sites the daemon holds, keyed by site id.
use vstd::prelude::*;

use crate::ipc::PinnedSiteConfig;

verus! {

/// The pinned sites, at most one per id.
pub struct SiteStore {
    sites: Vec<PinnedSiteConfig>,
}

/// Whether no two configurations share an id.
pub open spec fn distinct_ids(s: Seq<PinnedSiteConfig>) -> bool {
    forall|i: int, j: int| 0 <= i < j < s.len() ==> s[i].id@ != s[j].id@
}

/// Whether some configuration has id `id`.
pub open spec fn holds_id(s: Seq<PinnedSiteConfig>, id: Seq<char>) -> bool {
    exists|i: int| 0 <= i < s.len() && s[i].id@ == id
}

/// The configurations as a map from id to configuration.
pub open spec fn as_map(s: Seq<PinnedSiteConfig>) -> Map<Seq<char>, PinnedSiteConfig> {
    Map::new(
        |id: Seq<char>| holds_id(s, id),
        |id: Seq<char>| s[choose|i: int| 0 <= i < s.len() && s[i].id@ == id],
    )
}

/// Each listed configuration is the map's value for its id.
pub proof fn lemma_as_map_at(s: Seq<PinnedSiteConfig>, i: int)
    requires
        distinct_ids(s),
        0 <= i < s.len(),
    ensures
        as_map(s).contains_key(s[i].id@),
        as_map(s)[s[i].id@] == s[i],
{
    let id = s[i].id@;
    assert(holds_id(s, id));
    let j = choose|j: int| 0 <= j < s.len() && s[j].id@ == id;
    if j != i {
        if j < i {
            assert(s[j].id@ != s[i].id@);
        } else {
            assert(s[i].id@ != s[j].id@);
        }
    }
}

proof fn lemma_update_map(old_sites: Seq<PinnedSiteConfig>, i: int, c: PinnedSiteConfig)
    requires
        distinct_ids(old_sites),
        0 <= i < old_sites.len(),
        old_sites[i].id@ == c.id@,
    ensures
        distinct_ids(old_sites.update(i, c)),
        as_map(old_sites.update(i, c)) == as_map(old_sites).insert(c.id@, c),
{
    let new_sites = old_sites.update(i, c);
    let id = c.id@;
    assert forall|a: int, b: int| 0 <= a < b < new_sites.len() implies new_sites[a].id@
        != new_sites[b].id@ by {
        assert(old_sites[a].id@ != old_sites[b].id@);
    }
    assert(as_map(new_sites) =~= as_map(old_sites).insert(id, c)) by {
        assert forall|k: Seq<char>| #[trigger] holds_id(new_sites, k) == (holds_id(old_sites, k)
            || k == id) by {
            if holds_id(old_sites, k) {
                let j = choose|j: int| 0 <= j < old_sites.len() && old_sites[j].id@ == k;
                if j == i {
                    assert(k == id);
                } else {
                    assert(new_sites[j].id@ == k);
                }
            }
            if k == id {
                assert(new_sites[i].id@ == k);
            }
            if holds_id(new_sites, k) {
                let j = choose|j: int| 0 <= j < new_sites.len() && new_sites[j].id@ == k;
                if j != i {
                    assert(old_sites[j].id@ == k);
                }
            }
        }
        assert forall|k: Seq<char>| #[trigger] as_map(new_sites).contains_key(k) implies as_map(
            new_sites,
        )[k] == as_map(old_sites).insert(id, c)[k] by {
            let j = choose|j: int| 0 <= j < new_sites.len() && new_sites[j].id@ == k;
            lemma_as_map_at(new_sites, j);
            if j == i {
                assert(k == id);
            } else {
                assert(old_sites[j] == new_sites[j]);
                lemma_as_map_at(old_sites, j);
            }
        }
    }
}

impl SiteStore {
    #[verifier::type_invariant]
    spec fn unique(self) -> bool {
        distinct_ids(self.sites@)
    }

    /// The configurations in the order they are enumerated.
    pub closed spec fn entries(&self) -> Seq<PinnedSiteConfig> {
        self.sites@
    }

    /// The store as a map from site id to configuration.
    pub closed spec fn map(&self) -> Map<Seq<char>, PinnedSiteConfig> {
        as_map(self.sites@)
    }

    /// An empty store.
    pub fn new() -> (r: Self)
        ensures
            r.map() == Map::<Seq<char>, PinnedSiteConfig>::empty(),
            r.entries().len() == 0,
    {
        let r = SiteStore { sites: Vec::new() };
        assert(r.map() =~= Map::<Seq<char>, PinnedSiteConfig>::empty());
        r
    }

    /// The configuration pinned under `id`.
    pub fn get(&self, id: &str) -> (r: Option<&PinnedSiteConfig>)
        ensures
            match r {
                Some(c) => self.map().contains_key(id@) && *c == self.map()[id@],
                None => !self.map().contains_key(id@),
            },
    {
        proof {
            use_type_invariant(self);
        }
        let mut i: usize = 0;
        while i < self.sites.len()
            invariant
                i <= self.sites@.len(),
                distinct_ids(self.sites@),
                forall|j: int| 0 <= j < i ==> self.sites@[j].id@ != id@,
            decreases self.sites@.len() - i,
        {
            if crate::text::str_eq(self.sites[i].id.as_str(), id) {
                proof {
                    lemma_as_map_at(self.sites@, i as int);
                }
                return Some(&self.sites[i]);
            }
            i += 1;
        }
        None
    }

    /// Pins `cfg`, replacing the configuration with its id if there is one.
    pub fn insert(&mut self, cfg: PinnedSiteConfig)
        ensures
            final(self).map() == old(self).map().insert(cfg.id@, cfg),
    {
        proof {
            use_type_invariant(&*self);
        }
        let ghost old_sites = self.sites@;
        let mut i: usize = 0;
        while i < self.sites.len() && self.sites[i].id != cfg.id
            invariant
                old_sites == self.sites@,
                i <= self.sites@.len(),
                distinct_ids(self.sites@),
                forall|j: int| 0 <= j < i ==> self.sites@[j].id@ != cfg.id@,
            decreases self.sites@.len() - i,
        {
            i += 1;
        }
        let ghost id = cfg.id@;
        let ghost c = cfg;
        if i < self.sites.len() {
            assert(self.sites@[i as int].id@ == id);
            proof {
                lemma_update_map(old_sites, i as int, c);
            }
            let mut sites: Vec<PinnedSiteConfig> = Vec::new();
            std::mem::swap(&mut sites, &mut self.sites);
            sites.set(i, cfg);
            std::mem::swap(&mut sites, &mut self.sites);
            assert(self.sites@ == old_sites.update(i as int, c));
        } else {
            let ghost new_sites = old_sites.push(c);
            proof {
                assert forall|a: int, b: int| 0 <= a < b < new_sites.len() implies new_sites[a].id@
                    != new_sites[b].id@ by {
                    if b < old_sites.len() {
                        assert(old_sites[a].id@ != old_sites[b].id@);
                    } else {
                        assert(new_sites[a] == old_sites[a]);
                    }
                }
                assert(as_map(new_sites) =~= as_map(old_sites).insert(id, c)) by {
                    assert forall|k: Seq<char>| #[trigger] holds_id(new_sites, k) == (holds_id(
                        old_sites,
                        k,
                    ) || k == id) by {
                        if holds_id(old_sites, k) {
                            let j = choose|j: int| 0 <= j < old_sites.len() && old_sites[j].id@ == k;
                            assert(new_sites[j].id@ == k);
                        }
                        if k == id {
                            assert(new_sites[old_sites.len() as int].id@ == k);
                        }
                        if holds_id(new_sites, k) {
                            let j = choose|j: int| 0 <= j < new_sites.len() && new_sites[j].id@ == k;
                            if j < old_sites.len() {
                                assert(old_sites[j].id@ == k);
                            }
                        }
                    }
                    assert forall|k: Seq<char>| #[trigger] as_map(new_sites).contains_key(k)
                        implies as_map(new_sites)[k] == as_map(old_sites).insert(id, c)[k] by {
                        let j = choose|j: int| 0 <= j < new_sites.len() && new_sites[j].id@ == k;
                        lemma_as_map_at(new_sites, j);
                        if j == old_sites.len() {
                            assert(k == id);
                        } else {
                            assert(old_sites[j] == new_sites[j]);
                            lemma_as_map_at(old_sites, j);
                        }
                    }
                }
            }
            let mut sites: Vec<PinnedSiteConfig> = Vec::new();
            std::mem::swap(&mut sites, &mut self.sites);
            sites.push(cfg);
            std::mem::swap(&mut sites, &mut self.sites);
            assert(self.sites@ == new_sites);
        }
    }

    /// Unpins the site `id`; nothing changes when there is none.
    pub fn remove(&mut self, id: &str)
        ensures
            final(self).map() == old(self).map().remove(id@),
    {
        proof {
            use_type_invariant(&*self);
        }
        let ghost old_sites = self.sites@;
        let mut i: usize = 0;
        while i < self.sites.len() && !crate::text::str_eq(self.sites[i].id.as_str(), id)
            invariant
                old_sites == self.sites@,
                i <= self.sites@.len(),
                distinct_ids(self.sites@),
                forall|j: int| 0 <= j < i ==> self.sites@[j].id@ != id@,
            decreases self.sites@.len() - i,
        {
            i += 1;
        }
        if i < self.sites.len() {
            let ghost new_sites = old_sites.remove(i as int);
            proof {
                assert forall|a: int, b: int| 0 <= a < b < new_sites.len() implies new_sites[a].id@
                    != new_sites[b].id@ by {
                    let oa = if a < i {
                        a
                    } else {
                        a + 1
                    };
                    let ob = if b < i {
                        b
                    } else {
                        b + 1
                    };
                    assert(new_sites[a] == old_sites[oa]);
                    assert(new_sites[b] == old_sites[ob]);
                    assert(old_sites[oa].id@ != old_sites[ob].id@);
                }
                assert(as_map(new_sites) =~= as_map(old_sites).remove(id@)) by {
                    assert forall|k: Seq<char>| #[trigger] holds_id(new_sites, k) == (holds_id(
                        old_sites,
                        k,
                    ) && k != id@) by {
                        if holds_id(old_sites, k) && k != id@ {
                            let j = choose|j: int| 0 <= j < old_sites.len() && old_sites[j].id@ == k;
                            assert(j != i);
                            if j < i {
                                assert(new_sites[j].id@ == k);
                            } else {
                                assert(new_sites[j - 1].id@ == k);
                            }
                        }
                        if holds_id(new_sites, k) {
                            let j = choose|j: int| 0 <= j < new_sites.len() && new_sites[j].id@ == k;
                            let oj = if j < i {
                                j
                            } else {
                                j + 1
                            };
                            assert(old_sites[oj].id@ == k);
                            assert(old_sites[oj].id@ != old_sites[i as int].id@);
                        }
                    }
                    assert forall|k: Seq<char>| #[trigger] as_map(new_sites).contains_key(k)
                        implies as_map(new_sites)[k] == as_map(old_sites).remove(id@)[k] by {
                        let j = choose|j: int| 0 <= j < new_sites.len() && new_sites[j].id@ == k;
                        lemma_as_map_at(new_sites, j);
                        let oj = if j < i {
                            j
                        } else {
                            j + 1
                        };
                        assert(old_sites[oj] == new_sites[j]);
                        lemma_as_map_at(old_sites, oj);
                    }
                }
            }
            let mut sites: Vec<PinnedSiteConfig> = Vec::new();
            std::mem::swap(&mut sites, &mut self.sites);
            sites.remove(i);
            std::mem::swap(&mut sites, &mut self.sites);
            assert(self.sites@ == new_sites);
        } else {
            assert(as_map(old_sites) =~= as_map(old_sites).remove(id@)) by {
                assert(!holds_id(old_sites, id@));
            }
        }
    }

    /// The pinned configurations, in enumeration order.
    pub fn configs(&self) -> (r: &Vec<PinnedSiteConfig>)
        ensures
            r@ == self.entries(),
            distinct_ids(r@),
            self.map() == as_map(r@),
    {
        proof {
            use_type_invariant(self);
        }
        &self.sites
    }

    /// Replaces the manifest of the site `id`; false when there is no such site.
    pub fn set_manifest(&mut self, id: &str, manifest: Option<crate::ipc::WebManifestSummary>) -> (r:
        bool)
        ensures
            r == old(self).map().contains_key(id@),
            r ==> final(self).map() == old(self).map().insert(
                id@,
                PinnedSiteConfig { manifest: manifest, ..old(self).map()[id@] },
            ),
            !r ==> final(self).map() == old(self).map(),
    {
        proof {
            use_type_invariant(&*self);
        }
        let mut i: usize = 0;
        while i < self.sites.len() && !crate::text::str_eq(self.sites[i].id.as_str(), id)
            invariant
                i <= self.sites@.len(),
                distinct_ids(self.sites@),
                forall|j: int| 0 <= j < i ==> self.sites@[j].id@ != id@,
            decreases self.sites@.len() - i,
        {
            i += 1;
        }
        if i == self.sites.len() {
            return false;
        }
        let ghost old_sites = self.sites@;
        proof {
            lemma_as_map_at(old_sites, i as int);
        }
        let mut sites: Vec<PinnedSiteConfig> = Vec::new();
        std::mem::swap(&mut sites, &mut self.sites);
        let mut cfg = sites.remove(i);
        cfg.manifest = manifest;
        let ghost c = cfg;
        sites.insert(i, cfg);
        assert(sites@ =~= old_sites.update(i as int, c));
        proof {
            lemma_update_map(old_sites, i as int, c);
        }
        std::mem::swap(&mut sites, &mut self.sites);
        true
    }
}

/// The map after inserting each configuration of `s` in order, later ones
/// replacing earlier ones with the same id.
pub open spec fn insert_all(m: Map<Seq<char>, PinnedSiteConfig>, s: Seq<PinnedSiteConfig>) -> Map<
    Seq<char>,
    PinnedSiteConfig,
>
    decreases s.len(),
{
    if s.len() == 0 {
        m
    } else {
        insert_all(m, s.drop_last()).insert(s.last().id@, s.last())
    }
}

impl SiteStore {
    /// The store holding the configurations read from disk, in reading order.
    pub fn from_configs(configs: Vec<PinnedSiteConfig>) -> (r: Self)
        ensures
            r.map() == insert_all(Map::empty(), configs@),
    {
        let mut store = SiteStore::new();
        let ghost all = configs@;
        let mut configs = configs;
        let n = configs.len();
        let mut i: usize = 0;
        while configs.len() > 0
            invariant
                all.len() == n,
                i <= all.len(),
                configs@ == all.skip(i as int),
                store.map() == insert_all(Map::empty(), all.take(i as int)),
            decreases configs@.len(),
        {
            let c = configs.remove(0);
            assert(c == all[i as int]);
            assert(all.take(i + 1).drop_last() =~= all.take(i as int));
            store.insert(c);
            assert(configs@ =~= all.skip(i + 1));
            i += 1;
        }
        assert(all.take(i as int) =~= all);
        store
    }
}

/// Pinning then looking up: after [`SiteStore::insert`] of `cfg` into a
/// store holding `before`, [`SiteStore::get`] of its id gives `cfg`, and the
/// other ids are untouched.
pub proof fn law_insert_then_get(before: SiteStore, cfg: PinnedSiteConfig, other: Seq<char>)
    ensures
        ({
            let after = before.map().insert(cfg.id@, cfg);
            &&& after.contains_key(cfg.id@)
            &&& after[cfg.id@] == cfg
            &&& other != cfg.id@ ==> (after.contains_key(other) == before.map().contains_key(other) && (
            before.map().contains_key(other) ==> after[other] == before.map()[other]))
        }),
{
}

/// Unpinning then looking up: after [`SiteStore::remove`] of an id,
/// [`SiteStore::get`] of it gives nothing, and the other ids are untouched.
pub proof fn law_remove_then_get(before: SiteStore, id: Seq<char>, other: Seq<char>)
    ensures
        ({
            let after = before.map().remove(id);
            &&& !after.contains_key(id)
            &&& other != id ==> (after.contains_key(other) == before.map().contains_key(other) && (
            before.map().contains_key(other) ==> after[other] == before.map()[other]))
        }),
{
}

/// Unpinning undoes pinning: removing the id of a site that was just
/// pinned into a store that did not hold it gives back the store as it was.
pub proof fn law_unpin_undoes_pin(before: SiteStore, cfg: PinnedSiteConfig)
    requires
        !before.map().contains_key(cfg.id@),
    ensures
        before.map().insert(cfg.id@, cfg).remove(cfg.id@) == before.map(),
{
    assert(before.map().insert(cfg.id@, cfg).remove(cfg.id@) =~= before.map());
}

} // verus!
