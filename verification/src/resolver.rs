//! The module resolver and address matcher: a cache of scanned catalogs
//! keyed by canonical directory path, and the transition that one deployed
//! address makes on it. Scanning a directory is the caller's part: when a
//! chain reaches a module whose catalog is not cached yet, the matcher asks
//! for it and leaves the cache untouched.

use vstd::prelude::*;
use crate::catalog::{
    Module, ModuleV, ResBlockV, module_wf, mods_view,
    mod_has_key, mod_key_idx, res_has_key, res_key_idx,
    unique_mod_keys, unique_res_keys,
    lemma_mod_idx_unique, lemma_res_idx_unique,
    find_module, find_res, mark_res_used, bytes_eq,
};
use crate::scan::copy_bytes;
use crate::address::{Address, AddressV};

verus! {

/// The cache of scanned catalogs, keyed by canonical directory path. It
/// owns every catalog: all usage flags recorded for one path accumulate in
/// the one cached instance.
pub struct Resolver {
    pub cache: Vec<(Vec<u8>, Module)>,
}

/// Lifts the cache to its mathematical image.
pub open spec fn cache_view(s: Seq<(Vec<u8>, Module)>) -> Seq<(Seq<u8>, ModuleV)> {
    s.map_values(|p: (Vec<u8>, Module)| (p.0@, p.1@))
}

impl View for Resolver {
    type V = Seq<(Seq<u8>, ModuleV)>;

    open spec fn view(&self) -> Seq<(Seq<u8>, ModuleV)> {
        cache_view(self.cache@)
    }
}

pub open spec fn unique_cache_keys(s: Seq<(Seq<u8>, ModuleV)>) -> bool {
    forall|i: int, j: int| 0 <= i < j < s.len() ==> (#[trigger] s[i]).0 != (#[trigger] s[j]).0
}

pub open spec fn cache_has(s: Seq<(Seq<u8>, ModuleV)>, p: Seq<u8>) -> bool {
    exists|i: int| 0 <= i < s.len() && (#[trigger] s[i]).0 == p
}

pub open spec fn cache_idx(s: Seq<(Seq<u8>, ModuleV)>, p: Seq<u8>) -> int {
    choose|i: int| 0 <= i < s.len() && (#[trigger] s[i]).0 == p
}

/// One catalog per canonical path, every catalog well formed.
pub open spec fn resolver_wf(s: Seq<(Seq<u8>, ModuleV)>) -> bool {
    &&& unique_cache_keys(s)
    &&& forall|i: int| 0 <= i < s.len() ==> module_wf((#[trigger] s[i]).1)
}

/// With pairwise-distinct paths, any index holding `p` is the looked-up one.
pub proof fn lemma_cache_idx_unique(s: Seq<(Seq<u8>, ModuleV)>, p: Seq<u8>, i: int)
    requires
        unique_cache_keys(s),
        0 <= i < s.len(),
        s[i].0 == p,
    ensures
        cache_has(s, p),
        cache_idx(s, p) == i,
{
    assert(cache_has(s, p));
    let j = cache_idx(s, p);
    if j != i {
        if j < i {
            assert(s[j].0 != s[i].0);
        } else {
            assert(s[i].0 != s[j].0);
        }
    }
}

/// Walking the `module.<name>` chain of an address through the cache,
/// starting from the catalog at `cur`.
pub ghost enum ChainV {
    /// The chain ends at the catalog cached under this path.
    Done(Seq<u8>),
    /// The chain needs the catalog of this path, which is not cached yet.
    Need(Seq<u8>),
    /// A chain segment names no module reference of its catalog.
    MissingMod(Seq<u8>),
}

pub open spec fn resolve_chain(
    s: Seq<(Seq<u8>, ModuleV)>,
    cur: Seq<u8>,
    mods: Seq<Seq<u8>>,
    i: int,
) -> ChainV
    decreases mods.len() - i,
{
    if i < 0 || i >= mods.len() {
        ChainV::Done(cur)
    } else {
        let cat = s[cache_idx(s, cur)].1;
        if !mod_has_key(cat.modules, mods[i]) {
            ChainV::MissingMod(mods[i])
        } else {
            let mb = cat.modules[mod_key_idx(cat.modules, mods[i])].1;
            if !cache_has(s, mb.source_path) {
                ChainV::Need(mb.source_path)
            } else {
                resolve_chain(s, mb.source_path, mods, i + 1)
            }
        }
    }
}

/// A deployed address that resolved to no catalog entry: fatal for the run,
/// naming what was missing.
#[derive(Debug)]
pub enum MatchError {
    UnknownModule { name: Vec<u8> },
    UnknownEntry { is_data: bool, typ: Vec<u8>, name: Vec<u8> },
}

/// Mathematical image of a `MatchError`.
#[verifier::ext_equal]
pub ghost enum MatchErrorV {
    UnknownModule { name: Seq<u8> },
    UnknownEntry { is_data: bool, typ: Seq<u8>, name: Seq<u8> },
}

impl View for MatchError {
    type V = MatchErrorV;

    open spec fn view(&self) -> MatchErrorV {
        match self {
            MatchError::UnknownModule { name } => MatchErrorV::UnknownModule { name: name@ },
            MatchError::UnknownEntry { is_data, typ, name } => MatchErrorV::UnknownEntry {
                is_data: *is_data,
                typ: typ@,
                name: name@,
            },
        }
    }
}

/// The catalog with the declaration at `key` in `data_sources` marked used.
pub open spec fn mark_data(cat: ModuleV, key: (Seq<u8>, Seq<u8>)) -> ModuleV {
    let i = res_key_idx(cat.data_sources, key);
    ModuleV {
        data_sources: cat.data_sources.update(
            i,
            (key, (ResBlockV { used: true, ..cat.data_sources[i].1 })),
        ),
        ..cat
    }
}

/// The catalog with the declaration at `key` in `resources` marked used.
pub open spec fn mark_res(cat: ModuleV, key: (Seq<u8>, Seq<u8>)) -> ModuleV {
    let i = res_key_idx(cat.resources, key);
    ModuleV {
        resources: cat.resources.update(
            i,
            (key, (ResBlockV { used: true, ..cat.resources[i].1 })),
        ),
        ..cat
    }
}

/// What one address does to the cache.
#[verifier::ext_equal]
pub ghost enum ApplyV {
    /// The entry was found; the cache now carries its `used` flag.
    Matched(Seq<(Seq<u8>, ModuleV)>),
    /// The chain needs this path scanned first; the cache is unchanged.
    Need(Seq<u8>),
    /// No catalog entry matches; the cache is unchanged.
    Failed(MatchErrorV),
}

/// The address-matching transition: resolve the module chain from the root,
/// then flip the `used` flag of the addressed declaration in the catalog
/// the chain ends at.
pub open spec fn apply_spec(
    s: Seq<(Seq<u8>, ModuleV)>,
    root: Seq<u8>,
    a: AddressV,
) -> ApplyV {
    match resolve_chain(s, root, a.modules, 0) {
        ChainV::Need(p) => ApplyV::Need(p),
        ChainV::MissingMod(n) => ApplyV::Failed(MatchErrorV::UnknownModule { name: n }),
        ChainV::Done(p) => {
            let ci = cache_idx(s, p);
            let cat = s[ci].1;
            let key = (a.typ, a.name);
            if a.is_data {
                if res_has_key(cat.data_sources, key) {
                    ApplyV::Matched(s.update(ci, (p, mark_data(cat, key))))
                } else {
                    ApplyV::Failed(
                        MatchErrorV::UnknownEntry { is_data: true, typ: a.typ, name: a.name },
                    )
                }
            } else {
                if res_has_key(cat.resources, key) {
                    ApplyV::Matched(s.update(ci, (p, mark_res(cat, key))))
                } else {
                    ApplyV::Failed(
                        MatchErrorV::UnknownEntry { is_data: false, typ: a.typ, name: a.name },
                    )
                }
            }
        },
    }
}

/// The matcher's answer when it could advance: either the entry is marked,
/// or this path must be scanned and inserted first.
#[derive(Debug)]
pub enum ApplyOutcome {
    Matched,
    NeedModule(Vec<u8>),
}

impl Resolver {
    /// An empty cache.
    pub fn new() -> (r: Resolver)
        ensures
            r@ == Seq::<(Seq<u8>, ModuleV)>::empty(),
            resolver_wf(r@),
    {
        let r = Resolver { cache: Vec::new() };
        proof {
            assert(r@ =~= Seq::<(Seq<u8>, ModuleV)>::empty());
        }
        r
    }

    /// Finds the cache slot of a canonical path.
    fn find(&self, p: &Vec<u8>) -> (r: Option<usize>)
        ensures
            match r {
                Some(i) => i < self@.len() && self@[i as int].0 == p@,
                None => !cache_has(self@, p@),
            },
    {
        let mut i: usize = 0;
        while i < self.cache.len()
            invariant
                i <= self.cache@.len(),
                forall|j: int| 0 <= j < i ==> (#[trigger] cache_view(self.cache@)[j]).0 != p@,
            decreases self.cache@.len() - i,
        {
            if bytes_eq(&self.cache[i].0, p) {
                return Some(i);
            }
            i += 1;
        }
        None
    }

    /// Whether a canonical path is cached already.
    pub fn contains(&self, p: &Vec<u8>) -> (r: bool)
        ensures
            r == cache_has(self@, p@),
    {
        match self.find(p) {
            Some(i) => {
                proof {
                    assert(cache_has(self@, p@));
                }
                true
            },
            None => false,
        }
    }

    /// Caches the catalog of a path scanned for the first time.
    pub fn insert_module(&mut self, p: Vec<u8>, m: Module)
        requires
            resolver_wf(old(self)@),
            !cache_has(old(self)@, p@),
            module_wf(m@),
        ensures
            final(self)@ == old(self)@.push((p@, m@)),
            resolver_wf(final(self)@),
    {
        let ghost s0 = self@;
        self.cache.push((p, m));
        proof {
            assert(self@ =~= s0.push((p@, m@)));
            assert(forall|i: int| 0 <= i < s0.len() ==> (#[trigger] s0[i]).0 != p@);
        }
    }
}

} // verus!

verus! {

/// Applies one parsed deployed address against the cache, starting from the
/// root catalog's canonical path: exactly the `apply_spec` transition. On
/// `Matched` the one addressed declaration is now marked used; on
/// `NeedModule` the named path must be scanned and inserted before the same
/// address is retried; on an error nothing changed.
pub fn apply_address(r: &mut Resolver, root: &Vec<u8>, addr: &Address) -> (res: Result<
    ApplyOutcome,
    MatchError,
>)
    requires
        resolver_wf(old(r)@),
        cache_has(old(r)@, root@),
    ensures
        resolver_wf(final(r)@),
        match res {
            Ok(ApplyOutcome::Matched) => apply_spec(old(r)@, root@, addr@) == ApplyV::Matched(
                final(r)@,
            ),
            Ok(ApplyOutcome::NeedModule(p)) => apply_spec(old(r)@, root@, addr@) == ApplyV::Need(p@)
                && final(r)@ == old(r)@,
            Err(e) => apply_spec(old(r)@, root@, addr@) == ApplyV::Failed(e@) && final(r)@ == old(
                r,
            )@,
        },
{
    let ghost s0 = r@;
    let mut curp: Vec<u8> = copy_bytes(root);
    let mut i: usize = 0;
    let nmods = addr.modules.len();
    while i < nmods
        invariant
            r@ == s0,
            resolver_wf(s0),
            cache_has(s0, curp@),
            i <= addr@.modules.len(),
            nmods == addr@.modules.len(),
            addr@.modules == crate::scan::lines_view(addr.modules@),
            resolve_chain(s0, root@, addr@.modules, 0) == resolve_chain(
                s0,
                curp@,
                addr@.modules,
                i as int,
            ),
        decreases nmods - i,
    {
        let ci = match r.find(&curp) {
            Some(ci) => ci,
            None => {
                proof {
                    assert(false);
                }
                0
            },
        };
        proof {
            lemma_cache_idx_unique(s0, curp@, ci as int);
        }
        let mname = &addr.modules[i];
        let fm = find_module(&r.cache[ci].1.modules, mname);
        match fm {
            None => {
                proof {
                    assert(s0[ci as int].1.modules == mods_view(r.cache@[ci as int].1.modules@));
                    assert(resolve_chain(s0, curp@, addr@.modules, i as int)
                        == ChainV::MissingMod(mname@));
                }
                return Err(MatchError::UnknownModule { name: copy_bytes(mname) });
            },
            Some(mi) => {
                proof {
                    lemma_mod_idx_unique(s0[ci as int].1.modules, mname@, mi as int);
                }
                let sp = copy_bytes(&r.cache[ci].1.modules[mi].1.source_path);
                proof {
                    assert(sp@ == s0[ci as int].1.modules[mi as int].1.source_path);
                }
                let fs = r.find(&sp);
                match fs {
                    None => {
                        proof {
                            assert(resolve_chain(s0, curp@, addr@.modules, i as int)
                                == ChainV::Need(sp@));
                        }
                        return Ok(ApplyOutcome::NeedModule(sp));
                    },
                    Some(si) => {
                        proof {
                            lemma_cache_idx_unique(s0, sp@, si as int);
                            assert(resolve_chain(s0, curp@, addr@.modules, i as int)
                                == resolve_chain(s0, sp@, addr@.modules, i + 1 as int));
                        }
                        curp = sp;
                        i += 1;
                    },
                }
            },
        }
    }
    proof {
        assert(resolve_chain(s0, root@, addr@.modules, 0) == ChainV::Done(curp@));
    }
    let ci = match r.find(&curp) {
        Some(ci) => ci,
        None => {
            proof {
                assert(false);
            }
            0
        },
    };
    proof {
        lemma_cache_idx_unique(s0, curp@, ci as int);
    }
    let ghost catv = s0[ci as int].1;
    let ghost key = (addr@.typ, addr@.name);
    let entry = r.cache.remove(ci);
    let (pkey, mut m) = entry;
    proof {
        assert(pkey@ == curp@);
        assert(m@ == catv);
    }
    if addr.is_data {
        let fr = find_res(&m.data_sources, &addr.typ, &addr.name);
        match fr {
            None => {
                r.cache.insert(ci, (pkey, m));
                proof {
                    assert(r@ =~= s0);
                    assert(!res_has_key(catv.data_sources, key));
                }
                Err(
                    MatchError::UnknownEntry {
                        is_data: true,
                        typ: copy_bytes(&addr.typ),
                        name: copy_bytes(&addr.name),
                    },
                )
            },
            Some(ri) => {
                proof {
                    lemma_res_idx_unique(catv.data_sources, key, ri as int);
                }
                mark_res_used(&mut m.data_sources, ri);
                proof {
                    assert(m@ =~= mark_data(catv, key));
                }
                r.cache.insert(ci, (pkey, m));
                proof {
                    assert(r@ =~= s0.update(ci as int, (curp@, mark_data(catv, key))));
                    assert(module_wf(mark_data(catv, key)));
                    assert(resolver_wf(r@));
                }
                Ok(ApplyOutcome::Matched)
            },
        }
    } else {
        let fr = find_res(&m.resources, &addr.typ, &addr.name);
        match fr {
            None => {
                r.cache.insert(ci, (pkey, m));
                proof {
                    assert(r@ =~= s0);
                    assert(!res_has_key(catv.resources, key));
                }
                Err(
                    MatchError::UnknownEntry {
                        is_data: false,
                        typ: copy_bytes(&addr.typ),
                        name: copy_bytes(&addr.name),
                    },
                )
            },
            Some(ri) => {
                proof {
                    lemma_res_idx_unique(catv.resources, key, ri as int);
                }
                mark_res_used(&mut m.resources, ri);
                proof {
                    assert(m@ =~= mark_res(catv, key));
                }
                r.cache.insert(ci, (pkey, m));
                proof {
                    assert(r@ =~= s0.update(ci as int, (curp@, mark_res(catv, key))));
                    assert(module_wf(mark_res(catv, key)));
                    assert(resolver_wf(r@));
                }
                Ok(ApplyOutcome::Matched)
            },
        }
    }
}

} // verus!

verus! {

/// Chain resolution reads only cache keys and module-reference maps; a
/// cache that agrees on those resolves every chain the same way.
proof fn lemma_chain_same(
    s1: Seq<(Seq<u8>, ModuleV)>,
    s2: Seq<(Seq<u8>, ModuleV)>,
    cur: Seq<u8>,
    mods: Seq<Seq<u8>>,
    i: int,
)
    requires
        s2.len() == s1.len(),
        unique_cache_keys(s1),
        cache_has(s1, cur),
        forall|j: int| 0 <= j < s1.len() ==> (#[trigger] s2[j]).0 == s1[j].0,
        forall|j: int| 0 <= j < s1.len() ==> (#[trigger] s2[j]).1.modules == s1[j].1.modules,
    ensures
        resolve_chain(s2, cur, mods, i) == resolve_chain(s1, cur, mods, i),
    decreases mods.len() - i,
{
    assert(unique_cache_keys(s2));
    let ci1 = choose|k: int| 0 <= k < s1.len() && (#[trigger] s1[k]).0 == cur;
    lemma_cache_idx_unique(s1, cur, ci1);
    lemma_cache_idx_unique(s2, cur, ci1);
    if 0 <= i < mods.len() {
        let cat1 = s1[ci1].1;
        let cat2 = s2[ci1].1;
        assert(cat2.modules == cat1.modules);
        if mod_has_key(cat1.modules, mods[i]) {
            let mb = cat1.modules[mod_key_idx(cat1.modules, mods[i])].1;
            if cache_has(s1, mb.source_path) {
                let w = choose|k: int| 0 <= k < s1.len() && (#[trigger] s1[k]).0
                    == mb.source_path;
                assert(s2[w].0 == mb.source_path);
                assert(cache_has(s2, mb.source_path));
                lemma_chain_same(s1, s2, mb.source_path, mods, i + 1);
            } else {
                if cache_has(s2, mb.source_path) {
                    let w = choose|k: int| 0 <= k < s2.len() && (#[trigger] s2[k]).0
                        == mb.source_path;
                    assert(s1[w].0 == mb.source_path);
                }
            }
        }
    }
}

/// Matching the same deployed address twice is harmless: the second
/// application leaves the cache exactly as the first left it, so usage
/// flags do not accumulate and the aggregator, which reads catalog state
/// once per entry, counts nothing twice.
pub proof fn lemma_apply_idempotent(s: Seq<(Seq<u8>, ModuleV)>, root: Seq<u8>, a: AddressV)
    requires
        resolver_wf(s),
        cache_has(s, root),
        apply_spec(s, root, a) is Matched,
    ensures
        apply_spec(apply_spec(s, root, a)->Matched_0, root, a) == ApplyV::Matched(
            apply_spec(s, root, a)->Matched_0,
        ),
{
    let chain = resolve_chain(s, root, a.modules, 0);
    let p = chain->Done_0;
    let ci = cache_idx(s, p);
    let cat = s[ci].1;
    let key = (a.typ, a.name);
    assert(cache_has(s, p)) by {
        if a.modules.len() == 0 {
        } else {
        }
        assert(chain is Done);
        lemma_chain_done_cached(s, root, a.modules, 0);
    }
    assert(0 <= ci < s.len() && s[ci].0 == p) by {
        let w = choose|k: int| 0 <= k < s.len() && (#[trigger] s[k]).0 == p;
        lemma_cache_idx_unique(s, p, w);
    }
    let cat2 = if a.is_data {
        mark_data(cat, key)
    } else {
        mark_res(cat, key)
    };
    let s2 = s.update(ci, (p, cat2));
    assert(apply_spec(s, root, a) == ApplyV::Matched(s2));
    assert(cat2.modules == cat.modules);
    assert(forall|j: int| 0 <= j < s.len() ==> (#[trigger] s2[j]).0 == s[j].0);
    assert(forall|j: int| 0 <= j < s.len() ==> (#[trigger] s2[j]).1.modules == s[j].1.modules);
    lemma_chain_same(s, s2, root, a.modules, 0);
    assert(resolve_chain(s2, root, a.modules, 0) == ChainV::Done(p));
    assert(unique_cache_keys(s2));
    lemma_cache_idx_unique(s2, p, ci);
    if a.is_data {
        let d = cat.data_sources;
        let ri = res_key_idx(d, key);
        assert(res_has_key(d, key));
        assert(0 <= ri < d.len() && d[ri].0 == key) by {
            let w = choose|k: int| 0 <= k < d.len() && (#[trigger] d[k]).0 == key;
            lemma_res_idx_unique(d, key, w);
        }
        let d2 = cat2.data_sources;
        assert(d2 == d.update(ri, (key, (ResBlockV { used: true, ..d[ri].1 }))));
        assert(unique_res_keys(d2)) by {
            assert(forall|j: int| 0 <= j < d.len() ==> (#[trigger] d2[j]).0 == d[j].0);
        }
        lemma_res_idx_unique(d2, key, ri);
        let b2 = d2[ri].1;
        assert((ResBlockV { used: true, ..b2 }) == b2);
        assert(d2.update(ri, (key, (ResBlockV { used: true, ..b2 }))) =~= d2);
        assert(mark_data(cat2, key) =~= cat2);
        assert(s2.update(ci, (p, mark_data(cat2, key))) =~= s2);
    } else {
        let d = cat.resources;
        let ri = res_key_idx(d, key);
        assert(res_has_key(d, key));
        assert(0 <= ri < d.len() && d[ri].0 == key) by {
            let w = choose|k: int| 0 <= k < d.len() && (#[trigger] d[k]).0 == key;
            lemma_res_idx_unique(d, key, w);
        }
        let d2 = cat2.resources;
        assert(d2 == d.update(ri, (key, (ResBlockV { used: true, ..d[ri].1 }))));
        assert(unique_res_keys(d2)) by {
            assert(forall|j: int| 0 <= j < d.len() ==> (#[trigger] d2[j]).0 == d[j].0);
        }
        lemma_res_idx_unique(d2, key, ri);
        let b2 = d2[ri].1;
        assert((ResBlockV { used: true, ..b2 }) == b2);
        assert(d2.update(ri, (key, (ResBlockV { used: true, ..b2 }))) =~= d2);
        assert(mark_res(cat2, key) =~= cat2);
        assert(s2.update(ci, (p, mark_res(cat2, key))) =~= s2);
    }
}

/// A chain that ends `Done` ends at a cached path.
pub proof fn lemma_chain_done_cached(
    s: Seq<(Seq<u8>, ModuleV)>,
    cur: Seq<u8>,
    mods: Seq<Seq<u8>>,
    i: int,
)
    requires
        cache_has(s, cur),
        resolve_chain(s, cur, mods, i) is Done,
    ensures
        cache_has(s, resolve_chain(s, cur, mods, i)->Done_0),
    decreases mods.len() - i,
{
    if 0 <= i < mods.len() {
        let cat = s[cache_idx(s, cur)].1;
        if mod_has_key(cat.modules, mods[i]) {
            let mb = cat.modules[mod_key_idx(cat.modules, mods[i])].1;
            if cache_has(s, mb.source_path) {
                lemma_chain_done_cached(s, mb.source_path, mods, i + 1);
            }
        }
    }
}

/// Canonicalization equivalence: the cache holds one catalog per canonical
/// path, so two addresses whose module chains end at the same path and that
/// name the same declaration make the same transition — usage recorded
/// through one reference chain is visible through the other.
pub proof fn lemma_same_path_same_transition(
    s: Seq<(Seq<u8>, ModuleV)>,
    root: Seq<u8>,
    a1: AddressV,
    a2: AddressV,
)
    requires
        resolve_chain(s, root, a1.modules, 0) == resolve_chain(s, root, a2.modules, 0),
        a1.is_data == a2.is_data,
        a1.typ == a2.typ,
        a1.name == a2.name,
    ensures
        apply_spec(s, root, a1) == apply_spec(s, root, a2),
{
}

} // verus!
