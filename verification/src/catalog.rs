//! The catalog data model: one scanned directory ("module") holding its
//! declared blocks, each with file and inclusive line-span provenance.

use vstd::prelude::*;

verus! {

/// One resource or data-source declaration: originating file, inclusive
/// line span, and the flag set once a deployed address matches it.
pub struct ResBlock {
    pub file: Vec<u8>,
    pub lineno: (usize, usize),
    pub used: bool,
}

/// Mathematical image of a `ResBlock`.
#[verifier::ext_equal]
pub ghost struct ResBlockV {
    pub file: Seq<u8>,
    pub start: int,
    pub end: int,
    pub used: bool,
}

impl View for ResBlock {
    type V = ResBlockV;

    open spec fn view(&self) -> ResBlockV {
        ResBlockV {
            file: self.file@,
            start: self.lineno.0 as int,
            end: self.lineno.1 as int,
            used: self.used,
        }
    }
}

/// A declaration occupies at least its header line: 1 <= start <= end.
pub open spec fn res_block_wf(r: ResBlockV) -> bool {
    1 <= r.start && r.start <= r.end
}

/// One module-reference declaration inside a parent module. `source_path`
/// starts as the path declared relative to the referencing file and is
/// replaced by its canonical form before resolution.
pub struct ModuleBlock {
    pub source_path: Vec<u8>,
    pub lineno: (usize, usize),
    pub used: bool,
}

/// Mathematical image of a `ModuleBlock`.
#[verifier::ext_equal]
pub ghost struct ModuleBlockV {
    pub source_path: Seq<u8>,
    pub start: int,
    pub end: int,
    pub used: bool,
}

impl View for ModuleBlock {
    type V = ModuleBlockV;

    open spec fn view(&self) -> ModuleBlockV {
        ModuleBlockV {
            source_path: self.source_path@,
            start: self.lineno.0 as int,
            end: self.lineno.1 as int,
            used: self.used,
        }
    }
}

pub open spec fn module_block_wf(m: ModuleBlockV) -> bool {
    1 <= m.start && m.start <= m.end
}

/// The result of scanning one directory: its configuration files, the count
/// of their non-blank lines, and the three catalogs of declared blocks, each
/// an association list keyed by reference name or by (type, name).
pub struct Module {
    pub path: Vec<u8>,
    pub files: Vec<Vec<u8>>,
    pub lines_total: usize,
    pub modules: Vec<(Vec<u8>, ModuleBlock)>,
    pub data_sources: Vec<((Vec<u8>, Vec<u8>), ResBlock)>,
    pub resources: Vec<((Vec<u8>, Vec<u8>), ResBlock)>,
}

/// Mathematical image of a `Module`.
#[verifier::ext_equal]
pub ghost struct ModuleV {
    pub path: Seq<u8>,
    pub files: Seq<Seq<u8>>,
    pub lines_total: int,
    pub modules: Seq<(Seq<u8>, ModuleBlockV)>,
    pub data_sources: Seq<((Seq<u8>, Seq<u8>), ResBlockV)>,
    pub resources: Seq<((Seq<u8>, Seq<u8>), ResBlockV)>,
}

/// Lifts a vector of name-keyed module blocks to its mathematical image.
pub open spec fn mods_view(s: Seq<(Vec<u8>, ModuleBlock)>) -> Seq<(Seq<u8>, ModuleBlockV)> {
    s.map_values(|p: (Vec<u8>, ModuleBlock)| (p.0@, p.1@))
}

/// Lifts a vector of key-addressed declarations to its mathematical image.
pub open spec fn ress_view(s: Seq<((Vec<u8>, Vec<u8>), ResBlock)>) -> Seq<((Seq<u8>, Seq<u8>), ResBlockV)> {
    s.map_values(|p: ((Vec<u8>, Vec<u8>), ResBlock)| ((p.0.0@, p.0.1@), p.1@))
}

impl View for Module {
    type V = ModuleV;

    open spec fn view(&self) -> ModuleV {
        ModuleV {
            path: self.path@,
            files: self.files@.map_values(|f: Vec<u8>| f@),
            lines_total: self.lines_total as int,
            modules: mods_view(self.modules@),
            data_sources: ress_view(self.data_sources@),
            resources: ress_view(self.resources@),
        }
    }
}

/// Name keys of module references are pairwise distinct.
pub open spec fn unique_mod_keys(s: Seq<(Seq<u8>, ModuleBlockV)>) -> bool {
    forall|i: int, j: int| 0 <= i < j < s.len() ==> (#[trigger] s[i]).0 != (#[trigger] s[j]).0
}

/// (type, name) keys of declarations are pairwise distinct.
pub open spec fn unique_res_keys(s: Seq<((Seq<u8>, Seq<u8>), ResBlockV)>) -> bool {
    forall|i: int, j: int| 0 <= i < j < s.len() ==> (#[trigger] s[i]).0 != (#[trigger] s[j]).0
}

/// Some module reference is registered under `name`.
pub open spec fn mod_has_key(s: Seq<(Seq<u8>, ModuleBlockV)>, name: Seq<u8>) -> bool {
    exists|i: int| 0 <= i < s.len() && (#[trigger] s[i]).0 == name
}

/// The index of the module reference registered under `name`.
pub open spec fn mod_key_idx(s: Seq<(Seq<u8>, ModuleBlockV)>, name: Seq<u8>) -> int {
    choose|i: int| 0 <= i < s.len() && (#[trigger] s[i]).0 == name
}

/// Some declaration is registered under the key `k`.
pub open spec fn res_has_key(s: Seq<((Seq<u8>, Seq<u8>), ResBlockV)>, k: (Seq<u8>, Seq<u8>)) -> bool {
    exists|i: int| 0 <= i < s.len() && (#[trigger] s[i]).0 == k
}

/// The index of the declaration registered under the key `k`.
pub open spec fn res_key_idx(s: Seq<((Seq<u8>, Seq<u8>), ResBlockV)>, k: (Seq<u8>, Seq<u8>)) -> int {
    choose|i: int| 0 <= i < s.len() && (#[trigger] s[i]).0 == k
}

/// With pairwise-distinct keys, any index holding `name` is the looked-up one.
pub proof fn lemma_mod_idx_unique(s: Seq<(Seq<u8>, ModuleBlockV)>, name: Seq<u8>, i: int)
    requires
        unique_mod_keys(s),
        0 <= i < s.len(),
        s[i].0 == name,
    ensures
        mod_has_key(s, name),
        mod_key_idx(s, name) == i,
{
    assert(mod_has_key(s, name));
    let j = mod_key_idx(s, name);
    if j != i {
        if j < i {
            assert(s[j].0 != s[i].0);
        } else {
            assert(s[i].0 != s[j].0);
        }
    }
}

/// With pairwise-distinct keys, any index holding `k` is the looked-up one.
pub proof fn lemma_res_idx_unique(s: Seq<((Seq<u8>, Seq<u8>), ResBlockV)>, k: (Seq<u8>, Seq<u8>), i: int)
    requires
        unique_res_keys(s),
        0 <= i < s.len(),
        s[i].0 == k,
    ensures
        res_has_key(s, k),
        res_key_idx(s, k) == i,
{
    assert(res_has_key(s, k));
    let j = res_key_idx(s, k);
    if j != i {
        if j < i {
            assert(s[j].0 != s[i].0);
        } else {
            assert(s[i].0 != s[j].0);
        }
    }
}

/// Every block well formed, every key unique.
pub open spec fn module_wf(m: ModuleV) -> bool {
    &&& unique_mod_keys(m.modules)
    &&& unique_res_keys(m.data_sources)
    &&& unique_res_keys(m.resources)
    &&& forall|i: int| 0 <= i < m.modules.len() ==> module_block_wf((#[trigger] m.modules[i]).1)
    &&& forall|i: int| 0 <= i < m.data_sources.len() ==> res_block_wf((#[trigger] m.data_sources[i]).1)
    &&& forall|i: int| 0 <= i < m.resources.len() ==> res_block_wf((#[trigger] m.resources[i]).1)
}

/// Registers a module block under `name`: a later declaration with an
/// already-registered name silently overwrites the earlier entry.
pub open spec fn mod_upsert(
    s: Seq<(Seq<u8>, ModuleBlockV)>,
    name: Seq<u8>,
    b: ModuleBlockV,
) -> Seq<(Seq<u8>, ModuleBlockV)> {
    if mod_has_key(s, name) {
        s.update(mod_key_idx(s, name), (name, b))
    } else {
        s.push((name, b))
    }
}

/// Registers a declaration under `k`, overwriting an earlier entry with the
/// same key.
pub open spec fn res_upsert(
    s: Seq<((Seq<u8>, Seq<u8>), ResBlockV)>,
    k: (Seq<u8>, Seq<u8>),
    b: ResBlockV,
) -> Seq<((Seq<u8>, Seq<u8>), ResBlockV)> {
    if res_has_key(s, k) {
        s.update(res_key_idx(s, k), (k, b))
    } else {
        s.push((k, b))
    }
}

/// Upserting keeps keys pairwise distinct.
pub proof fn lemma_mod_upsert_unique(s: Seq<(Seq<u8>, ModuleBlockV)>, name: Seq<u8>, b: ModuleBlockV)
    requires
        unique_mod_keys(s),
    ensures
        unique_mod_keys(mod_upsert(s, name, b)),
{
    let r = mod_upsert(s, name, b);
    if mod_has_key(s, name) {
        let k = mod_key_idx(s, name);
        assert(0 <= k < s.len() && s[k].0 == name);
        assert(forall|i: int| 0 <= i < r.len() ==> (#[trigger] r[i]).0 == s[i].0);
    } else {
        assert(forall|i: int| 0 <= i < s.len() ==> (#[trigger] s[i]).0 != name);
    }
}

/// Upserting keeps keys pairwise distinct.
pub proof fn lemma_res_upsert_unique(
    s: Seq<((Seq<u8>, Seq<u8>), ResBlockV)>,
    k: (Seq<u8>, Seq<u8>),
    b: ResBlockV,
)
    requires
        unique_res_keys(s),
    ensures
        unique_res_keys(res_upsert(s, k, b)),
{
    let r = res_upsert(s, k, b);
    if res_has_key(s, k) {
        let j = res_key_idx(s, k);
        assert(0 <= j < s.len() && s[j].0 == k);
        assert(forall|i: int| 0 <= i < r.len() ==> (#[trigger] r[i]).0 == s[i].0);
    } else {
        assert(forall|i: int| 0 <= i < s.len() ==> (#[trigger] s[i]).0 != k);
    }
}

/// Upserting keeps keys pairwise distinct and keeps every block well formed.
pub proof fn lemma_mod_upsert_wf(s: Seq<(Seq<u8>, ModuleBlockV)>, name: Seq<u8>, b: ModuleBlockV)
    requires
        unique_mod_keys(s),
        forall|i: int| 0 <= i < s.len() ==> module_block_wf((#[trigger] s[i]).1),
        module_block_wf(b),
    ensures
        unique_mod_keys(mod_upsert(s, name, b)),
        forall|i: int| 0 <= i < mod_upsert(s, name, b).len()
            ==> module_block_wf((#[trigger] mod_upsert(s, name, b)[i]).1),
{
    let r = mod_upsert(s, name, b);
    if mod_has_key(s, name) {
        let k = mod_key_idx(s, name);
        assert(0 <= k < s.len() && s[k].0 == name);
        assert(forall|i: int| 0 <= i < r.len() ==> (#[trigger] r[i]).0 == s[i].0);
    } else {
        assert(forall|i: int| 0 <= i < s.len() ==> (#[trigger] s[i]).0 != name);
    }
}

/// Upserting keeps keys pairwise distinct and keeps every block well formed.
pub proof fn lemma_res_upsert_wf(s: Seq<((Seq<u8>, Seq<u8>), ResBlockV)>, k: (Seq<u8>, Seq<u8>), b: ResBlockV)
    requires
        unique_res_keys(s),
        forall|i: int| 0 <= i < s.len() ==> res_block_wf((#[trigger] s[i]).1),
        res_block_wf(b),
    ensures
        unique_res_keys(res_upsert(s, k, b)),
        forall|i: int| 0 <= i < res_upsert(s, k, b).len()
            ==> res_block_wf((#[trigger] res_upsert(s, k, b)[i]).1),
{
    let r = res_upsert(s, k, b);
    if res_has_key(s, k) {
        let j = res_key_idx(s, k);
        assert(0 <= j < s.len() && s[j].0 == k);
        assert(forall|i: int| 0 <= i < r.len() ==> (#[trigger] r[i]).0 == s[i].0);
    } else {
        assert(forall|i: int| 0 <= i < s.len() ==> (#[trigger] s[i]).0 != k);
    }
}

/// Byte-for-byte equality of two byte strings.
pub fn bytes_eq(a: &Vec<u8>, b: &Vec<u8>) -> (r: bool)
    ensures
        r == (a@ == b@),
{
    if a.len() != b.len() {
        return false;
    }
    let mut i: usize = 0;
    while i < a.len()
        invariant
            a@.len() == b@.len(),
            i <= a@.len(),
            forall|j: int| 0 <= j < i ==> a@[j] == b@[j],
        decreases a@.len() - i,
    {
        if a[i] != b[i] {
            return false;
        }
        i += 1;
    }
    proof {
        assert(a@ =~= b@);
    }
    true
}

/// Finds the module reference registered under `name`, if any.
pub fn find_module(v: &Vec<(Vec<u8>, ModuleBlock)>, name: &Vec<u8>) -> (r: Option<usize>)
    ensures
        match r {
            Some(i) => i < v@.len() && mods_view(v@)[i as int].0 == name@,
            None => !mod_has_key(mods_view(v@), name@),
        },
{
    let mut i: usize = 0;
    while i < v.len()
        invariant
            i <= v@.len(),
            forall|j: int| 0 <= j < i ==> mods_view(v@)[j].0 != name@,
        decreases v@.len() - i,
    {
        if bytes_eq(&v[i].0, name) {
            return Some(i);
        }
        i += 1;
    }
    None
}

/// Finds the declaration registered under `(typ, name)`, if any.
pub fn find_res(v: &Vec<((Vec<u8>, Vec<u8>), ResBlock)>, typ: &Vec<u8>, name: &Vec<u8>) -> (r: Option<usize>)
    ensures
        match r {
            Some(i) => i < v@.len() && ress_view(v@)[i as int].0 == (typ@, name@),
            None => !res_has_key(ress_view(v@), (typ@, name@)),
        },
{
    let mut i: usize = 0;
    while i < v.len()
        invariant
            i <= v@.len(),
            forall|j: int| 0 <= j < i ==> ress_view(v@)[j].0 != (typ@, name@),
        decreases v@.len() - i,
    {
        if bytes_eq(&v[i].0.0, typ) && bytes_eq(&v[i].0.1, name) {
            return Some(i);
        }
        i += 1;
    }
    None
}

/// Registers a module block under `name`, overwriting an entry that
/// already carries that name.
pub fn mod_upsert_exec(v: &mut Vec<(Vec<u8>, ModuleBlock)>, name: Vec<u8>, b: ModuleBlock)
    requires
        unique_mod_keys(mods_view(old(v)@)),
    ensures
        mods_view(final(v)@) == mod_upsert(mods_view(old(v)@), name@, b@),
{
    let r = find_module(v, &name);
    match r {
        Some(i) => {
            proof {
                lemma_mod_idx_unique(mods_view(v@), name@, i as int);
            }
            v.set(i, (name, b));
            proof {
                assert(mods_view(v@) =~= mods_view(old(v)@).update(i as int, (name@, b@)));
            }
        },
        None => {
            v.push((name, b));
            proof {
                assert(mods_view(v@) =~= mods_view(old(v)@).push((name@, b@)));
            }
        },
    }
}

/// Registers a declaration under `(typ, name)`, overwriting an entry that
/// already carries that key.
pub fn res_upsert_exec(v: &mut Vec<((Vec<u8>, Vec<u8>), ResBlock)>, typ: Vec<u8>, name: Vec<u8>, b: ResBlock)
    requires
        unique_res_keys(ress_view(old(v)@)),
    ensures
        ress_view(final(v)@) == res_upsert(ress_view(old(v)@), (typ@, name@), b@),
{
    let r = find_res(v, &typ, &name);
    match r {
        Some(i) => {
            proof {
                lemma_res_idx_unique(ress_view(v@), (typ@, name@), i as int);
            }
            v.set(i, ((typ, name), b));
            proof {
                assert(ress_view(v@) =~= ress_view(old(v)@).update(i as int, ((typ@, name@), b@)));
            }
        },
        None => {
            v.push(((typ, name), b));
            proof {
                assert(ress_view(v@) =~= ress_view(old(v)@).push(((typ@, name@), b@)));
            }
        },
    }
}

/// Marks the declaration at index `i` as used; everything else is unchanged.
pub fn mark_res_used(v: &mut Vec<((Vec<u8>, Vec<u8>), ResBlock)>, i: usize)
    requires
        i < old(v)@.len(),
    ensures
        ress_view(final(v)@) =~= ress_view(old(v)@).update(
            i as int,
            (
                ress_view(old(v)@)[i as int].0,
                (ResBlockV { used: true, ..ress_view(old(v)@)[i as int].1 }),
            ),
        ),
{
    let mut e = v.remove(i);
    e.1.used = true;
    v.insert(i, e);
    proof {
        assert(v@ =~= old(v)@.update(i as int, ((old(v)@[i as int].0.0, old(v)@[i as int].0.1), v@[i as int].1)));
        assert(ress_view(v@) =~= ress_view(old(v)@).update(
            i as int,
            (
                ress_view(old(v)@)[i as int].0,
                (ResBlockV { used: true, ..ress_view(old(v)@)[i as int].1 }),
            ),
        ));
    }
}

} // verus!
