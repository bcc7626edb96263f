//! The coverage aggregator: over every catalog that matching touched, sum
//! the inclusive line spans of all resource and data-source declarations,
//! sum the spans of those never marked used, list the unused ranges, and
//! turn the two sums into a percentage.

use vstd::prelude::*;
use crate::catalog::{ResBlock, ResBlockV, ModuleV, ModuleBlockV, module_wf, res_block_wf, module_block_wf, ress_view};
use crate::resolver::{Resolver, resolver_wf};
use crate::scan::{
    copy_bytes, ScanStateV, ScanErrorV, OpenV, scan_upto, files_upto, scan_spec,
    init_state, is_blank, is_close, ends_in_brace, starts_with, kw_module, kw_data, kw_resource,
    parse_quoted, apply_source, apply_header, close_block, scan_state_wf, catalogs_wf,
    lemma_step_wf,
};

verus! {

/// Inclusive line span of a declaration.
pub open spec fn span(r: ResBlockV) -> int {
    r.end - r.start + 1
}

/// Sum of spans over the first `n` declarations of one catalog list.
pub open spec fn spans_upto(s: Seq<((Seq<u8>, Seq<u8>), ResBlockV)>, n: int) -> int
    decreases n,
{
    if n <= 0 {
        0
    } else {
        spans_upto(s, n - 1) + span(s[n - 1].1)
    }
}

/// Sum of spans over the unused ones among the first `n` declarations.
pub open spec fn unused_upto(s: Seq<((Seq<u8>, Seq<u8>), ResBlockV)>, n: int) -> int
    decreases n,
{
    if n <= 0 {
        0
    } else {
        unused_upto(s, n - 1) + if s[n - 1].1.used {
            0
        } else {
            span(s[n - 1].1)
        }
    }
}

/// The unused declarations among the first `n`, as (file, start, end), in
/// catalog order.
pub open spec fn ranges_upto(s: Seq<((Seq<u8>, Seq<u8>), ResBlockV)>, n: int) -> Seq<
    (Seq<u8>, int, int),
>
    decreases n,
{
    if n <= 0 {
        Seq::empty()
    } else {
        ranges_upto(s, n - 1) + if s[n - 1].1.used {
            Seq::empty()
        } else {
            seq![(s[n - 1].1.file, s[n - 1].1.start, s[n - 1].1.end)]
        }
    }
}

/// Countable lines of one catalog: data sources first, then resources.
/// Module references are not counted.
pub open spec fn module_total(m: ModuleV) -> int {
    spans_upto(m.data_sources, m.data_sources.len() as int) + spans_upto(
        m.resources,
        m.resources.len() as int,
    )
}

pub open spec fn module_unused(m: ModuleV) -> int {
    unused_upto(m.data_sources, m.data_sources.len() as int) + unused_upto(
        m.resources,
        m.resources.len() as int,
    )
}

pub open spec fn module_ranges(m: ModuleV) -> Seq<(Seq<u8>, int, int)> {
    ranges_upto(m.data_sources, m.data_sources.len() as int) + ranges_upto(
        m.resources,
        m.resources.len() as int,
    )
}

/// The same three, over the first `n` catalogs of the cache.
pub open spec fn cache_total_upto(s: Seq<(Seq<u8>, ModuleV)>, n: int) -> int
    decreases n,
{
    if n <= 0 {
        0
    } else {
        cache_total_upto(s, n - 1) + module_total(s[n - 1].1)
    }
}

pub open spec fn cache_unused_upto(s: Seq<(Seq<u8>, ModuleV)>, n: int) -> int
    decreases n,
{
    if n <= 0 {
        0
    } else {
        cache_unused_upto(s, n - 1) + module_unused(s[n - 1].1)
    }
}

pub open spec fn cache_ranges_upto(s: Seq<(Seq<u8>, ModuleV)>, n: int) -> Seq<(Seq<u8>, int, int)>
    decreases n,
{
    if n <= 0 {
        Seq::empty()
    } else {
        cache_ranges_upto(s, n - 1) + module_ranges(s[n - 1].1)
    }
}

pub open spec fn cache_total(s: Seq<(Seq<u8>, ModuleV)>) -> int {
    cache_total_upto(s, s.len() as int)
}

pub open spec fn cache_unused(s: Seq<(Seq<u8>, ModuleV)>) -> int {
    cache_unused_upto(s, s.len() as int)
}

pub open spec fn cache_ranges(s: Seq<(Seq<u8>, ModuleV)>) -> Seq<(Seq<u8>, int, int)> {
    cache_ranges_upto(s, s.len() as int)
}

/// With well-formed blocks, the unused sum sits between 0 and the total.
pub proof fn lemma_sums_bounds(s: Seq<((Seq<u8>, Seq<u8>), ResBlockV)>, n: int)
    requires
        0 <= n <= s.len(),
        forall|i: int| 0 <= i < s.len() ==> res_block_wf((#[trigger] s[i]).1),
    ensures
        0 <= unused_upto(s, n) <= spans_upto(s, n),
    decreases n,
{
    if n > 0 {
        lemma_sums_bounds(s, n - 1);
    }
}

/// Prefix sums of spans grow with the prefix.
pub proof fn lemma_spans_mono(s: Seq<((Seq<u8>, Seq<u8>), ResBlockV)>, n: int, m: int)
    requires
        0 <= n <= m <= s.len(),
        forall|i: int| 0 <= i < s.len() ==> res_block_wf((#[trigger] s[i]).1),
    ensures
        spans_upto(s, n) <= spans_upto(s, m),
    decreases m,
{
    if m > n {
        lemma_spans_mono(s, n, m - 1);
    }
}

/// A catalog's countable total is non-negative.
pub proof fn lemma_module_total_nonneg(m: ModuleV)
    requires
        module_wf(m),
    ensures
        module_total(m) >= 0,
        module_unused(m) >= 0,
        module_unused(m) <= module_total(m),
{
    lemma_sums_bounds(m.data_sources, m.data_sources.len() as int);
    lemma_sums_bounds(m.resources, m.resources.len() as int);
    lemma_spans_mono(m.data_sources, 0, m.data_sources.len() as int);
    lemma_spans_mono(m.resources, 0, m.resources.len() as int);
}

/// Prefix sums over the cache grow with the prefix.
pub proof fn lemma_cache_total_mono(s: Seq<(Seq<u8>, ModuleV)>, n: int, m: int)
    requires
        0 <= n <= m <= s.len(),
        resolver_wf(s),
    ensures
        cache_total_upto(s, n) <= cache_total_upto(s, m),
    decreases m,
{
    if m > n {
        lemma_cache_total_mono(s, n, m - 1);
        lemma_module_total_nonneg(s[m - 1].1);
    }
}

/// The coverage report: the two sums and one line per unused declaration,
/// in catalog order.
pub struct Report {
    pub total: usize,
    pub unused: usize,
    pub unused_ranges: Vec<(Vec<u8>, usize, usize)>,
}

/// Mathematical image of a `Report`.
#[verifier::ext_equal]
pub ghost struct ReportV {
    pub total: int,
    pub unused: int,
    pub unused_ranges: Seq<(Seq<u8>, int, int)>,
}

pub open spec fn ranges_vec_view(s: Seq<(Vec<u8>, usize, usize)>) -> Seq<(Seq<u8>, int, int)> {
    s.map_values(|t: (Vec<u8>, usize, usize)| (t.0@, t.1 as int, t.2 as int))
}

impl View for Report {
    type V = ReportV;

    open spec fn view(&self) -> ReportV {
        ReportV {
            total: self.total as int,
            unused: self.unused as int,
            unused_ranges: ranges_vec_view(self.unused_ranges@),
        }
    }
}

/// Adds one catalog list's spans, unused spans and unused ranges to the
/// running report.
fn tally_entries(
    v: &Vec<((Vec<u8>, Vec<u8>), ResBlock)>,
    total: &mut usize,
    unused: &mut usize,
    ranges: &mut Vec<(Vec<u8>, usize, usize)>,
)
    requires
        forall|i: int| 0 <= i < ress_view(v@).len() ==> res_block_wf(
            (#[trigger] ress_view(v@)[i]).1,
        ),
        *old(total) + spans_upto(ress_view(v@), v@.len() as int) <= usize::MAX as int,
        *old(unused) <= *old(total),
    ensures
        *final(total) == *old(total) + spans_upto(ress_view(v@), v@.len() as int),
        *final(unused) == *old(unused) + unused_upto(ress_view(v@), v@.len() as int),
        ranges_vec_view(final(ranges)@) == ranges_vec_view(old(ranges)@) + ranges_upto(
            ress_view(v@),
            v@.len() as int,
        ),
        *final(unused) <= *final(total),
{
    let ghost sv = ress_view(v@);
    let ghost t0 = *total;
    let ghost u0 = *unused;
    let ghost r0 = ranges_vec_view(ranges@);
    let mut j: usize = 0;
    while j < v.len()
        invariant
            j <= v@.len(),
            sv == ress_view(v@),
            sv.len() == v@.len(),
            forall|i: int| 0 <= i < sv.len() ==> res_block_wf((#[trigger] sv[i]).1),
            t0 + spans_upto(sv, sv.len() as int) <= usize::MAX as int,
            u0 <= t0,
            *total == t0 + spans_upto(sv, j as int),
            *unused == u0 + unused_upto(sv, j as int),
            ranges_vec_view(ranges@) == r0 + ranges_upto(sv, j as int),
        decreases v@.len() - j,
    {
        proof {
            lemma_spans_mono(sv, j + 1 as int, sv.len() as int);
            lemma_sums_bounds(sv, j as int);
            lemma_sums_bounds(sv, j + 1 as int);
        }
        let start = v[j].1.lineno.0;
        let end = v[j].1.lineno.1;
        let sp = end - start + 1;
        *total = *total + sp;
        if !v[j].1.used {
            *unused = *unused + sp;
            let ghost rpre = ranges_vec_view(ranges@);
            ranges.push((copy_bytes(&v[j].1.file), start, end));
            proof {
                assert(ranges_vec_view(ranges@) =~= rpre + seq![(sv[j as int].1.file, sv[j as int].1.start, sv[j as int].1.end)]);
                assert(ranges_vec_view(ranges@) =~= r0 + ranges_upto(sv, j + 1 as int));
            }
        } else {
            proof {
                assert(ranges_vec_view(ranges@) =~= r0 + ranges_upto(sv, j + 1 as int));
            }
        }
        j += 1;
    }
    proof {
        lemma_sums_bounds(sv, sv.len() as int);
    }
}

/// Walks every cached catalog and produces the coverage report: the total
/// countable lines, the unused countable lines, and one (file, start, end)
/// range per unused declaration, in cache order.
pub fn aggregate(r: &Resolver) -> (rep: Report)
    requires
        resolver_wf(r@),
        cache_total(r@) <= usize::MAX as int,
    ensures
        rep@.total == cache_total(r@),
        rep@.unused == cache_unused(r@),
        rep@.unused_ranges == cache_ranges(r@),
        rep.unused <= rep.total,
{
    let mut total: usize = 0;
    let mut unused: usize = 0;
    let mut ranges: Vec<(Vec<u8>, usize, usize)> = Vec::new();
    let mut i: usize = 0;
    proof {
        assert(ranges_vec_view(ranges@) =~= Seq::<(Seq<u8>, int, int)>::empty());
        assert(cache_ranges_upto(r@, 0) =~= Seq::<(Seq<u8>, int, int)>::empty());
    }
    while i < r.cache.len()
        invariant
            i <= r.cache@.len(),
            resolver_wf(r@),
            r@.len() == r.cache@.len(),
            cache_total(r@) <= usize::MAX as int,
            total == cache_total_upto(r@, i as int),
            unused == cache_unused_upto(r@, i as int),
            ranges_vec_view(ranges@) == cache_ranges_upto(r@, i as int),
            unused <= total,
        decreases r.cache@.len() - i,
    {
        let ghost cat = r@[i as int].1;
        proof {
            assert(cat == r.cache@[i as int].1@);
            assert(cat.data_sources == ress_view(r.cache@[i as int].1.data_sources@));
            assert(cat.resources == ress_view(r.cache@[i as int].1.resources@));
            lemma_cache_total_mono(r@, i + 1 as int, r@.len() as int);
            lemma_module_total_nonneg(cat);
            lemma_spans_mono(cat.resources, 0, cat.resources.len() as int);
        }
        let m = &r.cache[i].1;
        tally_entries(&m.data_sources, &mut total, &mut unused, &mut ranges);
        tally_entries(&m.resources, &mut total, &mut unused, &mut ranges);
        proof {
            assert(ranges_vec_view(ranges@) =~= cache_ranges_upto(r@, i + 1 as int));
        }
        i += 1;
    }
    Report { total, unused, unused_ranges: ranges }
}

/// The coverage percentage, scaled by 100 and rounded half up to keep two
/// decimal digits: 2500 stands for 25.00%. With no countable lines at all
/// the report is complete coverage.
pub fn coverage_percent_x100(total: usize, unused: usize) -> (r: usize)
    requires
        unused <= total,
    ensures
        total == 0 ==> r == 10000,
        total > 0 ==> r == ((total - unused) * 10000 + total / 2) / total as int,
        r <= 10000,
{
    if total == 0 {
        return 10000;
    }
    let t = total as u128;
    let c = (total - unused) as u128;
    let num = c * 10000 + t / 2;
    let q = num / t;
    proof {
        assert(c * 10000 <= t * 10000) by (nonlinear_arith)
            requires c <= t
        ;
        assert(t * 10000 + t / 2 < t * 10001) by (nonlinear_arith)
            requires t >= 1
        ;
        assert(num / t <= 10000) by (nonlinear_arith)
            requires num < t * 10001, t >= 1
        ;
    }
    q as usize
}

} // verus!

verus! {

/// Inclusive line span of a module-reference block.
pub open spec fn mspan(m: ModuleBlockV) -> int {
    m.end - m.start + 1
}

/// Sum of spans over the first `n` module references.
pub open spec fn mod_spans_upto(s: Seq<(Seq<u8>, ModuleBlockV)>, n: int) -> int
    decreases n,
{
    if n <= 0 {
        0
    } else {
        mod_spans_upto(s, n - 1) + mspan(s[n - 1].1)
    }
}

pub proof fn lemma_mod_spans_nonneg(s: Seq<(Seq<u8>, ModuleBlockV)>, n: int)
    requires
        0 <= n <= s.len(),
        forall|i: int| 0 <= i < s.len() ==> module_block_wf((#[trigger] s[i]).1),
    ensures
        mod_spans_upto(s, n) >= 0,
    decreases n,
{
    if n > 0 {
        lemma_mod_spans_nonneg(s, n - 1);
    }
}

/// Lists that agree on a prefix have the same prefix sums.
proof fn lemma_spans_prefix(
    s1: Seq<((Seq<u8>, Seq<u8>), ResBlockV)>,
    s2: Seq<((Seq<u8>, Seq<u8>), ResBlockV)>,
    n: int,
)
    requires
        0 <= n <= s1.len(),
        n <= s2.len(),
        forall|i: int| 0 <= i < n ==> s1[i] == s2[i],
    ensures
        spans_upto(s1, n) == spans_upto(s2, n),
    decreases n,
{
    if n > 0 {
        lemma_spans_prefix(s1, s2, n - 1);
    }
}

proof fn lemma_mod_spans_prefix(
    s1: Seq<(Seq<u8>, ModuleBlockV)>,
    s2: Seq<(Seq<u8>, ModuleBlockV)>,
    n: int,
)
    requires
        0 <= n <= s1.len(),
        n <= s2.len(),
        forall|i: int| 0 <= i < n ==> s1[i] == s2[i],
    ensures
        mod_spans_upto(s1, n) == mod_spans_upto(s2, n),
    decreases n,
{
    if n > 0 {
        lemma_mod_spans_prefix(s1, s2, n - 1);
    }
}

/// Updating one entry moves the sum by the difference of the two spans.
proof fn lemma_spans_update(
    s: Seq<((Seq<u8>, Seq<u8>), ResBlockV)>,
    i: int,
    x: ((Seq<u8>, Seq<u8>), ResBlockV),
    n: int,
)
    requires
        0 <= i < s.len(),
        0 <= n <= s.len(),
    ensures
        spans_upto(s.update(i, x), n) == spans_upto(s, n) + if i < n {
            span(x.1) - span(s[i].1)
        } else {
            0
        },
    decreases n,
{
    if n > 0 {
        lemma_spans_update(s, i, x, n - 1);
    }
}

proof fn lemma_mod_spans_update(
    s: Seq<(Seq<u8>, ModuleBlockV)>,
    i: int,
    x: (Seq<u8>, ModuleBlockV),
    n: int,
)
    requires
        0 <= i < s.len(),
        0 <= n <= s.len(),
    ensures
        mod_spans_upto(s.update(i, x), n) == mod_spans_upto(s, n) + if i < n {
            mspan(x.1) - mspan(s[i].1)
        } else {
            0
        },
    decreases n,
{
    if n > 0 {
        lemma_mod_spans_update(s, i, x, n - 1);
    }
}

/// Registering one declaration grows the total by at most its span.
proof fn lemma_res_upsert_spans(s: Seq<((Seq<u8>, Seq<u8>), ResBlockV)>, k: (Seq<u8>, Seq<u8>), b: ResBlockV)
    requires
        forall|i: int| 0 <= i < s.len() ==> res_block_wf((#[trigger] s[i]).1),
        res_block_wf(b),
    ensures
        ({
            let r = crate::catalog::res_upsert(s, k, b);
            spans_upto(r, r.len() as int) <= spans_upto(s, s.len() as int) + span(b)
        }),
{
    let r = crate::catalog::res_upsert(s, k, b);
    if crate::catalog::res_has_key(s, k) {
        let i = crate::catalog::res_key_idx(s, k);
        assert(0 <= i < s.len() && s[i].0 == k);
        lemma_spans_update(s, i, (k, b), s.len() as int);
    } else {
        lemma_spans_prefix(r, s, s.len() as int);
        assert(spans_upto(r, r.len() as int) == spans_upto(r, s.len() as int) + span(b));
    }
}

proof fn lemma_mod_upsert_spans(s: Seq<(Seq<u8>, ModuleBlockV)>, k: Seq<u8>, b: ModuleBlockV)
    requires
        forall|i: int| 0 <= i < s.len() ==> module_block_wf((#[trigger] s[i]).1),
        module_block_wf(b),
    ensures
        ({
            let r = crate::catalog::mod_upsert(s, k, b);
            mod_spans_upto(r, r.len() as int) <= mod_spans_upto(s, s.len() as int) + mspan(b)
        }),
{
    let r = crate::catalog::mod_upsert(s, k, b);
    if crate::catalog::mod_has_key(s, k) {
        let i = crate::catalog::mod_key_idx(s, k);
        assert(0 <= i < s.len() && s[i].0 == k);
        lemma_mod_spans_update(s, i, (k, b), s.len() as int);
    } else {
        lemma_mod_spans_prefix(r, s, s.len() as int);
        assert(mod_spans_upto(r, r.len() as int) == mod_spans_upto(r, s.len() as int) + mspan(b));
    }
}

} // verus!

verus! {

/// Everything catalogued so far, module references included.
pub open spec fn all_spans(st: ScanStateV) -> int {
    mod_spans_upto(st.modules, st.modules.len() as int) + spans_upto(
        st.data_sources,
        st.data_sources.len() as int,
    ) + spans_upto(st.resources, st.resources.len() as int)
}

/// Lines still owed to the open block after `k` lines of the file: from its
/// start line through line `k`, inclusive.
pub open spec fn openpart(st: ScanStateV, k: int) -> int {
    match st.cur {
        OpenV::Nothing => 0,
        OpenV::Mod { start, .. } => k - start + 1,
        OpenV::Data { start, .. } => k - start + 1,
        OpenV::Res { start, .. } => k - start + 1,
    }
}

/// A declaration-header line.
pub open spec fn is_header(line: Seq<u8>) -> bool {
    ||| starts_with(line, kw_module())
    ||| starts_with(line, kw_data())
    ||| starts_with(line, kw_resource())
}

/// The lines of one file are fully countable: none is blank, and every
/// declaration header arrives while no block is open, so no line belongs to
/// two catalogued blocks.
pub open spec fn disciplined_from(st0: ScanStateV, file: Seq<u8>, lines: Seq<Seq<u8>>) -> bool {
    forall|i: int| 0 <= i < lines.len() ==> !is_blank(#[trigger] lines[i]) && ((is_header(
        lines[i],
    ) && scan_upto(st0, file, lines, i) is Ok) ==> scan_upto(st0, file, lines, i)->Ok_0.cur
        is Nothing)
}

/// Through a disciplined file, the catalogued spans plus the open block's
/// debt never exceed the lines counted.
#[verifier::rlimit(100)]
pub proof fn lemma_scan_upto_spans(st0: ScanStateV, file: Seq<u8>, lines: Seq<Seq<u8>>, n: int)
    requires
        0 <= n <= lines.len(),
        st0.cur is Nothing,
        scan_state_wf(st0, 1),
        all_spans(st0) <= st0.lines_total,
        disciplined_from(st0, file, lines),
        scan_upto(st0, file, lines, n) is Ok,
    ensures
        ({
            let st = scan_upto(st0, file, lines, n)->Ok_0;
            &&& st.lines_total == st0.lines_total + n
            &&& scan_state_wf(st, n + 1)
            &&& openpart(st, n) >= 0
            &&& all_spans(st) + openpart(st, n) <= st.lines_total
        }),
    decreases n,
{
    if n > 0 {
        if scan_upto(st0, file, lines, n - 1) is Err {
            assert(scan_upto(st0, file, lines, n) is Err);
        }
        lemma_scan_upto_spans(st0, file, lines, n - 1);
        let st = scan_upto(st0, file, lines, n - 1)->Ok_0;
        lemma_step_wf(st, file, n, lines[n - 1]);
        let line = lines[n - 1];
        assert(!is_blank(line));
        let st1 = ScanStateV { lines_total: st.lines_total + 1, ..st };
        let st2 = if is_close(line) {
            close_block(st1, file, n)
        } else {
            st1
        };
        assert(all_spans(st1) == all_spans(st));
        if is_close(line) {
            match st.cur {
                OpenV::Nothing => {
                    assert(all_spans(st2) == all_spans(st1));
                },
                OpenV::Mod { name, source, start } => {
                    let b = ModuleBlockV { source_path: source, start, end: n, used: false };
                    assert(module_block_wf(b));
                    lemma_mod_upsert_spans(st1.modules, name, b);
                    assert(all_spans(st2) <= all_spans(st1) + (n - start + 1));
                },
                OpenV::Data { typ, name, start } => {
                    let b = ResBlockV { file, start, end: n, used: false };
                    assert(res_block_wf(b));
                    lemma_res_upsert_spans(st1.data_sources, (typ, name), b);
                    assert(all_spans(st2) <= all_spans(st1) + (n - start + 1));
                },
                OpenV::Res { typ, name, start } => {
                    let b = ResBlockV { file, start, end: n, used: false };
                    assert(res_block_wf(b));
                    lemma_res_upsert_spans(st1.resources, (typ, name), b);
                    assert(all_spans(st2) <= all_spans(st1) + (n - start + 1));
                },
            }
            assert(st2.cur is Nothing);
            assert(all_spans(st2) <= st2.lines_total);
        } else {
            assert(all_spans(st2) + openpart(st2, n - 1) <= st2.lines_total - 1);
        }
        // a closing-brace line starts with `}`, a header with a letter
        if is_close(line) && is_header(line) {
            assert(line[0] == 125);
            if starts_with(line, kw_module()) {
                assert(line.subrange(0, 7)[0] == kw_module()[0]);
            }
            if starts_with(line, kw_data()) {
                assert(line.subrange(0, 5)[0] == kw_data()[0]);
            }
            if starts_with(line, kw_resource()) {
                assert(line.subrange(0, 9)[0] == kw_resource()[0]);
            }
            assert(false);
        }
        match apply_source(st2, file, n, line) {
            Err(_) => {
                assert(scan_upto(st0, file, lines, n) is Err);
            },
            Ok(st3) => {
                assert(all_spans(st3) == all_spans(st2));
                assert(openpart(st3, n - 1) == openpart(st2, n - 1));
                assert(openpart(st3, n) == openpart(st2, n));
                assert(st3.cur is Nothing <==> st2.cur is Nothing);
                assert(st3.lines_total == st2.lines_total);
                if is_header(line) {
                    assert(!is_close(line));
                    assert(st.cur is Nothing);
                    assert(st2.cur is Nothing);
                    assert(st3.cur is Nothing);
                    assert(all_spans(st3) <= st3.lines_total - 1);
                    if starts_with(line, kw_module()) {
                        match parse_quoted(line, 7) {
                            Option::None => {
                                assert(scan_upto(st0, file, lines, n) is Err);
                            },
                            Option::Some(t) => {
                                let st4 = scan_upto(st0, file, lines, n)->Ok_0;
                                assert(all_spans(st4) == all_spans(st3));
                                assert(openpart(st4, n) == 1);
                            },
                        }
                    } else if starts_with(line, kw_data()) {
                        match parse_quoted(line, 5) {
                            Option::None => {
                                assert(scan_upto(st0, file, lines, n) is Err);
                            },
                            Option::Some(t) => match parse_quoted(line, t.1) {
                                Option::None => {
                                    assert(scan_upto(st0, file, lines, n) is Err);
                                },
                                Option::Some(nm) => {
                                    if ends_in_brace(line) {
                                        let b = ResBlockV {
                                            file,
                                            start: n,
                                            end: n,
                                            used: false,
                                        };
                                        assert(res_block_wf(b));
                                        lemma_res_upsert_spans(st3.data_sources, (t.0, nm.0), b);
                                        let st4 = scan_upto(st0, file, lines, n)->Ok_0;
                                        assert(all_spans(st4) <= all_spans(st3) + 1);
                                        assert(openpart(st4, n) == 0);
                                    } else {
                                        let st4 = scan_upto(st0, file, lines, n)->Ok_0;
                                        assert(all_spans(st4) == all_spans(st3));
                                        assert(openpart(st4, n) == 1);
                                    }
                                },
                            },
                        }
                    } else {
                        assert(starts_with(line, kw_resource()));
                        match parse_quoted(line, 9) {
                            Option::None => {
                                assert(scan_upto(st0, file, lines, n) is Err);
                            },
                            Option::Some(t) => match parse_quoted(line, t.1) {
                                Option::None => {
                                    assert(scan_upto(st0, file, lines, n) is Err);
                                },
                                Option::Some(nm) => {
                                    if ends_in_brace(line) {
                                        let b = ResBlockV {
                                            file,
                                            start: n,
                                            end: n,
                                            used: false,
                                        };
                                        assert(res_block_wf(b));
                                        lemma_res_upsert_spans(st3.resources, (t.0, nm.0), b);
                                        let st4 = scan_upto(st0, file, lines, n)->Ok_0;
                                        assert(all_spans(st4) <= all_spans(st3) + 1);
                                        assert(openpart(st4, n) == 0);
                                    } else {
                                        let st4 = scan_upto(st0, file, lines, n)->Ok_0;
                                        assert(all_spans(st4) == all_spans(st3));
                                        assert(openpart(st4, n) == 1);
                                    }
                                },
                            },
                        }
                    }
                } else {
                    assert(apply_header(st3, file, n, line) == Ok::<ScanStateV, ScanErrorV>(st3));
                    let st4 = scan_upto(st0, file, lines, n)->Ok_0;
                    assert(st4 == st3);
                    if !(st4.cur is Nothing) {
                        assert(openpart(st4, n) == openpart(st4, n - 1) + 1);
                    }
                }
            },
        }
    }
}

} // verus!

verus! {

/// Every file of the input is disciplined at the state the scan actually
/// reaches it in: the block-boundary scan of each file starts with nothing
/// open, meets no blank line, and meets headers only while nothing is open.
pub open spec fn disciplined_input(files: Seq<(Seq<u8>, Seq<Seq<u8>>)>) -> bool {
    forall|k: int| 0 <= k < files.len() ==> ((#[trigger] files_upto(files, k)) is Ok
        ==> disciplined_from(
        ScanStateV { cur: OpenV::Nothing, ..files_upto(files, k)->Ok_0 },
        files[k].0,
        files[k].1,
    ))
}

pub proof fn lemma_files_spans(files: Seq<(Seq<u8>, Seq<Seq<u8>>)>, n: int)
    requires
        0 <= n <= files.len(),
        disciplined_input(files),
        files_upto(files, n) is Ok,
    ensures
        ({
            let st = files_upto(files, n)->Ok_0;
            &&& st.cur is Nothing
            &&& catalogs_wf(st)
            &&& 0 <= st.lines_total
            &&& all_spans(st) <= st.lines_total
        }),
    decreases n,
{
    if n == 0 {
        assert(all_spans(init_state()) == 0);
    } else {
        if files_upto(files, n - 1) is Err {
            assert(files_upto(files, n) is Err);
        }
        lemma_files_spans(files, n - 1);
        let stp = files_upto(files, n - 1)->Ok_0;
        let start = ScanStateV { cur: OpenV::Nothing, ..stp };
        assert(start =~= stp);
        let path = files[n - 1].0;
        let ls = files[n - 1].1;
        assert(scan_upto(start, path, ls, ls.len() as int) is Ok);
        assert(scan_state_wf(start, 1));
        lemma_scan_upto_spans(start, path, ls, ls.len() as int);
        let fin = scan_upto(start, path, ls, ls.len() as int)->Ok_0;
        let out = files_upto(files, n)->Ok_0;
        assert(out == (ScanStateV { cur: OpenV::Nothing, ..fin }));
        assert(all_spans(out) == all_spans(fin));
    }
}

/// The catalog of a scan over disciplined input claims no line twice and
/// invents none: the countable total — the sum of the inclusive line spans
/// of its data-source and resource declarations — never exceeds the
/// non-blank lines counted over the scanned files.
pub proof fn lemma_catalog_spans_bounded(path: Seq<u8>, files: Seq<(Seq<u8>, Seq<Seq<u8>>)>)
    requires
        disciplined_input(files),
        scan_spec(path, files) is Ok,
    ensures
        ({
            let m = scan_spec(path, files)->Ok_0;
            0 <= module_total(m) && module_total(m) <= m.lines_total
        }),
{
    lemma_files_spans(files, files.len() as int);
    let st = files_upto(files, files.len() as int)->Ok_0;
    let m = scan_spec(path, files)->Ok_0;
    assert(m.data_sources == st.data_sources);
    assert(m.resources == st.resources);
    assert(m.lines_total == st.lines_total);
    lemma_mod_spans_nonneg(st.modules, st.modules.len() as int);
    lemma_spans_mono(st.data_sources, 0, st.data_sources.len() as int);
    lemma_spans_mono(st.resources, 0, st.resources.len() as int);
}

} // verus!
