//! The block scanner: turns the physical lines of a set of configuration
//! files into the three catalogs of a `Module`, tracking 1-based line
//! numbers and a single "current open block" state.

use vstd::prelude::*;
use crate::catalog::{
    ModuleBlock, ModuleBlockV, ResBlock, ResBlockV, Module, ModuleV,
    mods_view, ress_view, unique_mod_keys, unique_res_keys,
    module_block_wf, res_block_wf, module_wf,
    mod_upsert, res_upsert, mod_upsert_exec, res_upsert_exec,
    lemma_mod_upsert_wf, lemma_res_upsert_wf, bytes_eq,
    lemma_mod_upsert_unique, lemma_res_upsert_unique,
};

verus! {

/// Horizontal whitespace, as found on a physical line with its terminator
/// already removed.
pub open spec fn is_hspace(b: u8) -> bool {
    b == 32 || b == 9 || b == 13
}

/// First index in `[lo, hi)` holding a byte that is not horizontal
/// whitespace; `hi` if there is none.
pub open spec fn skip_spaces(s: Seq<u8>, lo: int, hi: int) -> int
    decreases hi - lo,
{
    if 0 <= lo < hi <= s.len() && is_hspace(s[lo]) {
        skip_spaces(s, lo + 1, hi)
    } else {
        lo
    }
}

/// Upper bound of `[lo, hi)` after discarding trailing horizontal
/// whitespace; `lo` if everything is whitespace.
pub open spec fn rskip_spaces(s: Seq<u8>, lo: int, hi: int) -> int
    decreases hi - lo,
{
    if 0 <= lo < hi <= s.len() && is_hspace(s[hi - 1]) {
        rskip_spaces(s, lo, hi - 1)
    } else {
        hi
    }
}

/// First index in `[lo, hi)` holding a byte other than `b`; `hi` if none.
pub open spec fn skip_byte(s: Seq<u8>, lo: int, hi: int, b: u8) -> int
    decreases hi - lo,
{
    if 0 <= lo < hi <= s.len() && s[lo] == b {
        skip_byte(s, lo + 1, hi, b)
    } else {
        lo
    }
}

/// Upper bound of `[lo, hi)` after discarding trailing bytes equal to `b`.
pub open spec fn rskip_byte(s: Seq<u8>, lo: int, hi: int, b: u8) -> int
    decreases hi - lo,
{
    if 0 <= lo < hi <= s.len() && s[hi - 1] == b {
        rskip_byte(s, lo, hi - 1, b)
    } else {
        hi
    }
}

/// Index of the first occurrence of `b` at or after `from`; -1 if none.
pub open spec fn find_byte(s: Seq<u8>, from: int, b: u8) -> int
    decreases s.len() - from,
{
    if from < 0 || from >= s.len() {
        -1
    } else if s[from] == b {
        from
    } else {
        find_byte(s, from + 1, b)
    }
}

/// Where `find_byte` lands: at the first occurrence of `b`, or nowhere.
pub proof fn lemma_find_byte_props(s: Seq<u8>, from: int, b: u8)
    requires
        0 <= from,
    ensures
        ({
            let r = find_byte(s, from, b);
            &&& (r == -1 ==> forall|k: int| from <= k < s.len() ==> s[k] != b)
            &&& (r != -1 ==> from <= r < s.len() && s[r] == b && (forall|k: int|
                from <= k < r ==> s[k] != b))
        }),
    decreases s.len() - from,
{
    if from < s.len() && s[from] != b {
        lemma_find_byte_props(s, from + 1, b);
    }
}

/// Index just past the last occurrence of `b` in `[0, hi)`; 0 if none.
pub open spec fn rfind_byte_end(s: Seq<u8>, hi: int, b: u8) -> int
    decreases hi,
{
    if hi <= 0 || hi > s.len() {
        0
    } else if s[hi - 1] == b {
        hi
    } else {
        rfind_byte_end(s, hi - 1, b)
    }
}

/// The line is blank once trailing whitespace is discarded.
pub open spec fn is_blank(s: Seq<u8>) -> bool {
    rskip_spaces(s, 0, s.len() as int) == 0
}

/// The line, after trimming trailing whitespace, is exactly a closing brace.
pub open spec fn is_close(s: Seq<u8>) -> bool {
    s.len() >= 1 && rskip_spaces(s, 0, s.len() as int) == 1 && s[0] == 125
}

/// The line, after trimming trailing whitespace, ends with a closing brace
/// (a single-line declaration).
pub open spec fn ends_in_brace(s: Seq<u8>) -> bool {
    let t = rskip_spaces(s, 0, s.len() as int);
    t >= 1 && s[t - 1] == 125
}

pub open spec fn kw_module() -> Seq<u8> {
    seq![109u8, 111, 100, 117, 108, 101, 32]  // "module "
}

pub open spec fn kw_data() -> Seq<u8> {
    seq![100u8, 97, 116, 97, 32]  // "data "
}

pub open spec fn kw_resource() -> Seq<u8> {
    seq![114u8, 101, 115, 111, 117, 114, 99, 101, 32]  // "resource "
}

pub open spec fn kw_source() -> Seq<u8> {
    seq![115u8, 111, 117, 114, 99, 101]  // "source"
}

pub open spec fn starts_with(s: Seq<u8>, p: Seq<u8>) -> bool {
    s.len() >= p.len() && s.subrange(0, p.len() as int) == p
}

/// After skipping leading whitespace the line starts with the `source`
/// attribute keyword.
pub open spec fn is_source_line(s: Seq<u8>) -> bool {
    let a = skip_spaces(s, 0, s.len() as int);
    a + 6 <= s.len() && s.subrange(a, a + 6) == kw_source()
}

/// The first `"`-quoted token at or after `from`: the bytes between the
/// quotes, and the index just past the closing quote.
pub open spec fn parse_quoted(s: Seq<u8>, from: int) -> Option<(Seq<u8>, int)> {
    let i = find_byte(s, from, 34);
    if i < 0 {
        None
    } else {
        let j = find_byte(s, i + 1, 34);
        if j < 0 {
            None
        } else {
            Some((s.subrange(i + 1, j), j + 1))
        }
    }
}

/// The value of a `source = "..."` attribute line: everything after the
/// first `=`, trimmed of surrounding whitespace, then of surrounding quotes.
/// `None` when the line holds no `=`.
pub open spec fn source_value(s: Seq<u8>) -> Option<Seq<u8>> {
    let e = find_byte(s, 0, 61);
    if e < 0 {
        None
    } else {
        let hi0 = rskip_spaces(s, e + 1, s.len() as int);
        let lo0 = skip_spaces(s, e + 1, hi0);
        let hi1 = rskip_byte(s, lo0, hi0, 34);
        let lo1 = skip_byte(s, lo0, hi1, 34);
        Some(s.subrange(lo1, hi1))
    }
}

/// Rewrites a module reference's relative `source` against the path of the
/// declaring file: the file's last component is dropped and the relative
/// path appended, while an absolute source replaces the path outright.
pub open spec fn join_source(base: Seq<u8>, rel: Seq<u8>) -> Seq<u8> {
    if rel.len() > 0 && rel[0] == 47 {
        rel
    } else {
        let k = rfind_byte_end(base, base.len() as int, 47);
        if k == 0 {
            rel
        } else {
            base.subrange(0, k) + rel
        }
    }
}

/// First non-whitespace position in `[lo, hi)`, computed executably.
pub fn skip_spaces_exec(s: &Vec<u8>, lo: usize, hi: usize) -> (r: usize)
    requires
        lo <= hi <= s@.len(),
    ensures
        r == skip_spaces(s@, lo as int, hi as int),
        lo <= r <= hi,
    decreases hi - lo,
{
    if lo < hi && (s[lo] == 32 || s[lo] == 9 || s[lo] == 13) {
        skip_spaces_exec(s, lo + 1, hi)
    } else {
        lo
    }
}

/// Upper bound of `[lo, hi)` without trailing whitespace, computed executably.
pub fn rskip_spaces_exec(s: &Vec<u8>, lo: usize, hi: usize) -> (r: usize)
    requires
        lo <= hi <= s@.len(),
    ensures
        r == rskip_spaces(s@, lo as int, hi as int),
        lo <= r <= hi,
    decreases hi - lo,
{
    if lo < hi && (s[hi - 1] == 32 || s[hi - 1] == 9 || s[hi - 1] == 13) {
        rskip_spaces_exec(s, lo, hi - 1)
    } else {
        hi
    }
}

/// First position in `[lo, hi)` holding a byte other than `b`.
pub fn skip_byte_exec(s: &Vec<u8>, lo: usize, hi: usize, b: u8) -> (r: usize)
    requires
        lo <= hi <= s@.len(),
    ensures
        r == skip_byte(s@, lo as int, hi as int, b),
        lo <= r <= hi,
    decreases hi - lo,
{
    if lo < hi && s[lo] == b {
        skip_byte_exec(s, lo + 1, hi, b)
    } else {
        lo
    }
}

/// Upper bound of `[lo, hi)` without trailing bytes equal to `b`.
pub fn rskip_byte_exec(s: &Vec<u8>, lo: usize, hi: usize, b: u8) -> (r: usize)
    requires
        lo <= hi <= s@.len(),
    ensures
        r == rskip_byte(s@, lo as int, hi as int, b),
        lo <= r <= hi,
    decreases hi - lo,
{
    if lo < hi && s[hi - 1] == b {
        rskip_byte_exec(s, lo, hi - 1, b)
    } else {
        hi
    }
}

/// First occurrence of `b` at or after `from`.
pub fn find_byte_exec(s: &Vec<u8>, from: usize, b: u8) -> (r: Option<usize>)
    ensures
        match r {
            Some(i) => from <= i < s@.len() && find_byte(s@, from as int, b) == i,
            None => find_byte(s@, from as int, b) == -1,
        },
    decreases s@.len() - from,
{
    if from >= s.len() {
        None
    } else if s[from] == b {
        Some(from)
    } else {
        find_byte_exec(s, from + 1, b)
    }
}

/// Index just past the last occurrence of `b` below `hi`.
pub fn rfind_byte_end_exec(s: &Vec<u8>, hi: usize, b: u8) -> (r: usize)
    requires
        hi <= s@.len(),
    ensures
        r == rfind_byte_end(s@, hi as int, b),
        r <= hi,
    decreases hi,
{
    if hi == 0 {
        0
    } else if s[hi - 1] == b {
        hi
    } else {
        rfind_byte_end_exec(s, hi - 1, b)
    }
}

/// Copies the bytes of `[start, end)` out of `s`.
pub fn sub_vec(s: &Vec<u8>, start: usize, end: usize) -> (r: Vec<u8>)
    requires
        start <= end <= s@.len(),
    ensures
        r@ == s@.subrange(start as int, end as int),
{
    let mut r: Vec<u8> = Vec::new();
    let mut i: usize = start;
    while i < end
        invariant
            start <= i <= end <= s@.len(),
            r@.len() == i - start,
            forall|j: int| 0 <= j < r@.len() ==> r@[j] == s@[start + j],
        decreases end - i,
    {
        r.push(s[i]);
        i += 1;
    }
    proof {
        assert(r@ =~= s@.subrange(start as int, end as int));
    }
    r
}

/// Copies a byte string.
pub fn copy_bytes(s: &Vec<u8>) -> (r: Vec<u8>)
    ensures
        r@ == s@,
{
    let r = sub_vec(s, 0, s.len());
    proof {
        assert(s@.subrange(0, s@.len() as int) =~= s@);
    }
    r
}

/// Appends the bytes of `src` to `dst`.
pub fn push_all(dst: &mut Vec<u8>, src: &Vec<u8>)
    ensures
        final(dst)@ == old(dst)@ + src@,
{
    let ghost d0 = dst@;
    let mut i: usize = 0;
    while i < src.len()
        invariant
            i <= src@.len(),
            dst@ == d0 + src@.subrange(0, i as int),
        decreases src@.len() - i,
    {
        let ghost dpre = dst@;
        dst.push(src[i]);
        proof {
            assert(dst@ =~= d0 + src@.subrange(0, i + 1 as int));
        }
        i += 1;
    }
    proof {
        assert(src@.subrange(0, src@.len() as int) =~= src@);
    }
}

/// Whether the line starts with the given keyword bytes.
pub fn has_prefix(s: &Vec<u8>, p: &Vec<u8>) -> (r: bool)
    ensures
        r == starts_with(s@, p@),
{
    if s.len() < p.len() {
        return false;
    }
    let mut i: usize = 0;
    while i < p.len()
        invariant
            p@.len() <= s@.len(),
            i <= p@.len(),
            forall|j: int| 0 <= j < i ==> s@[j] == p@[j],
        decreases p@.len() - i,
    {
        if s[i] != p[i] {
            assert(s@.subrange(0, p@.len() as int)[i as int] != p@[i as int]);
            return false;
        }
        i += 1;
    }
    proof {
        assert(s@.subrange(0, p@.len() as int) =~= p@);
    }
    true
}

/// The quoted-token parser, executably.
pub fn parse_quoted_exec(s: &Vec<u8>, from: usize) -> (r: Option<(Vec<u8>, usize)>)
    ensures
        match r {
            Some(t) => parse_quoted(s@, from as int) == Some((t.0@, t.1 as int)) && t.1 <= s@.len(),
            None => parse_quoted(s@, from as int) is None,
        },
{
    let n = s.len();
    match find_byte_exec(s, from, 34) {
        None => None,
        Some(i) => {
            assert(i < n);
            match find_byte_exec(s, i + 1, 34) {
                None => None,
                Some(j) => {
                    assert(j < n);
                    Some((sub_vec(s, i + 1, j), j + 1))
                },
            }
        },
    }
}

/// The `source` attribute value, executably.
pub fn source_value_exec(s: &Vec<u8>) -> (r: Option<Vec<u8>>)
    ensures
        match r {
            Some(v) => source_value(s@) == Some(v@),
            None => source_value(s@) is None,
        },
{
    let n = s.len();
    match find_byte_exec(s, 0, 61) {
        None => None,
        Some(e) => {
            assert(e < n);
            let hi0 = rskip_spaces_exec(s, e + 1, s.len());
            let lo0 = skip_spaces_exec(s, e + 1, hi0);
            let hi1 = rskip_byte_exec(s, lo0, hi0, 34);
            let lo1 = skip_byte_exec(s, lo0, hi1, 34);
            Some(sub_vec(s, lo1, hi1))
        },
    }
}

/// The source-path rewrite, executably.
pub fn join_source_exec(base: &Vec<u8>, rel: &Vec<u8>) -> (r: Vec<u8>)
    ensures
        r@ == join_source(base@, rel@),
{
    if rel.len() > 0 && rel[0] == 47 {
        return copy_bytes(rel);
    }
    let k = rfind_byte_end_exec(base, base.len(), 47);
    if k == 0 {
        copy_bytes(rel)
    } else {
        let mut r = sub_vec(base, 0, k);
        push_all(&mut r, rel);
        r
    }
}

} // verus!

verus! {

/// The single "current open block" of the scanner.
pub enum Open {
    Nothing,
    Mod { name: Vec<u8>, source: Vec<u8>, start: usize },
    Data { typ: Vec<u8>, name: Vec<u8>, start: usize },
    Res { typ: Vec<u8>, name: Vec<u8>, start: usize },
}

/// Mathematical image of `Open`.
#[verifier::ext_equal]
pub ghost enum OpenV {
    Nothing,
    Mod { name: Seq<u8>, source: Seq<u8>, start: int },
    Data { typ: Seq<u8>, name: Seq<u8>, start: int },
    Res { typ: Seq<u8>, name: Seq<u8>, start: int },
}

impl View for Open {
    type V = OpenV;

    open spec fn view(&self) -> OpenV {
        match self {
            Open::Nothing => OpenV::Nothing,
            Open::Mod { name, source, start } => OpenV::Mod {
                name: name@,
                source: source@,
                start: *start as int,
            },
            Open::Data { typ, name, start } => OpenV::Data {
                typ: typ@,
                name: name@,
                start: *start as int,
            },
            Open::Res { typ, name, start } => OpenV::Res {
                typ: typ@,
                name: name@,
                start: *start as int,
            },
        }
    }
}

/// Scanner state: the open block, the three catalogs built so far, and the
/// running count of non-blank lines.
pub struct ScanState {
    pub cur: Open,
    pub modules: Vec<(Vec<u8>, ModuleBlock)>,
    pub data_sources: Vec<((Vec<u8>, Vec<u8>), ResBlock)>,
    pub resources: Vec<((Vec<u8>, Vec<u8>), ResBlock)>,
    pub lines_total: usize,
}

/// Mathematical image of `ScanState`.
#[verifier::ext_equal]
pub ghost struct ScanStateV {
    pub cur: OpenV,
    pub modules: Seq<(Seq<u8>, ModuleBlockV)>,
    pub data_sources: Seq<((Seq<u8>, Seq<u8>), ResBlockV)>,
    pub resources: Seq<((Seq<u8>, Seq<u8>), ResBlockV)>,
    pub lines_total: int,
}

impl View for ScanState {
    type V = ScanStateV;

    open spec fn view(&self) -> ScanStateV {
        ScanStateV {
            cur: self.cur@,
            modules: mods_view(self.modules@),
            data_sources: ress_view(self.data_sources@),
            resources: ress_view(self.resources@),
            lines_total: self.lines_total as int,
        }
    }
}

/// A malformed declaration header or source attribute, fatal for the whole
/// run, carrying the file and 1-based line where it was found.
#[derive(Debug)]
pub enum ScanError {
    NoSourceValue { file: Vec<u8>, line: usize },
    BadModuleHeader { file: Vec<u8>, line: usize },
    BadDataHeader { file: Vec<u8>, line: usize },
    BadResourceHeader { file: Vec<u8>, line: usize },
}

/// Mathematical image of `ScanError`.
#[verifier::ext_equal]
pub ghost enum ScanErrorV {
    NoSourceValue { file: Seq<u8>, line: int },
    BadModuleHeader { file: Seq<u8>, line: int },
    BadDataHeader { file: Seq<u8>, line: int },
    BadResourceHeader { file: Seq<u8>, line: int },
}

impl View for ScanError {
    type V = ScanErrorV;

    open spec fn view(&self) -> ScanErrorV {
        match self {
            ScanError::NoSourceValue { file, line } => ScanErrorV::NoSourceValue {
                file: file@,
                line: *line as int,
            },
            ScanError::BadModuleHeader { file, line } => ScanErrorV::BadModuleHeader {
                file: file@,
                line: *line as int,
            },
            ScanError::BadDataHeader { file, line } => ScanErrorV::BadDataHeader {
                file: file@,
                line: *line as int,
            },
            ScanError::BadResourceHeader { file, line } => ScanErrorV::BadResourceHeader {
                file: file@,
                line: *line as int,
            },
        }
    }
}

/// A closing-brace line: the open block, if any, receives the current line
/// as its inclusive end and is inserted into its catalog.
pub open spec fn close_block(st: ScanStateV, file: Seq<u8>, ln: int) -> ScanStateV {
    match st.cur {
        OpenV::Nothing => st,
        OpenV::Mod { name, source, start } => ScanStateV {
            cur: OpenV::Nothing,
            modules: mod_upsert(
                st.modules,
                name,
                ModuleBlockV { source_path: source, start, end: ln, used: false },
            ),
            ..st
        },
        OpenV::Data { typ, name, start } => ScanStateV {
            cur: OpenV::Nothing,
            data_sources: res_upsert(
                st.data_sources,
                (typ, name),
                ResBlockV { file, start, end: ln, used: false },
            ),
            ..st
        },
        OpenV::Res { typ, name, start } => ScanStateV {
            cur: OpenV::Nothing,
            resources: res_upsert(
                st.resources,
                (typ, name),
                ResBlockV { file, start, end: ln, used: false },
            ),
            ..st
        },
    }
}

/// One non-blank line inside an open module block may carry the `source`
/// attribute, rewriting the block's source path.
pub open spec fn apply_source(st: ScanStateV, file: Seq<u8>, ln: int, line: Seq<u8>) -> Result<
    ScanStateV,
    ScanErrorV,
> {
    match st.cur {
        OpenV::Mod { name, source, start } => if is_source_line(line) {
            match source_value(line) {
                Option::None => Err(ScanErrorV::NoSourceValue { file, line: ln }),
                Option::Some(v) => Ok(
                    ScanStateV {
                        cur: OpenV::Mod { name, source: join_source(source, v), start },
                        ..st
                    },
                ),
            }
        } else {
            Ok(st)
        },
        _ => Ok(st),
    }
}

/// A declaration-header line opens a new block, or inserts it at once when
/// the same line already closes it.
pub open spec fn apply_header(st: ScanStateV, file: Seq<u8>, ln: int, line: Seq<u8>) -> Result<
    ScanStateV,
    ScanErrorV,
> {
    if starts_with(line, kw_module()) {
        match parse_quoted(line, 7) {
            Option::None => Err(ScanErrorV::BadModuleHeader { file, line: ln }),
            Option::Some(t) => Ok(
                ScanStateV { cur: OpenV::Mod { name: t.0, source: file, start: ln }, ..st },
            ),
        }
    } else if starts_with(line, kw_data()) {
        match parse_quoted(line, 5) {
            Option::None => Err(ScanErrorV::BadDataHeader { file, line: ln }),
            Option::Some(t) => match parse_quoted(line, t.1) {
                Option::None => Err(ScanErrorV::BadDataHeader { file, line: ln }),
                Option::Some(n) => if ends_in_brace(line) {
                    Ok(
                        ScanStateV {
                            data_sources: res_upsert(
                                st.data_sources,
                                (t.0, n.0),
                                ResBlockV { file, start: ln, end: ln, used: false },
                            ),
                            ..st
                        },
                    )
                } else {
                    Ok(ScanStateV { cur: OpenV::Data { typ: t.0, name: n.0, start: ln }, ..st })
                },
            },
        }
    } else if starts_with(line, kw_resource()) {
        match parse_quoted(line, 9) {
            Option::None => Err(ScanErrorV::BadResourceHeader { file, line: ln }),
            Option::Some(t) => match parse_quoted(line, t.1) {
                Option::None => Err(ScanErrorV::BadResourceHeader { file, line: ln }),
                Option::Some(n) => if ends_in_brace(line) {
                    Ok(
                        ScanStateV {
                            resources: res_upsert(
                                st.resources,
                                (t.0, n.0),
                                ResBlockV { file, start: ln, end: ln, used: false },
                            ),
                            ..st
                        },
                    )
                } else {
                    Ok(ScanStateV { cur: OpenV::Res { typ: t.0, name: n.0, start: ln }, ..st })
                },
            },
        }
    } else {
        Ok(st)
    }
}

/// One physical line of one file, at 1-based line number `ln`: blank lines
/// are skipped, every other line is counted, may close the open block, may
/// rewrite an open module's source, and may open or insert a declaration.
pub open spec fn step_line(st: ScanStateV, file: Seq<u8>, ln: int, line: Seq<u8>) -> Result<
    ScanStateV,
    ScanErrorV,
> {
    if is_blank(line) {
        Ok(st)
    } else {
        let st1 = ScanStateV { lines_total: st.lines_total + 1, ..st };
        let st2 = if is_close(line) {
            close_block(st1, file, ln)
        } else {
            st1
        };
        match apply_source(st2, file, ln, line) {
            Err(e) => Err(e),
            Ok(st3) => apply_header(st3, file, ln, line),
        }
    }
}

} // verus!

verus! {

/// Any open block started at a line within `[1, bound]`.
pub open spec fn open_wf(o: OpenV, bound: int) -> bool {
    match o {
        OpenV::Nothing => true,
        OpenV::Mod { start, .. } => 1 <= start <= bound,
        OpenV::Data { start, .. } => 1 <= start <= bound,
        OpenV::Res { start, .. } => 1 <= start <= bound,
    }
}

/// The catalogs built so far have pairwise-distinct keys and well-formed
/// blocks.
pub open spec fn catalogs_wf(st: ScanStateV) -> bool {
    &&& unique_mod_keys(st.modules)
    &&& unique_res_keys(st.data_sources)
    &&& unique_res_keys(st.resources)
    &&& forall|i: int| 0 <= i < st.modules.len() ==> module_block_wf((#[trigger] st.modules[i]).1)
    &&& forall|i: int| 0 <= i < st.data_sources.len() ==> res_block_wf(
        (#[trigger] st.data_sources[i]).1,
    )
    &&& forall|i: int| 0 <= i < st.resources.len() ==> res_block_wf((#[trigger] st.resources[i]).1)
}

pub open spec fn scan_state_wf(st: ScanStateV, bound: int) -> bool {
    catalogs_wf(st) && open_wf(st.cur, bound)
}

/// One step of the scanner preserves well-formedness and counts at most one
/// more line.
pub proof fn lemma_step_wf(st: ScanStateV, file: Seq<u8>, ln: int, line: Seq<u8>)
    requires
        scan_state_wf(st, ln),
        1 <= ln,
    ensures
        match step_line(st, file, ln, line) {
            Ok(st2) => scan_state_wf(st2, ln + 1) && st.lines_total <= st2.lines_total
                <= st.lines_total + 1,
            Err(_) => true,
        },
{
    if !is_blank(line) {
        let st1 = ScanStateV { lines_total: st.lines_total + 1, ..st };
        let st2 = if is_close(line) {
            close_block(st1, file, ln)
        } else {
            st1
        };
        if is_close(line) {
            match st.cur {
                OpenV::Nothing => {},
                OpenV::Mod { name, source, start } => {
                    lemma_mod_upsert_wf(
                        st1.modules,
                        name,
                        ModuleBlockV { source_path: source, start, end: ln, used: false },
                    );
                },
                OpenV::Data { typ, name, start } => {
                    lemma_res_upsert_wf(
                        st1.data_sources,
                        (typ, name),
                        ResBlockV { file, start, end: ln, used: false },
                    );
                },
                OpenV::Res { typ, name, start } => {
                    lemma_res_upsert_wf(
                        st1.resources,
                        (typ, name),
                        ResBlockV { file, start, end: ln, used: false },
                    );
                },
            }
        }
        assert(scan_state_wf(st2, ln));
        match apply_source(st2, file, ln, line) {
            Err(_) => {},
            Ok(st3) => {
                assert(scan_state_wf(st3, ln));
                if starts_with(line, kw_data()) {
                    match parse_quoted(line, 5) {
                        Option::None => {},
                        Option::Some(t) => match parse_quoted(line, t.1) {
                            Option::None => {},
                            Option::Some(n) => if ends_in_brace(line) {
                                lemma_res_upsert_wf(
                                    st3.data_sources,
                                    (t.0, n.0),
                                    ResBlockV { file, start: ln, end: ln, used: false },
                                );
                            },
                        },
                    }
                } else if starts_with(line, kw_resource()) {
                    match parse_quoted(line, 9) {
                        Option::None => {},
                        Option::Some(t) => match parse_quoted(line, t.1) {
                            Option::None => {},
                            Option::Some(n) => if ends_in_brace(line) {
                                lemma_res_upsert_wf(
                                    st3.resources,
                                    (t.0, n.0),
                                    ResBlockV { file, start: ln, end: ln, used: false },
                                );
                            },
                        },
                    }
                }
            },
        }
    }
}

pub fn kw_module_vec() -> (v: Vec<u8>)
    ensures
        v@ == kw_module(),
{
    let mut v: Vec<u8> = Vec::new();
    v.push(109);
    v.push(111);
    v.push(100);
    v.push(117);
    v.push(108);
    v.push(101);
    v.push(32);
    proof {
        assert(v@ =~= kw_module());
    }
    v
}

pub fn kw_data_vec() -> (v: Vec<u8>)
    ensures
        v@ == kw_data(),
{
    let mut v: Vec<u8> = Vec::new();
    v.push(100);
    v.push(97);
    v.push(116);
    v.push(97);
    v.push(32);
    proof {
        assert(v@ =~= kw_data());
    }
    v
}

pub fn kw_resource_vec() -> (v: Vec<u8>)
    ensures
        v@ == kw_resource(),
{
    let mut v: Vec<u8> = Vec::new();
    v.push(114);
    v.push(101);
    v.push(115);
    v.push(111);
    v.push(117);
    v.push(114);
    v.push(99);
    v.push(101);
    v.push(32);
    proof {
        assert(v@ =~= kw_resource());
    }
    v
}

pub fn kw_source_vec() -> (v: Vec<u8>)
    ensures
        v@ == kw_source(),
{
    let mut v: Vec<u8> = Vec::new();
    v.push(115);
    v.push(111);
    v.push(117);
    v.push(114);
    v.push(99);
    v.push(101);
    proof {
        assert(v@ =~= kw_source());
    }
    v
}

/// One line of the scanner, executably: exactly the `step_line` transition.
pub fn step_line_exec(st: ScanState, file: &Vec<u8>, ln: usize, line: &Vec<u8>) -> (r: Result<
    ScanState,
    ScanError,
>)
    requires
        st@.lines_total < usize::MAX as int,
        catalogs_wf(st@),
    ensures
        match r {
            Ok(st2) => step_line(st@, file@, ln as int, line@) == Ok::<ScanStateV, ScanErrorV>(st2@),
            Err(e) => step_line(st@, file@, ln as int, line@) == Err::<ScanStateV, ScanErrorV>(e@),
        },
{
    let ghost st0v = st@;
    let n = line.len();
    let t = rskip_spaces_exec(line, 0, n);
    if t == 0 {
        assert(is_blank(line@));
        return Ok(st);
    }
    assert(!is_blank(line@));
    let ScanState { mut cur, mut modules, mut data_sources, mut resources, mut lines_total } = st;
    lines_total = lines_total + 1;
    let ghost st1v = ScanStateV { lines_total: st0v.lines_total + 1, ..st0v };

    if t == 1 && line[0] == 125 {
        assert(is_close(line@));
        let prev = cur;
        cur = Open::Nothing;
        match prev {
            Open::Nothing => {},
            Open::Mod { name, source, start } => {
                let ghost mv = mods_view(modules@);
                let ghost nmv = name@;
                let ghost nb = ModuleBlockV {
                    source_path: source@,
                    start: start as int,
                    end: ln as int,
                    used: false,
                };
                mod_upsert_exec(
                    &mut modules,
                    name,
                    ModuleBlock { source_path: source, lineno: (start, ln), used: false },
                );
                proof {
                    lemma_mod_upsert_unique(mv, nmv, nb);
                }
            },
            Open::Data { typ, name, start } => {
                let ghost dv = ress_view(data_sources@);
                let ghost kv = (typ@, name@);
                let ghost nb = ResBlockV {
                    file: file@,
                    start: start as int,
                    end: ln as int,
                    used: false,
                };
                res_upsert_exec(
                    &mut data_sources,
                    typ,
                    name,
                    ResBlock { file: copy_bytes(file), lineno: (start, ln), used: false },
                );
                proof {
                    lemma_res_upsert_unique(dv, kv, nb);
                }
            },
            Open::Res { typ, name, start } => {
                let ghost rv = ress_view(resources@);
                let ghost kv = (typ@, name@);
                let ghost nb = ResBlockV {
                    file: file@,
                    start: start as int,
                    end: ln as int,
                    used: false,
                };
                res_upsert_exec(
                    &mut resources,
                    typ,
                    name,
                    ResBlock { file: copy_bytes(file), lineno: (start, ln), used: false },
                );
                proof {
                    lemma_res_upsert_unique(rv, kv, nb);
                }
            },
        }
    } else {
        assert(!is_close(line@));
    }
    let ghost st2v = if is_close(line@) {
        close_block(st1v, file@, ln as int)
    } else {
        st1v
    };
    proof {
        assert(ScanStateV {
            cur: cur@,
            modules: mods_view(modules@),
            data_sources: ress_view(data_sources@),
            resources: ress_view(resources@),
            lines_total: lines_total as int,
        } =~= st2v);
        assert(unique_mod_keys(mods_view(modules@)));
        assert(unique_res_keys(ress_view(data_sources@)));
        assert(unique_res_keys(ress_view(resources@)));
    }

    let mut is_src = false;
    let a = skip_spaces_exec(line, 0, n);
    if n >= 6 && a <= n - 6 {
        let seg = sub_vec(line, a, a + 6);
        let kws = kw_source_vec();
        is_src = bytes_eq(&seg, &kws);
    }
    assert(is_src == is_source_line(line@));

    if is_src {
        cur = match cur {
            Open::Mod { name, source, start } => {
                match source_value_exec(line) {
                    None => {
                        return Err(ScanError::NoSourceValue { file: copy_bytes(file), line: ln });
                    },
                    Some(v) => {
                        let ns = join_source_exec(&source, &v);
                        Open::Mod { name, source: ns, start }
                    },
                }
            },
            o => o,
        };
    }
    let ghost st3v = match apply_source(st2v, file@, ln as int, line@) {
        Ok(s) => s,
        Err(_) => st2v,  // unreachable here: the error case returned above
    };
    proof {
        assert(apply_source(st2v, file@, ln as int, line@) is Ok);
        assert(ScanStateV {
            cur: cur@,
            modules: mods_view(modules@),
            data_sources: ress_view(data_sources@),
            resources: ress_view(resources@),
            lines_total: lines_total as int,
        } =~= st3v);
    }

    let kwm = kw_module_vec();
    if has_prefix(line, &kwm) {
        match parse_quoted_exec(line, 7) {
            None => {
                return Err(ScanError::BadModuleHeader { file: copy_bytes(file), line: ln });
            },
            Some(tk) => {
                cur = Open::Mod { name: tk.0, source: copy_bytes(file), start: ln };
            },
        }
    } else {
        let kwd = kw_data_vec();
        if has_prefix(line, &kwd) {
            match parse_quoted_exec(line, 5) {
                None => {
                    return Err(ScanError::BadDataHeader { file: copy_bytes(file), line: ln });
                },
                Some(tk) => match parse_quoted_exec(line, tk.1) {
                    None => {
                        return Err(ScanError::BadDataHeader { file: copy_bytes(file), line: ln });
                    },
                    Some(nm) => {
                        if t >= 1 && line[t - 1] == 125 {
                            assert(ends_in_brace(line@));
                            res_upsert_exec(
                                &mut data_sources,
                                tk.0,
                                nm.0,
                                ResBlock { file: copy_bytes(file), lineno: (ln, ln), used: false },
                            );
                        } else {
                            assert(!ends_in_brace(line@));
                            cur = Open::Data { typ: tk.0, name: nm.0, start: ln };
                        }
                    },
                },
            }
        } else {
            let kwr = kw_resource_vec();
            if has_prefix(line, &kwr) {
                match parse_quoted_exec(line, 9) {
                    None => {
                        return Err(
                            ScanError::BadResourceHeader { file: copy_bytes(file), line: ln },
                        );
                    },
                    Some(tk) => match parse_quoted_exec(line, tk.1) {
                        None => {
                            return Err(
                                ScanError::BadResourceHeader { file: copy_bytes(file), line: ln },
                            );
                        },
                        Some(nm) => {
                            if t >= 1 && line[t - 1] == 125 {
                                assert(ends_in_brace(line@));
                                res_upsert_exec(
                                    &mut resources,
                                    tk.0,
                                    nm.0,
                                    ResBlock {
                                        file: copy_bytes(file),
                                        lineno: (ln, ln),
                                        used: false,
                                    },
                                );
                            } else {
                                assert(!ends_in_brace(line@));
                                cur = Open::Res { typ: tk.0, name: nm.0, start: ln };
                            }
                        },
                    },
                }
            }
        }
    }

    let st_new = ScanState { cur, modules, data_sources, resources, lines_total };
    proof {
        assert(apply_header(st3v, file@, ln as int, line@) is Ok);
        assert(st_new@ =~= apply_header(st3v, file@, ln as int, line@)->Ok_0);
    }
    Ok(st_new)
}

} // verus!

verus! {

/// The scanner state after the first `n` lines of one file, 1-based line
/// numbers, errors short-circuiting.
pub open spec fn scan_upto(st0: ScanStateV, file: Seq<u8>, lines: Seq<Seq<u8>>, n: int) -> Result<
    ScanStateV,
    ScanErrorV,
>
    decreases n,
{
    if n <= 0 {
        Ok(st0)
    } else {
        match scan_upto(st0, file, lines, n - 1) {
            Err(e) => Err(e),
            Ok(st) => step_line(st, file, n, lines[n - 1]),
        }
    }
}

/// Scanning one whole file: the open-block state starts out empty, and a
/// block still open at end of file is silently dropped.
pub open spec fn scan_file_spec(st0: ScanStateV, path: Seq<u8>, lines: Seq<Seq<u8>>) -> Result<
    ScanStateV,
    ScanErrorV,
> {
    match scan_upto(ScanStateV { cur: OpenV::Nothing, ..st0 }, path, lines, lines.len() as int) {
        Ok(st) => Ok(ScanStateV { cur: OpenV::Nothing, ..st }),
        Err(e) => Err(e),
    }
}

/// Once a prefix of the lines errs, the whole file errs the same way.
pub proof fn lemma_scan_upto_err(st0: ScanStateV, file: Seq<u8>, lines: Seq<Seq<u8>>, n: int, m: int)
    requires
        0 <= n <= m,
        scan_upto(st0, file, lines, n) is Err,
    ensures
        scan_upto(st0, file, lines, m) == scan_upto(st0, file, lines, n),
    decreases m,
{
    if m > n {
        lemma_scan_upto_err(st0, file, lines, n, m - 1);
    }
}

/// The view of a file's lines.
pub open spec fn lines_view(s: Seq<Vec<u8>>) -> Seq<Seq<u8>> {
    s.map_values(|l: Vec<u8>| l@)
}

/// Scans the lines of one file on top of the catalogs accumulated so far.
pub fn scan_file_exec(st: ScanState, path: &Vec<u8>, lines: &Vec<Vec<u8>>) -> (r: Result<
    ScanState,
    ScanError,
>)
    requires
        catalogs_wf(st@),
        st@.lines_total + lines@.len() <= usize::MAX as int,
    ensures
        match r {
            Ok(st2) => scan_file_spec(st@, path@, lines_view(lines@)) == Ok::<
                ScanStateV,
                ScanErrorV,
            >(st2@) && catalogs_wf(st2@) && st2@.cur is Nothing && st@.lines_total
                <= st2@.lines_total <= st@.lines_total + lines@.len(),
            Err(e) => scan_file_spec(st@, path@, lines_view(lines@)) == Err::<
                ScanStateV,
                ScanErrorV,
            >(e@),
        },
{
    let ghost lv = lines_view(lines@);
    let ghost st0v = ScanStateV { cur: OpenV::Nothing, ..st@ };
    let ScanState { cur: _, modules, data_sources, resources, lines_total } = st;
    let mut cst = ScanState { cur: Open::Nothing, modules, data_sources, resources, lines_total };
    proof {
        assert(cst@ =~= st0v);
    }
    let mut i: usize = 0;
    while i < lines.len()
        invariant
            i <= lines@.len(),
            lv == lines_view(lines@),
            lv.len() == lines@.len(),
            st0v == (ScanStateV { cur: OpenV::Nothing, ..st@ }),
            scan_upto(st0v, path@, lv, i as int) == Ok::<ScanStateV, ScanErrorV>(cst@),
            scan_state_wf(cst@, i + 1 as int),
            st0v.lines_total <= cst@.lines_total <= st0v.lines_total + i,
            st0v.lines_total + lv.len() <= usize::MAX as int,
        decreases lines@.len() - i,
    {
        proof {
            lemma_step_wf(cst@, path@, i + 1 as int, lv[i as int]);
            assert(lv[i as int] == lines@[i as int]@);
        }
        let r = step_line_exec(cst, path, i + 1, &lines[i]);
        match r {
            Ok(nst) => {
                cst = nst;
            },
            Err(e) => {
                proof {
                    lemma_scan_upto_err(st0v, path@, lv, i + 1 as int, lv.len() as int);
                }
                return Err(e);
            },
        }
        i += 1;
    }
    let ghost endv = cst@;
    let ScanState { cur: _, modules, data_sources, resources, lines_total } = cst;
    let out = ScanState { cur: Open::Nothing, modules, data_sources, resources, lines_total };
    proof {
        assert(out@ =~= ScanStateV { cur: OpenV::Nothing, ..endv });
    }
    Ok(out)
}

/// One configuration file handed to the scanner: its path and its physical
/// lines, each line without its terminator.
pub struct SourceFile {
    pub path: Vec<u8>,
    pub lines: Vec<Vec<u8>>,
}

impl View for SourceFile {
    type V = (Seq<u8>, Seq<Seq<u8>>);

    open spec fn view(&self) -> (Seq<u8>, Seq<Seq<u8>>) {
        (self.path@, lines_view(self.lines@))
    }
}

pub open spec fn files_view(s: Seq<SourceFile>) -> Seq<(Seq<u8>, Seq<Seq<u8>>)> {
    s.map_values(|f: SourceFile| f@)
}

/// The scanner's starting state: nothing open, nothing catalogued.
pub open spec fn init_state() -> ScanStateV {
    ScanStateV {
        cur: OpenV::Nothing,
        modules: Seq::empty(),
        data_sources: Seq::empty(),
        resources: Seq::empty(),
        lines_total: 0,
    }
}

/// The scanner state after the first `n` files of a directory.
pub open spec fn files_upto(files: Seq<(Seq<u8>, Seq<Seq<u8>>)>, n: int) -> Result<
    ScanStateV,
    ScanErrorV,
>
    decreases n,
{
    if n <= 0 {
        Ok(init_state())
    } else {
        match files_upto(files, n - 1) {
            Err(e) => Err(e),
            Ok(st) => scan_file_spec(st, files[n - 1].0, files[n - 1].1),
        }
    }
}

/// Total number of physical lines over the first `n` files.
pub open spec fn lines_upto(files: Seq<(Seq<u8>, Seq<Seq<u8>>)>, n: int) -> int
    decreases n,
{
    if n <= 0 {
        0
    } else {
        lines_upto(files, n - 1) + files[n - 1].1.len()
    }
}

pub proof fn lemma_lines_upto_mono(files: Seq<(Seq<u8>, Seq<Seq<u8>>)>, n: int, m: int)
    requires
        0 <= n <= m,
    ensures
        lines_upto(files, n) <= lines_upto(files, m),
    decreases m,
{
    if m > n {
        lemma_lines_upto_mono(files, n, m - 1);
    }
}

/// Once a prefix of the files errs, the whole directory errs the same way.
pub proof fn lemma_files_upto_err(files: Seq<(Seq<u8>, Seq<Seq<u8>>)>, n: int, m: int)
    requires
        0 <= n <= m,
        files_upto(files, n) is Err,
    ensures
        files_upto(files, m) == files_upto(files, n),
    decreases m,
{
    if m > n {
        lemma_files_upto_err(files, n, m - 1);
    }
}

/// What scanning a directory yields: the catalogs of the final state, with
/// the directory path and the file list recorded.
pub open spec fn scan_spec(path: Seq<u8>, files: Seq<(Seq<u8>, Seq<Seq<u8>>)>) -> Result<
    ModuleV,
    ScanErrorV,
> {
    match files_upto(files, files.len() as int) {
        Err(e) => Err(e),
        Ok(st) => Ok(
            ModuleV {
                path: path,
                files: files.map_values(|f: (Seq<u8>, Seq<Seq<u8>>)| f.0),
                lines_total: st.lines_total,
                modules: st.modules,
                data_sources: st.data_sources,
                resources: st.resources,
            },
        ),
    }
}

/// Scans a directory's configuration files, in the order given, into a
/// module catalog. The catalog is exactly `scan_spec` of the input and is
/// well formed; a malformed header or source attribute aborts the scan.
pub fn scan_files(path: Vec<u8>, files: &Vec<SourceFile>) -> (r: Result<Module, ScanError>)
    requires
        lines_upto(files_view(files@), files@.len() as int) <= usize::MAX as int,
    ensures
        match r {
            Ok(m) => scan_spec(path@, files_view(files@)) == Ok::<ModuleV, ScanErrorV>(m@)
                && module_wf(m@),
            Err(e) => scan_spec(path@, files_view(files@)) == Err::<ModuleV, ScanErrorV>(e@),
        },
{
    let ghost fv = files_view(files@);
    let mut cst = ScanState {
        cur: Open::Nothing,
        modules: Vec::new(),
        data_sources: Vec::new(),
        resources: Vec::new(),
        lines_total: 0,
    };
    proof {
        assert(cst@ =~= init_state());
    }
    let mut file_paths: Vec<Vec<u8>> = Vec::new();
    let mut i: usize = 0;
    while i < files.len()
        invariant
            i <= files@.len(),
            fv == files_view(files@),
            fv.len() == files@.len(),
            files_upto(fv, i as int) == Ok::<ScanStateV, ScanErrorV>(cst@),
            catalogs_wf(cst@),
            cst@.cur is Nothing,
            0 <= cst@.lines_total <= lines_upto(fv, i as int),
            lines_upto(fv, fv.len() as int) <= usize::MAX as int,
            file_paths@.len() == i,
            forall|j: int| 0 <= j < i ==> (#[trigger] file_paths@[j])@ == fv[j].0,
        decreases files@.len() - i,
    {
        proof {
            lemma_lines_upto_mono(fv, i + 1 as int, fv.len() as int);
            assert(fv[i as int] == files@[i as int]@);
        }
        let p = copy_bytes(&files[i].path);
        let r = scan_file_exec(cst, &files[i].path, &files[i].lines);
        match r {
            Ok(nst) => {
                cst = nst;
            },
            Err(e) => {
                proof {
                    lemma_files_upto_err(fv, i + 1 as int, fv.len() as int);
                }
                return Err(e);
            },
        }
        file_paths.push(p);
        i += 1;
    }
    let ghost endv = cst@;
    let ScanState { cur: _, modules, data_sources, resources, lines_total } = cst;
    let m = Module { path, files: file_paths, lines_total, modules, data_sources, resources };
    proof {
        assert(m@.files =~= fv.map_values(|f: (Seq<u8>, Seq<Seq<u8>>)| f.0));
        assert(m@ =~= scan_spec(m@.path, fv)->Ok_0);
        assert(module_wf(m@));
    }
    Ok(m)
}

} // verus!
