//! Deployed-resource addresses: one line of the deployed-state listing,
//! `.`-delimited, with an optional chain of `module.<name>` prefixes, an
//! optional `data` marker, then type and name, the name possibly carrying a
//! bracketed instance index that is stripped before lookup.

use vstd::prelude::*;
use crate::catalog::bytes_eq;
use crate::scan::{find_byte, find_byte_exec, sub_vec, copy_bytes, lines_view, lemma_find_byte_props};

verus! {

/// A structured deployed-resource address.
pub struct Address {
    pub modules: Vec<Vec<u8>>,
    pub is_data: bool,
    pub typ: Vec<u8>,
    pub name: Vec<u8>,
}

/// Mathematical image of an `Address`.
#[verifier::ext_equal]
pub ghost struct AddressV {
    pub modules: Seq<Seq<u8>>,
    pub is_data: bool,
    pub typ: Seq<u8>,
    pub name: Seq<u8>,
}

impl View for Address {
    type V = AddressV;

    open spec fn view(&self) -> AddressV {
        AddressV {
            modules: lines_view(self.modules@),
            is_data: self.is_data,
            typ: self.typ@,
            name: self.name@,
        }
    }
}

/// The `.`-separated segments of `s` starting at `from`; the final segment
/// runs to the end of the line.
pub open spec fn split_dots_from(s: Seq<u8>, from: int) -> Seq<Seq<u8>>
    decreases s.len() - from,
        via split_dots_from_dec
{
    let d = find_byte(s, from, 46);
    if d < 0 {
        seq![s.subrange(if 0 <= from <= s.len() { from } else { 0 }, s.len() as int)]
    } else {
        seq![s.subrange(from, d)] + split_dots_from(s, d + 1)
    }
}

#[via_fn]
proof fn split_dots_from_dec(s: Seq<u8>, from: int) {
    if 0 <= from {
        lemma_find_byte_props(s, from, 46);
    }
}

pub open spec fn split_dots(s: Seq<u8>) -> Seq<Seq<u8>> {
    split_dots_from(s, 0)
}

pub open spec fn seg_module() -> Seq<u8> {
    seq![109u8, 111, 100, 117, 108, 101]  // "module"
}

pub open spec fn seg_data() -> Seq<u8> {
    seq![100u8, 97, 116, 97]  // "data"
}

/// The declared name of a possibly-indexed instance: everything before the
/// first `[`, so that all instances collapse to one declaration key.
pub open spec fn strip_index(n: Seq<u8>) -> Seq<u8> {
    let k = find_byte(n, 0, 91);
    if k < 0 {
        n
    } else {
        n.subrange(0, k)
    }
}

/// The address grammar over the dot-separated segments, from position `i`:
/// a repeated `module.<name>` prefix, then either `data.<type>.<name>` or
/// `<type>.<name>`, consuming every segment.
pub open spec fn parse_segs(segs: Seq<Seq<u8>>, i: int) -> Option<AddressV>
    decreases segs.len() - i,
{
    if i < 0 || i > segs.len() {
        None
    } else if segs.len() - i >= 2 && segs[i] == seg_module() {
        match parse_segs(segs, i + 2) {
            Option::None => None,
            Option::Some(a) => Some(AddressV { modules: seq![segs[i + 1]] + a.modules, ..a }),
        }
    } else if segs.len() - i > 0 && segs[i] == seg_data() {
        if segs.len() - i == 3 {
            Some(
                AddressV {
                    modules: Seq::empty(),
                    is_data: true,
                    typ: segs[i + 1],
                    name: strip_index(segs[i + 2]),
                },
            )
        } else {
            None
        }
    } else if segs.len() - i == 2 {
        Some(
            AddressV {
                modules: Seq::empty(),
                is_data: false,
                typ: segs[i],
                name: strip_index(segs[i + 1]),
            },
        )
    } else {
        None
    }
}

/// What one line of the deployed-state listing means, if anything.
pub open spec fn parse_address_spec(s: Seq<u8>) -> Option<AddressV> {
    parse_segs(split_dots(s), 0)
}

fn seg_module_vec() -> (v: Vec<u8>)
    ensures
        v@ == seg_module(),
{
    let mut v: Vec<u8> = Vec::new();
    v.push(109);
    v.push(111);
    v.push(100);
    v.push(117);
    v.push(108);
    v.push(101);
    proof {
        assert(v@ =~= seg_module());
    }
    v
}

fn seg_data_vec() -> (v: Vec<u8>)
    ensures
        v@ == seg_data(),
{
    let mut v: Vec<u8> = Vec::new();
    v.push(100);
    v.push(97);
    v.push(116);
    v.push(97);
    proof {
        assert(v@ =~= seg_data());
    }
    v
}

/// Splits a line into its `.`-separated segments.
pub fn split_dots_exec(s: &Vec<u8>) -> (r: Vec<Vec<u8>>)
    ensures
        lines_view(r@) == split_dots(s@),
{
    let mut r: Vec<Vec<u8>> = Vec::new();
    let mut pos: usize = 0;
    loop
        invariant_except_break
            pos <= s@.len(),
            split_dots(s@) == lines_view(r@) + split_dots_from(s@, pos as int),
        ensures
            lines_view(r@) == split_dots(s@),
        decreases s@.len() - pos,
    {
        let ghost r0 = r@;
        match find_byte_exec(s, pos, 46) {
            Some(d) => {
                let end = s.len();
                assert(d < end);
                r.push(sub_vec(s, pos, d));
                proof {
                    assert(lines_view(r@) =~= lines_view(r0) + seq![s@.subrange(pos as int, d as int)]);
                    assert(lines_view(r@) + split_dots_from(s@, d + 1 as int) =~= lines_view(r0)
                        + split_dots_from(s@, pos as int));
                }
                pos = d + 1;
            },
            None => {
                r.push(sub_vec(s, pos, s.len()));
                proof {
                    assert(lines_view(r@) =~= lines_view(r0) + seq![
                        s@.subrange(pos as int, s@.len() as int),
                    ]);
                    assert(lines_view(r@) =~= split_dots(s@));
                }
                break;
            },
        }
    }
    r
}

/// Strips a bracketed instance index from a name segment.
pub fn strip_index_exec(n: &Vec<u8>) -> (r: Vec<u8>)
    ensures
        r@ == strip_index(n@),
{
    match find_byte_exec(n, 0, 91) {
        Some(k) => sub_vec(n, 0, k),
        None => copy_bytes(n),
    }
}

fn parse_segs_exec(segs: &Vec<Vec<u8>>, i: usize) -> (r: Option<Address>)
    requires
        i <= segs@.len(),
    ensures
        match r {
            Some(a) => parse_segs(lines_view(segs@), i as int) == Some(a@),
            None => parse_segs(lines_view(segs@), i as int) is None,
        },
    decreases segs@.len() - i,
{
    let n = segs.len();
    let segmod = seg_module_vec();
    let segdat = seg_data_vec();
    if n - i >= 2 && bytes_eq(&segs[i], &segmod) {
        match parse_segs_exec(segs, i + 2) {
            None => None,
            Some(a) => {
                let Address { mut modules, is_data, typ, name } = a;
                let ghost m0 = modules@;
                modules.insert(0, copy_bytes(&segs[i + 1]));
                proof {
                    assert(lines_view(modules@) =~= seq![lines_view(segs@)[i + 1 as int]]
                        + lines_view(m0));
                }
                let out = Address { modules, is_data, typ, name };
                proof {
                    assert(parse_segs(lines_view(segs@), i as int) == Some(out@));
                }
                Some(out)
            },
        }
    } else if n - i > 0 && bytes_eq(&segs[i], &segdat) {
        if n - i == 3 {
            let out = Address {
                modules: Vec::new(),
                is_data: true,
                typ: copy_bytes(&segs[i + 1]),
                name: strip_index_exec(&segs[i + 2]),
            };
            proof {
                assert(lines_view(out.modules@) =~= Seq::<Seq<u8>>::empty());
                assert(parse_segs(lines_view(segs@), i as int) == Some(out@));
            }
            Some(out)
        } else {
            None
        }
    } else if n - i == 2 {
        let out = Address {
            modules: Vec::new(),
            is_data: false,
            typ: copy_bytes(&segs[i]),
            name: strip_index_exec(&segs[i + 1]),
        };
        proof {
            assert(lines_view(out.modules@) =~= Seq::<Seq<u8>>::empty());
            assert(parse_segs(lines_view(segs@), i as int) == Some(out@));
        }
        Some(out)
    } else {
        None
    }
}

/// Parses one line of the deployed-state listing into a structured address;
/// `None` when the line does not fit the address grammar.
pub fn parse_address(line: &Vec<u8>) -> (r: Option<Address>)
    ensures
        match r {
            Some(a) => parse_address_spec(line@) == Some(a@),
            None => parse_address_spec(line@) is None,
        },
{
    let segs = split_dots_exec(line);
    parse_segs_exec(&segs, 0)
}

} // verus!

verus! {

/// All instances of a multi-instance declaration collapse to one catalog
/// key: a bracketed index appended to a plain declared name strips back to
/// exactly that name.
pub proof fn lemma_strip_index_collapse(base: Seq<u8>, idx: Seq<u8>)
    requires
        find_byte(base, 0, 91) == -1,
    ensures
        strip_index(base + seq![91u8] + idx) == base,
{
    let cat = base + seq![91u8] + idx;
    lemma_find_byte_props(base, 0, 91);
    lemma_find_byte_props(cat, 0, 91);
    let r = find_byte(cat, 0, 91);
    assert(cat[base.len() as int] == 91);
    if r == -1 {
        assert(cat[base.len() as int] != 91);
    }
    assert(0 <= r < cat.len() && cat[r] == 91);
    if r < base.len() {
        assert(cat[r] == base[r]);
        assert(base[r] != 91);
    }
    if r > base.len() {
        assert(cat[base.len() as int] != 91);
    }
    assert(r == base.len());
    assert(cat.subrange(0, r) =~= base);
}

} // verus!
