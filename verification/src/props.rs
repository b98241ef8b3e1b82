//! Decoder for the tagged property streams stored in object blobs: each
//! entry is a name index, a type index, a 64-bit size and a value whose
//! layout depends on the type; struct values nest another stream.

use vstd::prelude::*;
use vstd::string::StringExecFns;
use crate::bytes::{in_range, le_i32, le_i64, read_i32_at, read_i64_at};
use crate::save::{spec_name, Save};
use crate::text::str_eq;

verus! {

/// A decoded property: its dotted path, its type, and the offset of its
/// value in the decoded blob.
#[derive(Clone)]
pub struct Prop {
    pub path: String,
    pub ptype: String,
    pub voff: usize,
}

/// Mathematical model of a [`Prop`].
pub struct PropModel {
    pub path: Seq<char>,
    pub ptype: Seq<char>,
    pub voff: usize,
}

impl View for Prop {
    type V = PropModel;

    open spec fn view(&self) -> PropModel {
        PropModel { path: self.path@, ptype: self.ptype@, voff: self.voff }
    }
}

/// The models of a sequence of properties.
pub open spec fn props_view(v: Seq<Prop>) -> Seq<PropModel> {
    v.map_values(|p: Prop| p@)
}

/// Number of `f32` in the struct types that are stored as plain floats.
pub open spec fn spec_native_floats(stype: Seq<char>) -> Option<usize> {
    if stype == "Quat"@ {
        Some(4)
    } else if stype == "Vector"@ {
        Some(3)
    } else if stype == "Rotator"@ {
        Some(3)
    } else if stype == "Vector2D"@ {
        Some(2)
    } else if stype == "LinearColor"@ {
        Some(4)
    } else {
        None
    }
}

/// Property types whose value is a one-byte tag followed by four bytes.
pub open spec fn is_four_byte_type(ptype: Seq<char>) -> bool {
    ptype == "IntProperty"@ || ptype == "UInt32Property"@ || ptype == "FloatProperty"@ || ptype
        == "NameProperty"@
}

/// Where the value of type `ptype` and declared `size` that starts at `v`
/// ends.
pub open spec fn value_end(v: int, size: usize, ptype: Seq<char>) -> int {
    if ptype == "StructProperty"@ {
        v + 21 + size
    } else if ptype == "BoolProperty"@ {
        v + 2
    } else if ptype == "EnumProperty"@ {
        v + 9
    } else if ptype == "ByteProperty"@ {
        v + 5 + if size == 1 {
            1int
        } else {
            4int
        }
    } else if is_four_byte_type(ptype) {
        v + 5
    } else if ptype == "ObjectProperty"@ {
        v + 1 + size
    } else if ptype == "ArrayProperty"@ {
        v + 5 + size
    } else {
        v + 1 + size
    }
}

/// Offset recorded for a (non-struct) value of type `ptype` starting at `v`.
pub open spec fn value_voff(v: int, ptype: Seq<char>) -> int {
    if ptype == "BoolProperty"@ {
        v
    } else if ptype == "EnumProperty"@ {
        v + 5
    } else if ptype == "ByteProperty"@ {
        v + 5
    } else if is_four_byte_type(ptype) {
        v + 1
    } else if ptype == "ObjectProperty"@ {
        v + 1
    } else if ptype == "ArrayProperty"@ {
        v + 5
    } else {
        v + 1
    }
}

/// The properties recorded for the value of type `ptype` and size `size`
/// at `v` of blob `b`, named `path`; `None` where decoding fails (a read
/// past the blob, a name index of `i32::MIN`, or a struct's end past
/// `usize::MAX`).
pub open spec fn value_props(
    b: Seq<u8>,
    v: int,
    size: usize,
    ptype: Seq<char>,
    path: Seq<char>,
    names: Seq<Seq<char>>,
) -> Option<Seq<PropModel>>
    decreases usize::MAX - v,
{
    if ptype == "StructProperty"@ {
        if v + 21 + size > usize::MAX || !in_range(b, v, 4) || le_i32(b, v) == i32::MIN {
            None
        } else {
            let stype = spec_name(names, le_i32(b, v));
            if spec_native_floats(stype) is Some {
                Some(seq![PropModel { path, ptype: "Struct:"@ + stype, voff: (v + 21) as usize }])
            } else {
                spec_stream(b, v + 21, v + 21 + size, path + "."@, names)
            }
        }
    } else {
        Some(seq![PropModel { path, ptype, voff: value_voff(v, ptype) as usize }])
    }
}

/// The properties of the stream from `p` to `limit` in blob `b`, each path
/// prefixed by `prefix`. The stream ends at a name that reads "None", or
/// where no further name or type index fits before `limit`.
pub open spec fn spec_stream(
    b: Seq<u8>,
    p: int,
    limit: int,
    prefix: Seq<char>,
    names: Seq<Seq<char>>,
) -> Option<Seq<PropModel>>
    decreases usize::MAX - p,
{
    if p + 4 > usize::MAX {
        None
    } else if p + 4 > limit {
        Some(Seq::empty())
    } else if !in_range(b, p, 4) || le_i32(b, p) == i32::MIN {
        None
    } else {
        let pname = spec_name(names, le_i32(b, p));
        if pname == "None"@ {
            Some(Seq::empty())
        } else if p + 8 > usize::MAX {
            None
        } else if p + 8 > limit {
            Some(Seq::empty())
        } else if !in_range(b, p + 4, 12) || p + 16 > usize::MAX || le_i32(b, p + 4) == i32::MIN {
            None
        } else {
            let ptype = spec_name(names, le_i32(b, p + 4));
            let size = le_i64(b, p + 8) as usize;
            let q = value_end(p + 16, size, ptype);
            if q > usize::MAX {
                None
            } else {
                match value_props(b, p + 16, size, ptype, prefix + pname, names) {
                    None => None,
                    Some(here) => match spec_stream(b, q, limit, prefix, names) {
                        None => None,
                        Some(rest) => Some(here + rest),
                    },
                }
            }
        }
    }
}

/// The properties of a whole blob.
pub open spec fn spec_decode(b: Seq<u8>, names: Seq<Seq<char>>) -> Option<Seq<PropModel>> {
    spec_stream(b, 0, b.len() as int, Seq::empty(), names)
}

/// The end position and the properties of the value at `v` (see
/// [`value_props`]); `None` also where the end lies past `usize::MAX`.
pub open spec fn spec_value(
    b: Seq<u8>,
    v: int,
    size: usize,
    ptype: Seq<char>,
    path: Seq<char>,
    names: Seq<Seq<char>>,
) -> Option<(int, Seq<PropModel>)> {
    if value_end(v, size, ptype) > usize::MAX {
        None
    } else {
        match value_props(b, v, size, ptype, path, names) {
            Some(here) => Some((value_end(v, size, ptype), here)),
            None => None,
        }
    }
}

/// A struct value that is not stored as plain floats nests a stream: its
/// properties are those of the body, each path prefixed by the struct's
/// path and '.', no entry is made for the struct itself, and the next
/// value starts right after the declared size, however far the body was
/// read.
pub proof fn lemma_struct_value_nests(
    b: Seq<u8>,
    v: int,
    size: usize,
    path: Seq<char>,
    names: Seq<Seq<char>>,
)
    requires
        in_range(b, v, 4),
        le_i32(b, v) != i32::MIN,
        spec_native_floats(spec_name(names, le_i32(b, v))) is None,
        v + 21 + size <= usize::MAX,
    ensures
        spec_value(b, v, size, "StructProperty"@, path, names) == match spec_stream(
            b,
            v + 21,
            v + 21 + size,
            path + "."@,
            names,
        ) {
            Some(ps) => Some((v + 21 + size, ps)),
            None => None,
        },
{
}

/// A struct stored as plain floats (a quaternion, vector, rotator, 2D
/// vector or linear colour) gives one property, typed "Struct:" and the
/// struct's name, whose value starts after the 4-byte struct name, the
/// 16-byte guid and the flag byte; the next value starts `size` bytes
/// later.
pub proof fn lemma_struct_value_native(
    b: Seq<u8>,
    v: int,
    size: usize,
    path: Seq<char>,
    names: Seq<Seq<char>>,
)
    requires
        in_range(b, v, 4),
        le_i32(b, v) != i32::MIN,
        ({
            let st = spec_name(names, le_i32(b, v));
            st == "Quat"@ || st == "Vector"@ || st == "Rotator"@ || st == "Vector2D"@ || st == "LinearColor"@
        }),
        v + 21 + size <= usize::MAX,
    ensures
        spec_value(b, v, size, "StructProperty"@, path, names) == Some(
            (
                v + 21 + size,
                seq![PropModel { path, ptype: "Struct:"@ + spec_name(names, le_i32(b, v)), voff: (v + 21) as usize }],
            ),
        ),
{
}

/// Where each kind of value keeps its data and where the next property
/// starts, for a value at `v` of declared size `size`: a bool's byte is at
/// `v` and the next property at `v + 2`; an enum or byte value follows a
/// 4-byte type name and a flag byte; the four-byte kinds follow a flag
/// byte; an object reference follows a flag byte and spans `size` bytes;
/// an array's data follows its 4-byte inner type and a flag byte and spans
/// `size` bytes. Each gives exactly one property, at that offset.
pub proof fn lemma_value_layout(
    b: Seq<u8>,
    v: int,
    size: usize,
    path: Seq<char>,
    names: Seq<Seq<char>>,
)
    requires
        0 <= v,
    ensures
        v + 2 <= usize::MAX ==> spec_value(b, v, size, "BoolProperty"@, path, names) == Some(
            (v + 2, seq![PropModel { path, ptype: "BoolProperty"@, voff: (v) as usize }]),
        ),
        v + 9 <= usize::MAX ==> spec_value(b, v, size, "EnumProperty"@, path, names) == Some(
            (v + 9, seq![PropModel { path, ptype: "EnumProperty"@, voff: (v + 5) as usize }]),
        ),
        v + 9 <= usize::MAX ==> spec_value(b, v, size, "ByteProperty"@, path, names) == Some(
            (v + 5 + if size == 1 { 1int } else { 4int }, seq![PropModel { path, ptype: "ByteProperty"@, voff: (v + 5) as usize }]),
        ),
        v + 5 <= usize::MAX ==> spec_value(b, v, size, "IntProperty"@, path, names) == Some(
            (v + 5, seq![PropModel { path, ptype: "IntProperty"@, voff: (v + 1) as usize }]),
        ),
        v + 5 <= usize::MAX ==> spec_value(b, v, size, "UInt32Property"@, path, names) == Some(
            (v + 5, seq![PropModel { path, ptype: "UInt32Property"@, voff: (v + 1) as usize }]),
        ),
        v + 5 <= usize::MAX ==> spec_value(b, v, size, "FloatProperty"@, path, names) == Some(
            (v + 5, seq![PropModel { path, ptype: "FloatProperty"@, voff: (v + 1) as usize }]),
        ),
        v + 5 <= usize::MAX ==> spec_value(b, v, size, "NameProperty"@, path, names) == Some(
            (v + 5, seq![PropModel { path, ptype: "NameProperty"@, voff: (v + 1) as usize }]),
        ),
        v + 1 + size <= usize::MAX ==> spec_value(b, v, size, "ObjectProperty"@, path, names) == Some(
            (v + 1 + size, seq![PropModel { path, ptype: "ObjectProperty"@, voff: (v + 1) as usize }]),
        ),
        v + 5 + size <= usize::MAX ==> spec_value(b, v, size, "ArrayProperty"@, path, names) == Some(
            (v + 5 + size, seq![PropModel { path, ptype: "ArrayProperty"@, voff: (v + 5) as usize }]),
        ),
{
    reveal_strlit("StructProperty");
    reveal_strlit("BoolProperty");
    reveal_strlit("EnumProperty");
    reveal_strlit("ByteProperty");
    reveal_strlit("IntProperty");
    reveal_strlit("UInt32Property");
    reveal_strlit("FloatProperty");
    reveal_strlit("NameProperty");
    reveal_strlit("ObjectProperty");
    reveal_strlit("ArrayProperty");
    // the type names differ in their first two characters
    assert("StructProperty"@[0] == 'S' && "StructProperty"@[1] == 't');
    assert("BoolProperty"@[0] == 'B' && "BoolProperty"@[1] == 'o');
    assert("EnumProperty"@[0] == 'E' && "EnumProperty"@[1] == 'n');
    assert("ByteProperty"@[0] == 'B' && "ByteProperty"@[1] == 'y');
    assert("IntProperty"@[0] == 'I' && "IntProperty"@[1] == 'n');
    assert("UInt32Property"@[0] == 'U' && "UInt32Property"@[1] == 'I');
    assert("FloatProperty"@[0] == 'F' && "FloatProperty"@[1] == 'l');
    assert("NameProperty"@[0] == 'N' && "NameProperty"@[1] == 'a');
    assert("ObjectProperty"@[0] == 'O' && "ObjectProperty"@[1] == 'b');
    assert("ArrayProperty"@[0] == 'A' && "ArrayProperty"@[1] == 'r');
}

/// `acc` followed by the properties of `o`, if `o` holds any.
pub open spec fn prepend(acc: Seq<PropModel>, o: Option<Seq<PropModel>>) -> Option<Seq<PropModel>> {
    match o {
        Some(x) => Some(acc + x),
        None => None,
    }
}

/// Number of floats in a struct stored as plain floats (see
/// [`spec_native_floats`]).
pub fn native_floats(stype: &str) -> (r: Option<usize>)
    ensures
        r == spec_native_floats(stype@),
{
    if str_eq(stype, "Quat") {
        Some(4)
    } else if str_eq(stype, "Vector") {
        Some(3)
    } else if str_eq(stype, "Rotator") {
        Some(3)
    } else if str_eq(stype, "Vector2D") {
        Some(2)
    } else if str_eq(stype, "LinearColor") {
        Some(4)
    } else {
        None
    }
}

fn push_prop(out: &mut Vec<Prop>, path: &str, ptype: &str, voff: usize)
    ensures
        props_view(final(out)@) == props_view(old(out)@) + seq![
            PropModel { path: path@, ptype: ptype@, voff },
        ],
{
    let prop = Prop { path: String::from_str(path), ptype: String::from_str(ptype), voff };
    out.push(prop);
    assert(props_view(out@) =~= props_view(old(out)@) + seq![
        PropModel { path: path@, ptype: ptype@, voff },
    ]);
}

/// Decodes the value of type `ptype` at `p`, appending its properties to
/// `out`, and returns where it ends.
pub fn value(
    b: &[u8],
    p: usize,
    size: usize,
    ptype: &str,
    path: &str,
    save: &Save,
    out: &mut Vec<Prop>,
) -> (r: Option<usize>)
    ensures
        match spec_value(b@, p as int, size, ptype@, path@, save@.strings) {
            Some((q, here)) => r == Some(q as usize) && props_view(final(out)@) == props_view(
                old(out)@,
            ) + here,
            None => r is None,
        },
    decreases usize::MAX - p, 0int,
{
    if str_eq(ptype, "StructProperty") {
        if p > usize::MAX - 21 || size > usize::MAX - 21 - p {
            return None;
        }
        if p > b.len() || b.len() - p < 4 {
            return None;
        }
        let sidx = read_i32_at(b, p);
        if sidx == i32::MIN {
            return None;
        }
        let stype = save.name(sidx);
        let body = p + 21;
        if native_floats(stype.as_str()).is_some() {
            let mut t = String::from_str("Struct:");
            t.append(stype.as_str());
            push_prop(out, path, t.as_str(), body);
        } else {
            let mut pre = String::from_str(path);
            pre.append(".");
            if !stream(b, body, body + size, pre.as_str(), save, out) {
                return None;
            }
        }
        Some(body + size)
    } else if str_eq(ptype, "BoolProperty") {
        if p > usize::MAX - 2 {
            return None;
        }
        push_prop(out, path, ptype, p);
        Some(p + 2)
    } else if str_eq(ptype, "EnumProperty") {
        if p > usize::MAX - 9 {
            return None;
        }
        push_prop(out, path, ptype, p + 5);
        Some(p + 9)
    } else if str_eq(ptype, "ByteProperty") {
        let tail: usize = if size == 1 {
            1
        } else {
            4
        };
        if p > usize::MAX - 5 - tail {
            return None;
        }
        push_prop(out, path, ptype, p + 5);
        Some(p + 5 + tail)
    } else if str_eq(ptype, "IntProperty") || str_eq(ptype, "UInt32Property") || str_eq(
        ptype,
        "FloatProperty",
    ) || str_eq(ptype, "NameProperty") {
        if p > usize::MAX - 5 {
            return None;
        }
        push_prop(out, path, ptype, p + 1);
        Some(p + 5)
    } else if str_eq(ptype, "ObjectProperty") {
        if p > usize::MAX - 1 || size > usize::MAX - 1 - p {
            return None;
        }
        push_prop(out, path, ptype, p + 1);
        Some(p + 1 + size)
    } else if str_eq(ptype, "ArrayProperty") {
        if p > usize::MAX - 5 || size > usize::MAX - 5 - p {
            return None;
        }
        push_prop(out, path, ptype, p + 5);
        Some(p + 5 + size)
    } else {
        if p > usize::MAX - 1 || size > usize::MAX - 1 - p {
            return None;
        }
        push_prop(out, path, ptype, p + 1);
        Some(p + 1 + size)
    }
}

/// Decodes the property stream from `p` to `limit`, appending each
/// property, with its path prefixed by `prefix`, to `out`. Returns whether
/// decoding succeeded.
fn stream(
    b: &[u8],
    start: usize,
    limit: usize,
    prefix: &str,
    save: &Save,
    out: &mut Vec<Prop>,
) -> (ok: bool)
    ensures
        match spec_stream(b@, start as int, limit as int, prefix@, save@.strings) {
            Some(ps) => ok && props_view(final(out)@) == props_view(old(out)@) + ps,
            None => !ok,
        },
    decreases usize::MAX - start, 1int,
{
    let ghost names = save@.strings;
    let ghost mut acc: Seq<PropModel> = Seq::empty();
    let mut p = start;
    assert(props_view(out@) =~= props_view(old(out)@) + acc);
    assert(prepend(acc, spec_stream(b@, p as int, limit as int, prefix@, names)) =~= spec_stream(
        b@,
        start as int,
        limit as int,
        prefix@,
        names,
    )) by {
        if let Some(x) = spec_stream(b@, p as int, limit as int, prefix@, names) {
            assert(acc + x =~= x);
        }
    }
    loop
        invariant
            start <= p,
            names == save@.strings,
            props_view(out@) == props_view(old(out)@) + acc,
            spec_stream(b@, start as int, limit as int, prefix@, names) == prepend(
                acc,
                spec_stream(b@, p as int, limit as int, prefix@, names),
            ),
        decreases usize::MAX - p,
    {
        if p > usize::MAX - 4 {
            return false;
        }
        if p + 4 > limit {
            assert(acc + Seq::<PropModel>::empty() =~= acc);
            return true;
        }
        if p > b.len() || b.len() - p < 4 {
            return false;
        }
        let nidx = read_i32_at(b, p);
        if nidx == i32::MIN {
            return false;
        }
        let pname = save.name(nidx);
        if str_eq(pname.as_str(), "None") {
            assert(acc + Seq::<PropModel>::empty() =~= acc);
            return true;
        }
        if p > usize::MAX - 8 {
            return false;
        }
        if p + 8 > limit {
            assert(acc + Seq::<PropModel>::empty() =~= acc);
            return true;
        }
        if b.len() - p < 16 {
            return false;
        }
        let tidx = read_i32_at(b, p + 4);
        if tidx == i32::MIN {
            return false;
        }
        let ptype = save.name(tidx);
        #[verifier::truncate]
        let size = (read_i64_at(b, p + 8) as usize);
        let mut full = String::from_str(prefix);
        full.append(pname.as_str());
        let ghost here = value_props(b@, (p + 16) as int, size, ptype@, full@, names);
        match value(b, p + 16, size, ptype.as_str(), full.as_str(), save, out) {
            Some(q) => {
                proof {
                    let h = here.unwrap();
                    assert(props_view(out@) =~= props_view(old(out)@) + (acc + h));
                    if let Some(x) = spec_stream(b@, q as int, limit as int, prefix@, names) {
                        assert(acc + (h + x) =~= (acc + h) + x);
                    }
                    acc = acc + h;
                }
                p = q;
            },
            None => {
                return false;
            },
        }
    }
}

/// Decodes the property stream of a whole blob; `None` exactly where
/// [`spec_decode`] is.
pub fn try_decode_props(blob: &[u8], save: &Save) -> (r: Option<Vec<Prop>>)
    ensures
        match spec_decode(blob@, save@.strings) {
            Some(ps) => r matches Some(v) && props_view(v@) == ps,
            None => r is None,
        },
{
    let mut out: Vec<Prop> = Vec::new();
    assert(props_view(out@) =~= Seq::<PropModel>::empty());
    proof {
        reveal_strlit("");
    }
    assert(""@ =~= Seq::<char>::empty());
    if stream(blob, 0, blob.len(), "", save, &mut out) {
        proof {
            let ps = spec_decode(blob@, save@.strings).unwrap();
            assert(Seq::<PropModel>::empty() + ps =~= ps);
        }
        Some(out)
    } else {
        None
    }
}

/// Decodes the property stream of a whole blob.
pub fn decode_props(blob: &[u8], save: &Save) -> (props: Vec<Prop>)
    requires
        spec_decode(blob@, save@.strings) is Some,
    ensures
        props_view(props@) == spec_decode(blob@, save@.strings).unwrap(),
{
    match try_decode_props(blob, save) {
        Some(v) => v,
        None => Vec::new(),
    }
}

/// Offset of the first property in `props` whose path is `path`.
pub open spec fn spec_find_voff(props: Seq<PropModel>, path: Seq<char>) -> Option<usize>
    decreases props.len(),
{
    if props.len() == 0 {
        None
    } else if props[0].path == path {
        Some(props[0].voff)
    } else {
        spec_find_voff(props.drop_first(), path)
    }
}

/// Offset of the first property whose path is `path`.
pub fn find_voff(props: &[Prop], path: &str) -> (r: Option<usize>)
    ensures
        r == spec_find_voff(props_view(props@), path@),
{
    let ghost all = props_view(props@);
    let mut k: usize = 0;
    assert(all.skip(0) =~= all);
    while k < props.len()
        invariant
            k <= props@.len(),
            all == props_view(props@),
            spec_find_voff(all, path@) == spec_find_voff(all.skip(k as int), path@),
        decreases props.len() - k,
    {
        assert(all.skip(k as int)[0] == props@[k as int]@);
        if str_eq(props[k].path.as_str(), path) {
            return Some(props[k].voff);
        }
        assert(all.skip(k as int).drop_first() =~= all.skip(k + 1));
        k += 1;
    }
    assert(all.skip(k as int) =~= Seq::<PropModel>::empty());
    None
}

} // verus!
