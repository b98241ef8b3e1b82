//! The decoded save: string table, object records and actor records, and
//! the parser that reads them out of the decompressed level data.

use std::collections::HashMap;
use vstd::prelude::*;
use vstd::string::StringExecFns;
use crate::text::{clean, str_eq, trim_nul};
use crate::bytes::{in_range, le_i32, le_i64, le_u32, str_at, str_end, str_ok, Cur};

verus! {

broadcast use vstd::std_specs::hash::group_hash_axioms;

/// One object record of the level.
pub struct ObjRec {
    pub object_type: String,
    pub name_index: i32,
    /// Absolute offset of the object's property blob in the decompressed data.
    pub data_off: usize,
    pub data_len: usize,
    pub custom_off: usize,
    pub custom_len: usize,
}

/// Mathematical model of an [`ObjRec`].
pub struct ObjModel {
    pub object_type: Seq<char>,
    pub name_index: i32,
    pub data_off: usize,
    pub data_len: usize,
    pub custom_off: usize,
    pub custom_len: usize,
}

impl View for ObjRec {
    type V = ObjModel;

    open spec fn view(&self) -> ObjModel {
        ObjModel {
            object_type: self.object_type@,
            name_index: self.name_index,
            data_off: self.data_off,
            data_len: self.data_len,
            custom_off: self.custom_off,
            custom_len: self.custom_len,
        }
    }
}

/// One actor record: the object it belongs to, its components as
/// `(name index, object index)` pairs, and where its transform lies.
pub struct ActorRec {
    pub object_index: i32,
    pub components: Vec<(i32, i32)>,
    /// Offset of the rotation (four `f32`).
    pub rot_off: usize,
    /// Offset of the translation (three `f32`).
    pub trans_off: usize,
}

/// Mathematical model of an [`ActorRec`].
pub struct ActorModel {
    pub object_index: i32,
    pub components: Seq<(i32, i32)>,
    pub rot_off: usize,
    pub trans_off: usize,
}

impl View for ActorRec {
    type V = ActorModel;

    open spec fn view(&self) -> ActorModel {
        ActorModel {
            object_index: self.object_index,
            components: self.components@,
            rot_off: self.rot_off,
            trans_off: self.trans_off,
        }
    }
}

/// A decoded save.
pub struct Save {
    /// The 16-byte outer header.
    pub header: Vec<u8>,
    /// The decompressed level data.
    pub raw: Vec<u8>,
    pub strings: Vec<String>,
    pub objects: Vec<ObjRec>,
    pub actors: Vec<ActorRec>,
    /// Actor index by object index.
    pub abo: HashMap<i32, usize>,
    /// Object index of the host's pawn, when the save names one.
    pub host_pawn: Option<i32>,
}

/// Mathematical model of a [`Save`].
pub struct SaveModel {
    pub header: Seq<u8>,
    pub raw: Seq<u8>,
    pub strings: Seq<Seq<char>>,
    pub objects: Seq<ObjModel>,
    pub actors: Seq<ActorModel>,
    pub abo: Map<i32, usize>,
    pub host_pawn: Option<i32>,
}

impl View for Save {
    type V = SaveModel;

    open spec fn view(&self) -> SaveModel {
        SaveModel {
            header: self.header@,
            raw: self.raw@,
            strings: self.strings@.map_values(|s: String| s@),
            objects: self.objects@.map_values(|o: ObjRec| o@),
            actors: self.actors@.map_values(|a: ActorRec| a@),
            abo: self.abo@,
            host_pawn: self.host_pawn,
        }
    }
}

/// What the level data holds, as far as the decoder reads it.
pub struct Contents {
    pub strings: Seq<Seq<char>>,
    pub objects: Seq<ObjModel>,
    pub actors: Seq<ActorModel>,
    pub host_pawn: Option<i32>,
}

/// Position after the save-game header, the level prefix and the chunk
/// version: everything before the string table.
pub open spec fn spec_preamble(s: Seq<u8>) -> Option<int> {
    // format tag, save-game version, package version, engine version
    // (three u16), engine build
    if !in_range(s, 0, 22) || !str_ok(s, 22) {
        None
    } else {
        // build id, then custom-format version and entry count
        let p1 = str_end(s, 22);
        if !in_range(s, p1, 8) {
            None
        } else {
            // each custom-format entry: a 16-byte guid and an i32
            let n = le_u32(s, p1 + 4) as int;
            let p2 = p1 + 8 + 20 * n;
            if !in_range(s, p1 + 8, 20 * n) || !str_ok(s, p2) {
                None
            } else {
                // save class, end-of-header string
                let p3 = str_end(s, p2);
                if !str_ok(s, p3) {
                    None
                } else {
                    // end-of-header i32, astro save version u32, pad u8
                    let p4 = str_end(s, p3);
                    if !in_range(s, p4, 9) || !str_ok(s, p4 + 9) {
                        None
                    } else {
                        // level name, pad u32, chunk version u32
                        let p5 = str_end(s, p4 + 9);
                        if !in_range(s, p5, 8) {
                            None
                        } else {
                            Some(p5 + 8)
                        }
                    }
                }
            }
        }
    }
}

/// The first `n` length-prefixed strings from `p` on, and the position
/// after them.
pub open spec fn spec_strings(s: Seq<u8>, p: int, n: nat) -> Option<(Seq<Seq<char>>, int)>
    decreases n,
{
    if n == 0 {
        Some((Seq::empty(), p))
    } else {
        match spec_strings(s, p, (n - 1) as nat) {
            Some((v, q)) => if str_ok(s, q) {
                Some((v.push(str_at(s, q)), str_end(s, q)))
            } else {
                None
            },
            None => None,
        }
    }
}

/// The object record at `p`, and the position after it.
pub open spec fn spec_object(s: Seq<u8>, p: int) -> Option<(ObjModel, int)> {
    if !str_ok(s, p) {
        None
    } else {
        // name index i32, flags u32, save flags u8, outer index i32, data size u32
        let q = str_end(s, p);
        if !in_range(s, q, 17) {
            None
        } else {
            let save_flags = s[q + 8];
            let cdo = le_u32(s, q + 13) as int;
            let has_size = save_flags & 4 != 0;
            if has_size && !in_range(s, q + 17, 4) {
                None
            } else {
                let size: int = if has_size {
                    le_u32(s, q + 17) as int
                } else {
                    0
                };
                let data_off = if has_size {
                    q + 21
                } else {
                    q + 17
                };
                let custom_off = data_off + cdo;
                let custom_len = if size != 0 {
                    size - cdo
                } else {
                    0
                };
                if !in_range(s, data_off, cdo) || custom_len < 0 || !in_range(
                    s,
                    custom_off,
                    custom_len,
                ) {
                    None
                } else {
                    Some(
                        (
                            ObjModel {
                                object_type: str_at(s, p),
                                name_index: le_i32(s, q),
                                data_off: data_off as usize,
                                data_len: cdo as usize,
                                custom_off: custom_off as usize,
                                custom_len: custom_len as usize,
                            },
                            custom_off + custom_len,
                        ),
                    )
                }
            }
        }
    }
}

/// The first `n` object records from `p` on, and the position after them.
pub open spec fn spec_objects(s: Seq<u8>, p: int, n: nat) -> Option<(Seq<ObjModel>, int)>
    decreases n,
{
    if n == 0 {
        Some((Seq::empty(), p))
    } else {
        match spec_objects(s, p, (n - 1) as nat) {
            Some((v, q)) => match spec_object(s, q) {
                Some((o, r)) => Some((v.push(o), r)),
                None => None,
            },
            None => None,
        }
    }
}

/// The `n` `(i32, i32)` pairs stored from `p` on.
pub open spec fn spec_pairs(s: Seq<u8>, p: int, n: nat) -> Seq<(i32, i32)> {
    Seq::new(n, |i: int| (le_i32(s, p + 8 * i), le_i32(s, p + 8 * i + 4)))
}

/// A count read from an `i32`: negative counts count as zero.
pub open spec fn count_of(n: i32) -> nat {
    if n <= 0 {
        0
    } else {
        n as nat
    }
}

/// The actor record at `p`, and the position after it.
pub open spec fn spec_actor(s: Seq<u8>, p: int) -> Option<(ActorModel, int)> {
    // object index, child count, children (pairs of i32), component count
    if !in_range(s, p, 8) {
        None
    } else {
        let children = count_of(le_i32(s, p + 4)) as int;
        let q = p + 8 + 8 * children;
        if !in_range(s, p + 8, 8 * children) || !in_range(s, q, 4) {
            None
        } else {
            let n = count_of(le_i32(s, q));
            let rot = q + 4 + 8 * n;
            // components, then rotation (16 bytes), translation and scale (12 each)
            if !in_range(s, q + 4, 8 * n as int) || !in_range(s, rot, 40) {
                None
            } else {
                Some(
                    (
                        ActorModel {
                            object_index: le_i32(s, p),
                            components: spec_pairs(s, q + 4, n),
                            rot_off: rot as usize,
                            trans_off: (rot + 16) as usize,
                        },
                        rot + 40,
                    ),
                )
            }
        }
    }
}

/// The first `n` actor records from `p` on, and the position after them.
pub open spec fn spec_actors(s: Seq<u8>, p: int, n: nat) -> Option<(Seq<ActorModel>, int)>
    decreases n,
{
    if n == 0 {
        Some((Seq::empty(), p))
    } else {
        match spec_actors(s, p, (n - 1) as nat) {
            Some((v, q)) => match spec_actor(s, q) {
                Some((a, r)) => Some((v.push(a), r)),
                None => None,
            },
            None => None,
        }
    }
}

/// The host pawn read from the trailer at `p`: the root actor list
/// (u32 count, then that many u32), the first import index, then, when
/// present, the player-controller records.
pub open spec fn spec_trailer(s: Seq<u8>, p: int) -> Option<Option<i32>> {
    if !in_range(s, p, 4) {
        None
    } else {
        let q = p + 4 + 4 * le_u32(s, p);
        if !in_range(s, p + 4, 4 * le_u32(s, p)) || !in_range(s, q, 4) {
            None
        } else {
            let r = q + 4;
            if r + 4 <= s.len() && le_i32(s, r) > 0 && r + 20 <= s.len() {
                Some(Some(le_u32(s, r + 8) as i32))
            } else {
                Some(None)
            }
        }
    }
}

/// Number of strings announced by the count `c` (the count includes the
/// implicit "None" entry); `None` where `c - 1` overflows.
pub open spec fn string_count(c: i64) -> Option<nat> {
    if c == i64::MIN {
        None
    } else if c >= 1 {
        Some((c - 1) as nat)
    } else {
        Some(0)
    }
}

/// What the decompressed level data `s` holds; `None` where the data ends
/// before a field that is read, or a size field is inconsistent.
pub open spec fn spec_layout(s: Seq<u8>) -> Option<Contents> {
    match spec_preamble(s) {
        None => None,
        Some(p) => if !in_range(s, p, 8) {
            None
        } else {
            match string_count(le_i64(s, p)) {
                None => None,
                Some(ns) => match spec_strings(s, p + 8, ns) {
                    None => None,
                    Some((strings, q)) => if !in_range(s, q, 4) {
                        None
                    } else {
                        match spec_objects(s, q + 4, le_u32(s, q) as nat) {
                            None => None,
                            Some((objects, r)) => if !in_range(s, r, 4) {
                                None
                            } else {
                                match spec_actors(s, r + 4, le_u32(s, r) as nat) {
                                    None => None,
                                    Some((actors, t)) => match spec_trailer(s, t) {
                                        None => None,
                                        Some(host_pawn) => Some(
                                            Contents { strings, objects, actors, host_pawn },
                                        ),
                                    },
                                }
                            }
                        }
                    }
                },
            }
        },
    }
}

/// The actor index recorded for each object index: each actor in turn
/// is entered under its object index, a later actor replacing an
/// earlier one.
pub open spec fn actor_index_map(actors: Seq<ActorModel>) -> Map<i32, usize>
    decreases actors.len(),
{
    if actors.len() == 0 {
        Map::empty()
    } else {
        actor_index_map(actors.drop_last()).insert(
            actors.last().object_index,
            (actors.len() - 1) as usize,
        )
    }
}

/// The save that `header` and the decompressed data `raw` decode to.
pub open spec fn spec_save(header: Seq<u8>, raw: Seq<u8>) -> Option<SaveModel> {
    match spec_layout(raw) {
        None => None,
        Some(c) => Some(
            SaveModel {
                header,
                raw,
                strings: c.strings,
                objects: c.objects,
                actors: c.actors,
                abo: actor_index_map(c.actors),
                host_pawn: c.host_pawn,
            },
        ),
    }
}


impl SaveModel {
    /// The records point inside the decompressed data, and the actor
    /// index is the one that the actor records give.
    pub open spec fn wf(self) -> bool {
        &&& forall|i: int|
            0 <= i < self.objects.len() ==> {
                &&& (#[trigger] self.objects[i]).data_off + self.objects[i].data_len <= self.raw.len()
                &&& self.objects[i].custom_off + self.objects[i].custom_len <= self.raw.len()
            }
        &&& forall|i: int|
            0 <= i < self.actors.len() ==> {
                &&& (#[trigger] self.actors[i]).rot_off + 16 <= self.raw.len()
                &&& self.actors[i].trans_off + 12 <= self.raw.len()
            }
        &&& self.abo == actor_index_map(self.actors)
    }
}

impl Save {
    /// See [`SaveModel::wf`].
    pub open spec fn wf(&self) -> bool {
        self@.wf()
    }
}

proof fn lemma_strings_fail(s: Seq<u8>, p: int, i: nat, n: nat)
    requires
        i <= n,
        spec_strings(s, p, i) is None,
    ensures
        spec_strings(s, p, n) is None,
    decreases n,
{
    if n > i {
        lemma_strings_fail(s, p, i, (n - 1) as nat);
    }
}

proof fn lemma_objects_fail(s: Seq<u8>, p: int, i: nat, n: nat)
    requires
        i <= n,
        spec_objects(s, p, i) is None,
    ensures
        spec_objects(s, p, n) is None,
    decreases n,
{
    if n > i {
        lemma_objects_fail(s, p, i, (n - 1) as nat);
    }
}

proof fn lemma_actors_fail(s: Seq<u8>, p: int, i: nat, n: nat)
    requires
        i <= n,
        spec_actors(s, p, i) is None,
    ensures
        spec_actors(s, p, n) is None,
    decreases n,
{
    if n > i {
        lemma_actors_fail(s, p, i, (n - 1) as nat);
    }
}

/// Reads everything before the string table.
fn read_preamble(c: &mut Cur) -> (ok: bool)
    requires
        old(c).p == 0,
    ensures
        final(c).b@ == old(c).b@,
        ok <==> spec_preamble(old(c).b@) is Some,
        ok ==> final(c).p == spec_preamble(old(c).b@).unwrap(),
{
    let ghost s = c.b@;
    // format tag, save-game version, package version
    if c.u32().is_none() || c.i32().is_none() || c.i32().is_none() {
        return false;
    }
    // engine version (three u16), engine build
    if !c.skip(6) || c.u32().is_none() {
        return false;
    }
    // build id, custom-format version, entry count
    if c.string().is_none() || c.i32().is_none() {
        return false;
    }
    let ghost p1 = c.p - 4;
    let count = match c.u32() {
        Some(n) => n,
        None => return false,
    };
    let mut i: u32 = 0;
    while i < count
        invariant
            c.b@ == s,
            s == old(c).b@,
            in_range(s, 0, 22),
            str_ok(s, 22),
            p1 == str_end(s, 22),
            in_range(s, p1, 8),
            i <= count,
            count == le_u32(s, p1 + 4),
            in_range(s, p1 + 8, 20 * i),
            c.p == p1 + 8 + 20 * i,
        decreases count - i,
    {
        // a 16-byte guid and an i32
        if !c.skip(16) || c.i32().is_none() {
            return false;
        }
        i = i + 1;
    }
    // save class, end-of-header string, end-of-header i32
    if c.string().is_none() || c.string().is_none() || c.i32().is_none() {
        return false;
    }
    // astro save version, pad byte, level name, pad, chunk version
    if c.u32().is_none() || c.u8().is_none() || c.string().is_none() {
        return false;
    }
    if c.u32().is_none() || c.u32().is_none() {
        return false;
    }
    true
}

/// Reads one object record.
fn read_object(c: &mut Cur) -> (r: Option<ObjRec>)
    ensures
        final(c).b@ == old(c).b@,
        match spec_object(old(c).b@, old(c).p as int) {
            Some((o, q)) => r matches Some(x) && x@ == o && final(c).p == q,
            None => r is None,
        },
{
    let object_type = match c.string() {
        Some(t) => t,
        None => return None,
    };
    let name_index = match c.i32() {
        Some(v) => v,
        None => return None,
    };
    // flags
    if c.u32().is_none() {
        return None;
    }
    let save_flags = match c.u8() {
        Some(v) => v,
        None => return None,
    };
    // outer object index
    if c.i32().is_none() {
        return None;
    }
    let custom_data_offset = match c.u32() {
        Some(v) => v as usize,
        None => return None,
    };
    let size: usize = if save_flags & 4 != 0 {
        match c.u32() {
            Some(v) => v as usize,
            None => return None,
        }
    } else {
        0
    };
    let data_off = c.p;
    if !c.skip(custom_data_offset) {
        return None;
    }
    let custom_off = c.p;
    let custom_len: usize = if size != 0 {
        if size < custom_data_offset {
            return None;
        }
        size - custom_data_offset
    } else {
        0
    };
    if !c.skip(custom_len) {
        return None;
    }
    Some(
        ObjRec {
            object_type,
            name_index,
            data_off,
            data_len: custom_data_offset,
            custom_off,
            custom_len,
        },
    )
}

/// Reads one actor record.
fn read_actor(c: &mut Cur) -> (r: Option<ActorRec>)
    ensures
        final(c).b@ == old(c).b@,
        match spec_actor(old(c).b@, old(c).p as int) {
            Some((a, q)) => r matches Some(x) && x@ == a && final(c).p == q,
            None => r is None,
        },
{
    let ghost s = c.b@;
    let ghost p = c.p as int;
    let object_index = match c.i32() {
        Some(v) => v,
        None => return None,
    };
    let child_count = match c.i32() {
        Some(v) => v,
        None => return None,
    };
    let mut k: i32 = 0;
    while k < child_count
        invariant
            c.b@ == s,
            s == old(c).b@,
            p == old(c).p,
            in_range(s, p, 8),
            child_count == le_i32(s, p + 4),
            0 <= k,
            k as int <= count_of(child_count) as int,
            in_range(s, p + 8, 8 * k),
            c.p == p + 8 + 8 * k,
        decreases child_count - k,
    {
        if c.i32().is_none() || c.i32().is_none() {
            return None;
        }
        k = k + 1;
    }
    assert(k as int == count_of(child_count) as int);
    let ghost q = c.p as int;
    let comp_count = match c.i32() {
        Some(v) => v,
        None => return None,
    };
    let mut components: Vec<(i32, i32)> = Vec::new();
    let mut k: i32 = 0;
    while k < comp_count
        invariant
            c.b@ == s,
            s == old(c).b@,
            p == old(c).p,
            in_range(s, p, 8),
            q == p + 8 + 8 * count_of(le_i32(s, p + 4)),
            in_range(s, p + 8, 8 * count_of(le_i32(s, p + 4)) as int),
            in_range(s, q, 4),
            comp_count == le_i32(s, q),
            0 <= k,
            k as int <= count_of(comp_count) as int,
            in_range(s, q + 4, 8 * k),
            c.p == q + 4 + 8 * k,
            components@ == spec_pairs(s, q + 4, k as nat),
        decreases comp_count - k,
    {
        let ni = match c.i32() {
            Some(v) => v,
            None => return None,
        };
        let oi = match c.i32() {
            Some(v) => v,
            None => return None,
        };
        components.push((ni, oi));
        k = k + 1;
        assert(components@ =~= spec_pairs(s, q + 4, k as nat));
    }
    assert(k as int == count_of(comp_count) as int);
    assert(c.p == q + 4 + 8 * count_of(comp_count));
    let rot_off = c.p;
    if !c.skip(16) {
        return None;
    }
    let trans_off = c.p;
    // translation, then scale
    if !c.skip(12) || !c.skip(12) {
        return None;
    }
    Some(ActorRec { object_index, components, rot_off, trans_off })
}

/// Reads the trailer after the actor records and returns the host pawn.
fn read_trailer(c: &mut Cur) -> (r: Option<Option<i32>>)
    ensures
        r == spec_trailer(old(c).b@, old(c).p as int),
{
    let root_count = match c.u32() {
        Some(v) => v,
        None => return None,
    };
    let need: u64 = 4 * root_count as u64;
    if !(c.p <= c.b.len() && ((c.b.len() - c.p) as u64) >= need) {
        return None;
    }
    if !c.skip(need as usize) {
        return None;
    }
    // first import index
    if c.u32().is_none() {
        return None;
    }
    let mut host_pawn: Option<i32> = None;
    if c.b.len() - c.p >= 4 {
        let pcr_count = match c.i32() {
            Some(v) => v,
            None => return None,
        };
        if pcr_count > 0 && c.b.len() - c.p >= 16 {
            // controller actor index, then the pawn's object index
            if c.u32().is_none() {
                return None;
            }
            host_pawn = match c.u32() {
                Some(v) => Some(v as i32),
                None => return None,
            };
        }
    }
    Some(host_pawn)
}

/// Decodes the decompressed level data `raw` of a save whose outer header
/// is `header`. Returns `None` exactly where the data ends before a field
/// that is read, or a size field is inconsistent (see [`spec_layout`]).
#[verifier::loop_isolation(false)]
pub fn parse_decompressed(header: Vec<u8>, raw: Vec<u8>) -> (r: Option<Save>)
    ensures
        match spec_save(header@, raw@) {
            Some(m) => r matches Some(sv) && sv@ == m && sv.wf() && records_in_order(m),
            None => r is None,
        },
{
    let ghost s = raw@;
    proof {
        assert(raw@.len() == raw.len());
        lemma_records_in_order(header@, raw@);
    }
    let mut c = Cur { b: raw.as_slice(), p: 0 };
    if !read_preamble(&mut c) {
        return None;
    }
    // string table
    let str_count = match c.i64() {
        Some(v) => v,
        None => return None,
    };
    if str_count == i64::MIN {
        return None;
    }
    let count: i64 = if str_count >= 1 {
        str_count - 1
    } else {
        0
    };
    let ghost p0 = c.p as int;
    let mut strings: Vec<String> = Vec::new();
    let mut i: i64 = 0;
    while i < count
        invariant
            c.b@ == s,
            0 <= i <= count,
            spec_strings(s, p0, i as nat) == Some(
                (strings@.map_values(|x: String| x@), c.p as int),
            ),
        decreases count - i,
    {
        let ghost before = strings@;
        match c.string() {
            Some(x) => {
                strings.push(x);
            },
            None => {
                proof {
                    lemma_strings_fail(s, p0, (i + 1) as nat, count as nat);
                }
                return None;
            },
        }
        i = i + 1;
        assert(strings@.map_values(|x: String| x@) =~= before.map_values(|x: String| x@).push(
            strings@.last()@,
        ));
    }
    // object records
    let obj_count = match c.u32() {
        Some(v) => v,
        None => return None,
    };
    let ghost p1 = c.p as int;
    let mut objects: Vec<ObjRec> = Vec::new();
    let mut i: u32 = 0;
    while i < obj_count
        invariant
            c.b@ == s,
            i <= obj_count,
            spec_objects(s, p1, i as nat) == Some(
                (objects@.map_values(|o: ObjRec| o@), c.p as int),
            ),
            forall|j: int|
                0 <= j < objects@.len() ==> {
                    &&& (#[trigger] objects@[j])@.data_off + objects@[j]@.data_len <= s.len()
                    &&& objects@[j]@.custom_off + objects@[j]@.custom_len <= s.len()
                },
        decreases obj_count - i,
    {
        let ghost before = objects@;
        match read_object(&mut c) {
            Some(o) => {
                objects.push(o);
            },
            None => {
                proof {
                    lemma_objects_fail(s, p1, (i + 1) as nat, obj_count as nat);
                }
                return None;
            },
        }
        i = i + 1;
        assert(objects@.map_values(|o: ObjRec| o@) =~= before.map_values(|o: ObjRec| o@).push(
            objects@.last()@,
        ));
    }
    // actor records
    let act_count = match c.u32() {
        Some(v) => v,
        None => return None,
    };
    let ghost p2 = c.p as int;
    let mut actors: Vec<ActorRec> = Vec::new();
    let mut abo: HashMap<i32, usize> = HashMap::new();
    let mut i: u32 = 0;
    while i < act_count
        invariant
            c.b@ == s,
            i <= act_count,
            actors@.len() == i,
            spec_actors(s, p2, i as nat) == Some(
                (actors@.map_values(|a: ActorRec| a@), c.p as int),
            ),
            forall|j: int|
                0 <= j < actors@.len() ==> {
                    &&& (#[trigger] actors@[j])@.rot_off + 16 <= s.len()
                    &&& actors@[j]@.trans_off + 12 <= s.len()
                },
            abo@ == actor_index_map(actors@.map_values(|a: ActorRec| a@)),
        decreases act_count - i,
    {
        let ghost before = actors@;
        match read_actor(&mut c) {
            Some(a) => {
                abo.insert(a.object_index, i as usize);
                actors.push(a);
            },
            None => {
                proof {
                    lemma_actors_fail(s, p2, (i + 1) as nat, act_count as nat);
                }
                return None;
            },
        }
        i = i + 1;
        let ghost m = actors@.map_values(|a: ActorRec| a@);
        assert(m =~= before.map_values(|a: ActorRec| a@).push(actors@.last()@));
        assert(m.drop_last() =~= before.map_values(|a: ActorRec| a@));
    }
    let host_pawn = match read_trailer(&mut c) {
        Some(h) => h,
        None => return None,
    };
    Some(Save { header, raw, strings, objects, actors, abo, host_pawn })
}

/// What `miniz_oxide::inflate::decompress_to_vec_zlib` gives for the zlib
/// stream `data`: the inflated bytes, or the `Debug` text of the error it
/// reports.
pub uninterp spec fn zlib_inflated(data: Seq<u8>) -> Result<Seq<u8>, Seq<char>>;

/// Inflates a zlib stream with `miniz_oxide::inflate::decompress_to_vec_zlib`,
/// turning its error into the error's `Debug` text.
///
/// Trusted: the function's outcome depends on `data` alone (each call
/// inflates with a fresh decompressor); this names it [`zlib_inflated`]
/// and claims nothing more of it.
#[verifier::external_body]
fn inflate_zlib(data: &[u8]) -> (r: Result<Vec<u8>, String>)
    ensures
        match r {
            Ok(v) => zlib_inflated(data@) == Ok::<Seq<u8>, Seq<char>>(v@),
            Err(t) => zlib_inflated(data@) == Err::<Seq<u8>, Seq<char>>(t@),
        },
{
    match miniz_oxide::inflate::decompress_to_vec_zlib(data) {
        Ok(v) => Ok(v),
        Err(e) => Err(format!("{:?}", e)),
    }
}

/// Message of [`parse`] for a blob shorter than its outer header.
pub open spec fn msg_too_small() -> Seq<char> {
    "file too small"@
}

/// Prefix of the message of [`parse`] for a body that does not inflate.
pub open spec fn msg_inflate_prefix() -> Seq<char> {
    "zlib inflate failed: "@
}

/// Message of [`parse`] for level data that [`spec_layout`] rejects.
pub open spec fn msg_malformed() -> Seq<char> {
    "save data is truncated or malformed"@
}

/// What [`parse`] gives for `blob`: the save, or the error message.
pub open spec fn spec_parse(blob: Seq<u8>) -> Result<SaveModel, Seq<char>> {
    if blob.len() < 16 {
        Err(msg_too_small())
    } else {
        match zlib_inflated(blob.subrange(16, blob.len() as int)) {
            Err(t) => Err(msg_inflate_prefix() + t),
            Ok(raw) => match spec_save(blob.take(16), raw) {
                Some(m) => Ok(m),
                None => Err(msg_malformed()),
            },
        }
    }
}

/// Decodes a `.savegame` file: a 16-byte outer header, then a zlib stream
/// holding the level data (see [`spec_parse`]).
pub fn parse(blob: &[u8]) -> (r: Result<Save, String>)
    ensures
        match spec_parse(blob@) {
            Ok(m) => r matches Ok(sv) && sv@ == m && sv.wf() && records_in_order(m),
            Err(e) => r matches Err(x) && x@ == e,
        },
{
    if blob.len() < 16 {
        return Err(String::from_str("file too small"));
    }
    let mut header: Vec<u8> = Vec::new();
    header.extend_from_slice(&blob[0..16]);
    assert(header@ =~= blob@.take(16));
    let raw = match inflate_zlib(&blob[16..blob.len()]) {
        Ok(v) => v,
        Err(detail) => {
            let mut msg = String::from_str("zlib inflate failed: ");
            msg.append(detail.as_str());
            return Err(msg);
        },
    };
    match parse_decompressed(header, raw) {
        Some(sv) => Ok(sv),
        None => Err(String::from_str("save data is truncated or malformed")),
    }
}

/// The name that index `i` stands for: index 0 is "None", index `k > 0`
/// is string `k - 1` of the table without trailing NULs, and any other
/// index names the empty string.
pub open spec fn spec_name(strings: Seq<Seq<char>>, i: i32) -> Seq<char> {
    if i == 0 {
        "None"@
    } else if 1 <= i <= strings.len() {
        trim_nul(strings[i - 1])
    } else {
        Seq::empty()
    }
}

/// One plus the index of the first string of `strings[k..]` that equals
/// `target` once trailing NULs are dropped, as an `i32`.
pub open spec fn spec_string_index(strings: Seq<Seq<char>>, target: Seq<char>, k: int) -> Option<
    i32,
>
    decreases strings.len() - k,
{
    if k < 0 || k >= strings.len() {
        None
    } else if trim_nul(strings[k]) == target {
        Some((k + 1) as i32)
    } else {
        spec_string_index(strings, target, k + 1)
    }
}

/// The actor recorded for object `obj_index`, if any.
pub open spec fn spec_actor_of(m: SaveModel, obj_index: usize) -> Option<ActorModel> {
    let key = obj_index as i32;
    if m.abo.contains_key(key) {
        Some(m.actors[m.abo[key] as int])
    } else {
        None
    }
}

/// Search of `comps[k..]` for the first component whose name is `target`:
/// `Some(Some(object index))` when found, `Some(None)` when there is none,
/// and `None` where a component's name index is `i32::MIN`, which has no
/// predecessor.
pub open spec fn spec_comp_search(
    strings: Seq<Seq<char>>,
    comps: Seq<(i32, i32)>,
    target: Seq<char>,
    k: int,
) -> Option<Option<usize>>
    decreases comps.len() - k,
{
    if k < 0 || k >= comps.len() {
        Some(None)
    } else if comps[k].0 == i32::MIN {
        None
    } else if spec_name(strings, comps[k].0) == target {
        Some(Some(comps[k].1 as usize))
    } else {
        spec_comp_search(strings, comps, target, k + 1)
    }
}

/// The object index of the component named `target` of object
/// `obj_index`'s actor (see [`spec_comp_search`]).
pub open spec fn spec_comp_obj(m: SaveModel, obj_index: usize, target: Seq<char>) -> Option<
    Option<usize>,
> {
    match spec_actor_of(m, obj_index) {
        None => Some(None),
        Some(a) => spec_comp_search(m.strings, a.components, target, 0),
    }
}

/// Search of `objects[k..]` for the first object whose name is `target`,
/// with the same three outcomes as [`spec_comp_search`].
pub open spec fn spec_obj_search(
    strings: Seq<Seq<char>>,
    objects: Seq<ObjModel>,
    target: Seq<char>,
    k: int,
) -> Option<Option<usize>>
    decreases objects.len() - k,
{
    if k < 0 || k >= objects.len() {
        Some(None)
    } else if objects[k].name_index == i32::MIN {
        None
    } else if spec_name(strings, objects[k].name_index) == target {
        Some(Some(k as usize))
    } else {
        spec_obj_search(strings, objects, target, k + 1)
    }
}

/// The index that [`spec_string_index`] finds from `k` on names the string
/// looked for (with fewer than `i32::MAX` strings, [`spec_name`] of it is
/// `target`), and it is the least such index: no earlier string from `k`
/// on matches. It finds none exactly when no string from `k` on matches.
pub proof fn lemma_string_index_names(strings: Seq<Seq<char>>, target: Seq<char>, k: int)
    requires
        strings.len() < i32::MAX,
        0 <= k,
    ensures
        spec_string_index(strings, target, k) matches Some(i) ==> {
            &&& k < i <= strings.len()
            &&& spec_name(strings, i) == target
            &&& forall|j: int| k <= j < i - 1 ==> trim_nul(#[trigger] strings[j]) != target
        },
        spec_string_index(strings, target, k) is None ==> forall|j: int|
            k <= j < strings.len() ==> trim_nul(#[trigger] strings[j]) != target,
    decreases strings.len() - k,
{
    if k < strings.len() {
        lemma_string_index_names(strings, target, k + 1);
    }
}

/// The object that [`spec_obj_search`] finds from `k` on is one of the
/// objects, its name is the name looked for, and no object before it from
/// `k` on has that name; it finds none exactly when no object from `k` on
/// has the name, and the search fails only at a name index of `i32::MIN`.
pub proof fn lemma_obj_search_names(
    strings: Seq<Seq<char>>,
    objects: Seq<ObjModel>,
    target: Seq<char>,
    k: int,
)
    requires
        objects.len() <= usize::MAX,
        0 <= k,
    ensures
        spec_obj_search(strings, objects, target, k) matches Some(Some(i)) ==> {
            &&& k <= i < objects.len()
            &&& spec_name(strings, objects[i as int].name_index) == target
            &&& forall|j: int|
                k <= j < i ==> spec_name(strings, (#[trigger] objects[j]).name_index) != target
        },
        spec_obj_search(strings, objects, target, k) == Some(None::<usize>) ==> forall|j: int|
            k <= j < objects.len() ==> spec_name(strings, (#[trigger] objects[j]).name_index) != target,
        spec_obj_search(strings, objects, target, k) is None ==> exists|j: int|
            k <= j < objects.len() && (#[trigger] objects[j]).name_index == i32::MIN,
    decreases objects.len() - k,
{
    if k < objects.len() {
        lemma_obj_search_names(strings, objects, target, k + 1);
        if spec_obj_search(strings, objects, target, k) is None && objects[k].name_index != i32::MIN {
            let j = choose|j: int| k + 1 <= j < objects.len() && (#[trigger] objects[j]).name_index == i32::MIN;
            assert(k <= j < objects.len() && objects[j].name_index == i32::MIN);
        }
    }
}

/// The component that [`spec_comp_search`] finds has the name looked for.
pub proof fn lemma_comp_search_names(
    strings: Seq<Seq<char>>,
    comps: Seq<(i32, i32)>,
    target: Seq<char>,
    k: int,
)
    ensures
        spec_comp_search(strings, comps, target, k) matches Some(Some(o)) ==> exists|j: int|
            0 <= j < comps.len() && comps[j].1 as usize == o && spec_name(strings, comps[j].0)
                == target,
    decreases comps.len() - k,
{
    if 0 <= k < comps.len() {
        lemma_comp_search_names(strings, comps, target, k + 1);
    }
}

/// The object indices that the actor records name.
pub open spec fn actor_objects(actors: Seq<ActorModel>) -> Set<i32> {
    actors.map_values(|a: ActorModel| a.object_index).to_set()
}

/// Each recorded actor index points at an actor of that object, and every
/// actor's object is recorded; where several actors name one object, the
/// last of them is recorded; so the map has one entry per distinct object
/// index that the actors name.
pub proof fn lemma_actor_index_map(actors: Seq<ActorModel>)
    requires
        actors.len() <= usize::MAX,
    ensures
        forall|k: i32| #[trigger]
            actor_index_map(actors).contains_key(k) ==> {
                &&& actor_index_map(actors)[k] < actors.len()
                &&& actors[actor_index_map(actors)[k] as int].object_index == k
                &&& forall|j: int|
                    actor_index_map(actors)[k] < j < actors.len() ==> #[trigger] actors[j].object_index != k
            },
        forall|i: int|
            0 <= i < actors.len() ==> actor_index_map(actors).contains_key(
                #[trigger] actors[i].object_index,
            ),
        actor_index_map(actors).dom() == actor_objects(actors),
        actor_index_map(actors).len() == actor_objects(actors).len(),
    decreases actors.len(),
{
    if actors.len() > 0 {
        let prev = actors.drop_last();
        lemma_actor_index_map(prev);
        assert(actor_index_map(actors) == actor_index_map(prev).insert(
            actors.last().object_index,
            (actors.len() - 1) as usize,
        ));
        assert forall|k: i32| #[trigger]
            actor_index_map(actors).contains_key(k) implies {
                &&& actor_index_map(actors)[k] < actors.len()
                &&& actors[actor_index_map(actors)[k] as int].object_index == k
                &&& forall|j: int|
                    actor_index_map(actors)[k] < j < actors.len() ==> #[trigger] actors[j].object_index != k
            } by {
            if k != actors.last().object_index {
                assert(actor_index_map(prev).contains_key(k));
                assert(prev[actor_index_map(prev)[k] as int] == actors[actor_index_map(prev)[k] as int]);
                assert forall|j: int|
                    actor_index_map(actors)[k] < j < actors.len() implies #[trigger] actors[j].object_index != k by {
                    if j < actors.len() - 1 {
                        assert(prev[j] == actors[j]);
                    }
                }
            }
        }
        assert forall|i: int| 0 <= i < actors.len() implies actor_index_map(actors).contains_key(
            #[trigger] actors[i].object_index,
        ) by {
            if i < actors.len() - 1 {
                assert(actors.drop_last()[i] == actors[i]);
            }
        }
    }
    let m = actor_index_map(actors);
    let f = |a: ActorModel| a.object_index;
    assert forall|k: i32| m.dom().contains(k) <==> actor_objects(actors).contains(k) by {
        if m.dom().contains(k) {
            let i = m[k] as int;
            assert(actors.map_values(f)[i] == k);
        }
        if actor_objects(actors).contains(k) {
            let i = choose|i: int| 0 <= i < actors.map_values(f).len() && actors.map_values(f)[i] == k;
            assert(actors[i].object_index == k);
        }
    }
    assert(m.dom() =~= actor_objects(actors));
}

/// The records lie in file order: each object's data is followed at once
/// by its custom data, the next object begins after that, at least four
/// bytes follow the last object, each actor's translation follows its
/// rotation, with the translation and scale (28 bytes) inside the data,
/// and the actors' transforms come after all object data.
pub open spec fn records_in_order(m: SaveModel) -> bool {
    &&& forall|k: int|
        0 <= k < m.objects.len() ==> {
            &&& (#[trigger] m.objects[k]).data_off + m.objects[k].data_len == m.objects[k].custom_off
            &&& m.objects[k].custom_off + m.objects[k].custom_len + 4 <= m.raw.len()
            &&& k + 1 < m.objects.len() ==> m.objects[k].custom_off + m.objects[k].custom_len
                < m.objects[k + 1].data_off
        }
    &&& forall|a: int|
        0 <= a < m.actors.len() ==> {
            &&& (#[trigger] m.actors[a]).trans_off == m.actors[a].rot_off + 16
            &&& m.actors[a].trans_off + 28 <= m.raw.len()
        }
    &&& forall|k: int, a: int|
        0 <= k < m.objects.len() && 0 <= a < m.actors.len() ==> (#[trigger] m.objects[k]).custom_off
            + m.objects[k].custom_len < (#[trigger] m.actors[a]).rot_off
}

proof fn lemma_objects_in_order(s: Seq<u8>, p: int, n: nat)
    requires
        s.len() <= usize::MAX,
        0 <= p <= s.len(),
    ensures
        spec_objects(s, p, n) matches Some((v, q)) ==> {
            &&& v.len() == n
            &&& p <= q <= s.len()
            &&& forall|k: int|
                0 <= k < v.len() ==> {
                    &&& (#[trigger] v[k]).data_off + v[k].data_len == v[k].custom_off
                    &&& p < v[k].data_off
                    &&& v[k].custom_off + v[k].custom_len <= q
                    &&& k + 1 < v.len() ==> v[k].custom_off + v[k].custom_len < v[k + 1].data_off
                }
        },
    decreases n,
{
    if n > 0 {
        lemma_objects_in_order(s, p, (n - 1) as nat);
        if let Some((v0, q0)) = spec_objects(s, p, (n - 1) as nat) {
            if let Some((o, r)) = spec_object(s, q0) {
                let v = v0.push(o);
                assert forall|k: int| 0 <= k < v.len() implies {
                    &&& (#[trigger] v[k]).data_off + v[k].data_len == v[k].custom_off
                    &&& p < v[k].data_off
                    &&& v[k].custom_off + v[k].custom_len <= r
                    &&& k + 1 < v.len() ==> v[k].custom_off + v[k].custom_len < v[k + 1].data_off
                } by {
                    if k < v0.len() {
                        assert(v[k] == v0[k]);
                        if k + 1 < v0.len() {
                            assert(v[k + 1] == v0[k + 1]);
                        }
                    }
                }
            }
        }
    }
}

proof fn lemma_actors_in_order(s: Seq<u8>, p: int, n: nat)
    requires
        s.len() <= usize::MAX,
        0 <= p <= s.len(),
    ensures
        spec_actors(s, p, n) matches Some((v, q)) ==> {
            &&& v.len() == n
            &&& p <= q <= s.len()
            &&& forall|a: int|
                0 <= a < v.len() ==> {
                    &&& (#[trigger] v[a]).trans_off == v[a].rot_off + 16
                    &&& v[a].trans_off + 24 <= q
                    &&& p < v[a].rot_off
                }
        },
    decreases n,
{
    if n > 0 {
        lemma_actors_in_order(s, p, (n - 1) as nat);
        if let Some((v0, q0)) = spec_actors(s, p, (n - 1) as nat) {
            if let Some((x, r)) = spec_actor(s, q0) {
                let children = count_of(le_i32(s, q0 + 4)) as int;
                let cq = q0 + 8 + 8 * children;
                let rot = cq + 4 + 8 * count_of(le_i32(s, cq)) as int;
                assert(0 <= rot && rot + 40 <= s.len());
                assert(x.rot_off == rot);
                assert(x.trans_off == rot + 16);
                let v = v0.push(x);
                assert forall|a: int| 0 <= a < v.len() implies {
                    &&& (#[trigger] v[a]).trans_off == v[a].rot_off + 16
                    &&& v[a].trans_off + 24 <= r
                    &&& p < v[a].rot_off
                } by {
                    if a < v0.len() {
                        assert(v[a] == v0[a]);
                    } else {
                        assert(v[a] == x);
                    }
                }
            }
        }
    }
}

/// A decoded save keeps its records in file order (see
/// [`records_in_order`]).
pub proof fn lemma_records_in_order(header: Seq<u8>, raw: Seq<u8>)
    requires
        raw.len() <= usize::MAX,
    ensures
        spec_save(header, raw) matches Some(m) ==> records_in_order(m) && m.actors.len() <= u32::MAX,
{
    if let Some(p) = spec_preamble(raw) {
        if in_range(raw, p, 8) {
            if let Some(ns) = string_count(le_i64(raw, p)) {
                if let Some((strings, q)) = spec_strings(raw, p + 8, ns) {
                    if in_range(raw, q, 4) {
                        lemma_objects_in_order(raw, q + 4, le_u32(raw, q) as nat);
                        if let Some((objects, r)) = spec_objects(raw, q + 4, le_u32(raw, q) as nat) {
                            if in_range(raw, r, 4) {
                                lemma_actors_in_order(raw, r + 4, le_u32(raw, r) as nat);
                            }
                        }
                    }
                }
            }
        }
    }
}

/// Position `j` lies inside the property data of an object (its data and
/// custom data) or inside an actor's transform (rotation, translation and
/// scale): bytes that the decoder of the layout does not read.
pub open spec fn in_values(c: Contents, j: int) -> bool {
    ||| exists|k: int|
        0 <= k < c.objects.len() && (#[trigger] c.objects[k]).data_off <= j < c.objects[k].custom_off
            + c.objects[k].custom_len
    ||| exists|a: int|
        0 <= a < c.actors.len() && (#[trigger] c.actors[a]).rot_off <= j < c.actors[a].rot_off + 40
}

proof fn lemma_u32_frame(s: Seq<u8>, t: Seq<u8>, p: int)
    requires
        0 <= p,
        p + 4 <= s.len(),
        t.len() == s.len(),
        forall|j: int| p <= j < p + 4 ==> s[j] == t[j],
    ensures
        le_u32(t, p) == le_u32(s, p),
        le_i32(t, p) == le_i32(s, p),
{
    assert(s[p] == t[p] && s[p + 1] == t[p + 1] && s[p + 2] == t[p + 2] && s[p + 3] == t[p + 3]);
}

proof fn lemma_str_frame(s: Seq<u8>, t: Seq<u8>, p: int)
    requires
        str_ok(s, p),
        t.len() == s.len(),
        forall|j: int| p <= j < str_end(s, p) ==> s[j] == t[j],
    ensures
        str_ok(t, p),
        str_end(t, p) == str_end(s, p),
        str_at(t, p) == str_at(s, p),
{
    lemma_u32_frame(s, t, p);
    assert(s.subrange(p + 4, str_end(s, p)) =~= t.subrange(p + 4, str_end(s, p)));
}

proof fn lemma_preamble_frame(s: Seq<u8>, t: Seq<u8>)
    requires
        t.len() == s.len(),
        spec_preamble(s) matches Some(e) && forall|j: int| 0 <= j < e ==> s[j] == t[j],
    ensures
        spec_preamble(t) == spec_preamble(s),
{
    lemma_str_frame(s, t, 22);
    let p1 = str_end(s, 22);
    lemma_u32_frame(s, t, p1 + 4);
    let n = le_u32(s, p1 + 4) as int;
    let p2 = p1 + 8 + 20 * n;
    lemma_str_frame(s, t, p2);
    let p3 = str_end(s, p2);
    lemma_str_frame(s, t, p3);
    let p4 = str_end(s, p3);
    lemma_str_frame(s, t, p4 + 9);
}

proof fn lemma_strings_frame(s: Seq<u8>, t: Seq<u8>, p: int, n: nat)
    requires
        t.len() == s.len(),
        spec_strings(s, p, n) matches Some((v, q)) && forall|j: int| p <= j < q ==> s[j] == t[j],
    ensures
        spec_strings(t, p, n) == spec_strings(s, p, n),
        spec_strings(s, p, n) matches Some((v, q)) ==> p <= q,
    decreases n,
{
    if n > 0 {
        let (v0, q0) = spec_strings(s, p, (n - 1) as nat)->Some_0;
        lemma_strings_frame(s, t, p, (n - 1) as nat);
        lemma_str_frame(s, t, q0);
    }
}

proof fn lemma_objects_frame(s: Seq<u8>, t: Seq<u8>, p: int, n: nat)
    requires
        s.len() <= usize::MAX,
        0 <= p <= s.len(),
        t.len() == s.len(),
        spec_objects(s, p, n) matches Some((v, q)) && forall|j: int|
            p <= j < q && s[j] != t[j] ==> exists|k: int|
                0 <= k < v.len() && (#[trigger] v[k]).data_off <= j < v[k].custom_off
                    + v[k].custom_len,
    ensures
        spec_objects(t, p, n) == spec_objects(s, p, n),
    decreases n,
{
    lemma_objects_in_order(s, p, n);
    if n > 0 {
        let (v, q) = spec_objects(s, p, n)->Some_0;
        let (v0, q0) = spec_objects(s, p, (n - 1) as nat)->Some_0;
        lemma_objects_in_order(s, p, (n - 1) as nat);
        let (o, r) = spec_object(s, q0)->Some_0;
        assert(v == v0.push(o));
        assert forall|j: int| p <= j < q0 && s[j] != t[j] implies exists|k: int|
            0 <= k < v0.len() && (#[trigger] v0[k]).data_off <= j < v0[k].custom_off
                + v0[k].custom_len by {
            let k = choose|k: int|
                0 <= k < v.len() && (#[trigger] v[k]).data_off <= j < v[k].custom_off
                    + v[k].custom_len;
            assert(k < v0.len());
            assert(v0[k] == v[k]);
        }
        lemma_objects_frame(s, t, p, (n - 1) as nat);
        // the record's own fields lie before its data
        assert forall|j: int| q0 <= j < o.data_off implies s[j] == t[j] by {
            if s[j] != t[j] {
                let k = choose|k: int|
                    0 <= k < v.len() && (#[trigger] v[k]).data_off <= j < v[k].custom_off
                        + v[k].custom_len;
                if k < v0.len() {
                    assert(v[k] == v0[k]);
                } else {
                    assert(v[k] == o);
                }
            }
        }
        lemma_str_frame(s, t, q0);
        let qq = str_end(s, q0);
        lemma_u32_frame(s, t, qq);
        lemma_u32_frame(s, t, qq + 13);
        assert(s[qq + 8] == t[qq + 8]);
        if s[qq + 8] & 4 != 0 {
            lemma_u32_frame(s, t, qq + 17);
        }
    }
}

proof fn lemma_actors_frame(s: Seq<u8>, t: Seq<u8>, p: int, n: nat)
    requires
        s.len() <= usize::MAX,
        0 <= p <= s.len(),
        t.len() == s.len(),
        spec_actors(s, p, n) matches Some((v, q)) && forall|j: int|
            p <= j < q && s[j] != t[j] ==> exists|a: int|
                0 <= a < v.len() && (#[trigger] v[a]).rot_off <= j < v[a].rot_off + 40,
    ensures
        spec_actors(t, p, n) == spec_actors(s, p, n),
    decreases n,
{
    lemma_actors_in_order(s, p, n);
    if n > 0 {
        let (v, q) = spec_actors(s, p, n)->Some_0;
        let (v0, q0) = spec_actors(s, p, (n - 1) as nat)->Some_0;
        lemma_actors_in_order(s, p, (n - 1) as nat);
        let (x, r) = spec_actor(s, q0)->Some_0;
        assert(v == v0.push(x));
        assert forall|j: int| p <= j < q0 && s[j] != t[j] implies exists|a: int|
            0 <= a < v0.len() && (#[trigger] v0[a]).rot_off <= j < v0[a].rot_off + 40 by {
            let a = choose|a: int| 0 <= a < v.len() && (#[trigger] v[a]).rot_off <= j < v[a].rot_off + 40;
            assert(a < v0.len());
            assert(v0[a] == v[a]);
        }
        lemma_actors_frame(s, t, p, (n - 1) as nat);
        let children = count_of(le_i32(s, q0 + 4)) as int;
        let cq = q0 + 8 + 8 * children;
        let cn = count_of(le_i32(s, cq));
        let rot = cq + 4 + 8 * cn as int;
        assert(x.rot_off == rot);
        assert forall|j: int| q0 <= j < rot implies s[j] == t[j] by {
            if s[j] != t[j] {
                let a = choose|a: int| 0 <= a < v.len() && (#[trigger] v[a]).rot_off <= j < v[a].rot_off + 40;
                if a < v0.len() {
                    assert(v[a] == v0[a]);
                } else {
                    assert(v[a] == x);
                }
            }
        }
        lemma_u32_frame(s, t, q0);
        lemma_u32_frame(s, t, q0 + 4);
        lemma_u32_frame(s, t, cq);
        assert forall|i: int| 0 <= i < cn implies #[trigger] spec_pairs(t, cq + 4, cn)[i] == spec_pairs(
            s,
            cq + 4,
            cn,
        )[i] by {
            lemma_u32_frame(s, t, cq + 4 + 8 * i);
            lemma_u32_frame(s, t, cq + 4 + 8 * i + 4);
        }
        assert(spec_pairs(t, cq + 4, cn) =~= spec_pairs(s, cq + 4, cn));
    }
}

/// Level data that differs from `s` only inside values (see [`in_values`])
/// decodes to the same records: changing the property data of objects or
/// the transforms of actors keeps the layout of the save.
pub proof fn lemma_values_keep_layout(s: Seq<u8>, t: Seq<u8>)
    requires
        s.len() <= usize::MAX,
        t.len() == s.len(),
        spec_layout(s) matches Some(c) && forall|j: int|
            0 <= j < s.len() && s[j] != t[j] ==> in_values(c, j),
    ensures
        spec_layout(t) == spec_layout(s),
{
    let c = spec_layout(s)->Some_0;
    let e = spec_preamble(s)->Some_0;
    let ns = string_count(le_i64(s, e))->Some_0;
    let (strings, q) = spec_strings(s, e + 8, ns)->Some_0;
    let no = le_u32(s, q) as nat;
    let (objects, r) = spec_objects(s, q + 4, no)->Some_0;
    let na = le_u32(s, r) as nat;
    let (actors, te) = spec_actors(s, r + 4, na)->Some_0;
    lemma_strings_frame(s, s, e + 8, ns);
    lemma_objects_in_order(s, q + 4, no);
    lemma_actors_in_order(s, r + 4, na);
    assert(c.objects == objects && c.actors == actors);
    // before the first object's data nothing is a value
    assert forall|j: int| 0 <= j < q + 4 implies s[j] == t[j] by {
        if s[j] != t[j] {
            assert(in_values(c, j));
            if exists|k: int|
                0 <= k < objects.len() && (#[trigger] objects[k]).data_off <= j < objects[k].custom_off
                    + objects[k].custom_len {
                let k = choose|k: int|
                    0 <= k < objects.len() && (#[trigger] objects[k]).data_off <= j < objects[k].custom_off
                        + objects[k].custom_len;
            } else {
                let a = choose|a: int|
                    0 <= a < actors.len() && (#[trigger] actors[a]).rot_off <= j < actors[a].rot_off + 40;
            }
        }
    }
    lemma_preamble_frame(s, t);
    lemma_u32_frame(s, t, e);
    lemma_u32_frame(s, t, e + 4);
    assert(le_i64(t, e) == le_i64(s, e));
    lemma_strings_frame(s, t, e + 8, ns);
    lemma_u32_frame(s, t, q);
    // object records: only their data may differ
    assert forall|j: int| q + 4 <= j < r && s[j] != t[j] implies exists|k: int|
        0 <= k < objects.len() && (#[trigger] objects[k]).data_off <= j < objects[k].custom_off
            + objects[k].custom_len by {
        assert(in_values(c, j));
        if !exists|k: int|
            0 <= k < objects.len() && (#[trigger] objects[k]).data_off <= j < objects[k].custom_off
                + objects[k].custom_len {
            let a = choose|a: int|
                0 <= a < actors.len() && (#[trigger] actors[a]).rot_off <= j < actors[a].rot_off + 40;
        }
    }
    lemma_objects_frame(s, t, q + 4, no);
    assert forall|j: int| r <= j < r + 4 implies s[j] == t[j] by {
        if s[j] != t[j] {
            assert(in_values(c, j));
            if exists|k: int|
                0 <= k < objects.len() && (#[trigger] objects[k]).data_off <= j < objects[k].custom_off
                    + objects[k].custom_len {
                let k = choose|k: int|
                    0 <= k < objects.len() && (#[trigger] objects[k]).data_off <= j < objects[k].custom_off
                        + objects[k].custom_len;
            } else {
                let a = choose|a: int|
                    0 <= a < actors.len() && (#[trigger] actors[a]).rot_off <= j < actors[a].rot_off + 40;
            }
        }
    }
    lemma_u32_frame(s, t, r);
    assert forall|j: int| r + 4 <= j < te && s[j] != t[j] implies exists|a: int|
        0 <= a < actors.len() && (#[trigger] actors[a]).rot_off <= j < actors[a].rot_off + 40 by {
        assert(in_values(c, j));
        if exists|k: int|
            0 <= k < objects.len() && (#[trigger] objects[k]).data_off <= j < objects[k].custom_off
                + objects[k].custom_len {
            let k = choose|k: int|
                0 <= k < objects.len() && (#[trigger] objects[k]).data_off <= j < objects[k].custom_off
                    + objects[k].custom_len;
        }
    }
    lemma_actors_frame(s, t, r + 4, na);
    // the trailer follows every value
    assert forall|j: int| te <= j < s.len() implies s[j] == t[j] by {
        if s[j] != t[j] {
            assert(in_values(c, j));
            if exists|k: int|
                0 <= k < objects.len() && (#[trigger] objects[k]).data_off <= j < objects[k].custom_off
                    + objects[k].custom_len {
                let k = choose|k: int|
                    0 <= k < objects.len() && (#[trigger] objects[k]).data_off <= j < objects[k].custom_off
                        + objects[k].custom_len;
            } else {
                let a = choose|a: int|
                    0 <= a < actors.len() && (#[trigger] actors[a]).rot_off <= j < actors[a].rot_off + 40;
            }
        }
    }
    lemma_u32_frame(s, t, te);
    let tq = te + 4 + 4 * le_u32(s, te);
    lemma_u32_frame(s, t, tq);
    let tr = tq + 4;
    if tr + 4 <= s.len() {
        lemma_u32_frame(s, t, tr);
        if tr + 20 <= s.len() {
            lemma_u32_frame(s, t, tr + 8);
        }
    }
}

impl Save {
    /// The name that index `i` stands for (see [`spec_name`]).
    pub fn name(&self, i: i32) -> (r: String)
        requires
            i != i32::MIN,
        ensures
            r@ == spec_name(self@.strings, i),
    {
        if i == 0 {
            String::from_str("None")
        } else if i < 0 {
            String::new()
        } else {
            let k = (i - 1) as usize;
            if k < self.strings.len() {
                clean(self.strings[k].as_str())
            } else {
                String::new()
            }
        }
    }

    /// One plus the index of the first string of the table that equals
    /// `target` once trailing NULs are dropped (see [`spec_string_index`]).
    pub fn find_string_index(&self, target: &str) -> (r: Option<i32>)
        ensures
            r == spec_string_index(self@.strings, target@, 0),
    {
        let mut p: usize = 0;
        while p < self.strings.len()
            invariant
                p <= self.strings@.len(),
                spec_string_index(self@.strings, target@, 0) == spec_string_index(
                    self@.strings,
                    target@,
                    p as int,
                ),
            decreases self.strings.len() - p,
        {
            let c = clean(self.strings[p].as_str());
            if str_eq(c.as_str(), target) {
                #[verifier::truncate]
                let v = ((p + 1) as i32);
                return Some(v);
            }
            p += 1;
        }
        None
    }

    /// The actor recorded for object `obj_index`.
    pub fn actor_of(&self, obj_index: usize) -> (r: Option<&ActorRec>)
        requires
            self.wf(),
        ensures
            match spec_actor_of(self@, obj_index) {
                Some(a) => r matches Some(x) && x@ == a,
                None => r is None,
            },
    {
        let n = self.actors.len();
        proof {
            assert(self@.actors.len() == n);
            lemma_actor_index_map(self@.actors);
        }
        #[verifier::truncate]
        let key = (obj_index as i32);
        match self.abo.get(&key) {
            Some(ai) => {
                let ai = *ai;
                Some(&self.actors[ai])
            },
            None => None,
        }
    }

    /// The object index of the component named `comp_name` of object
    /// `obj_index`'s actor (see [`spec_comp_obj`]).
    pub fn comp_obj(&self, obj_index: usize, comp_name: &str) -> (r: Option<Option<usize>>)
        requires
            self.wf(),
        ensures
            r == spec_comp_obj(self@, obj_index, comp_name@),
    {
        let a = match self.actor_of(obj_index) {
            Some(a) => a,
            None => return Some(None),
        };
        let ghost comps = a.components@;
        let mut k: usize = 0;
        while k < a.components.len()
            invariant
                comps == a.components@,
                k <= comps.len(),
                spec_comp_obj(self@, obj_index, comp_name@) == spec_comp_search(
                    self@.strings,
                    comps,
                    comp_name@,
                    0,
                ),
                spec_comp_search(self@.strings, comps, comp_name@, 0) == spec_comp_search(
                    self@.strings,
                    comps,
                    comp_name@,
                    k as int,
                ),
            decreases a.components.len() - k,
        {
            let (ni, oi) = a.components[k];
            if ni == i32::MIN {
                return None;
            }
            let nm = self.name(ni);
            if str_eq(nm.as_str(), comp_name) {
                #[verifier::truncate]
                let oi_index = (oi as usize);
                return Some(Some(oi_index));
            }
            k += 1;
        }
        Some(None)
    }
}

/// The index of the first object whose name is `name` (see
/// [`spec_obj_search`]).
pub fn obj_by_name(save: &Save, name: &str) -> (r: Option<Option<usize>>)
    ensures
        r == spec_obj_search(save@.strings, save@.objects, name@, 0),
{
    let mut k: usize = 0;
    while k < save.objects.len()
        invariant
            k <= save@.objects.len(),
            spec_obj_search(save@.strings, save@.objects, name@, 0) == spec_obj_search(
                save@.strings,
                save@.objects,
                name@,
                k as int,
            ),
        decreases save.objects.len() - k,
    {
        let ni = save.objects[k].name_index;
        if ni == i32::MIN {
            return None;
        }
        let nm = save.name(ni);
        if str_eq(nm.as_str(), name) {
            return Some(Some(k));
        }
        k += 1;
    }
    Some(None)
}

} // verus!
