//! Putting a stranded shuttle down on a landing pad: the edits to the
//! level data that clear the lost/orbit state, move the ship onto the
//! pad, and let its seats be left again.

use vstd::prelude::*;
use vstd::string::StringExecFns;
use crate::bytes::{in_range, lemma_le_bytes_u32, le_bytes_u32, le_i32, le_u32};
use crate::props::{find_voff, props_view, spec_decode, spec_find_voff, try_decode_props, Prop, PropModel};
use crate::save::{
    actor_index_map, in_values, lemma_actor_index_map, lemma_records_in_order, lemma_values_keep_layout, spec_layout,
    spec_name, spec_save, Contents,
    msg_malformed, obj_by_name, parse, records_in_order, spec_parse, spec_actor_of, spec_comp_obj, spec_obj_search, spec_string_index,
    Save, SaveModel,
};
use crate::survey::{
    data_blob, object_blob, ship_seats, shuttle_is_lost, spec_ship_seats, spec_shuttle_is_lost,
};
use crate::text::{clean, is_shuttle, spec_is_shuttle, trim_nul};
use crate::zlib::{repack, spec_repack};

verus! {

/// `raw` with `bytes` written at `off`; `None` where they do not fit.
pub open spec fn spec_put(raw: Seq<u8>, off: int, bytes: Seq<u8>) -> Option<Seq<u8>> {
    if 0 <= off && off + bytes.len() <= raw.len() {
        Some(raw.take(off) + bytes + raw.skip(off + bytes.len()))
    } else {
        None
    }
}

/// Writing the little-endian bytes of an `i32` at `off` and reading the
/// `i32` there gives it back; only those four bytes change.
pub proof fn lemma_put_i32_reads_back(raw: Seq<u8>, off: int, v: i32)
    requires
        0 <= off,
        off + 4 <= raw.len(),
    ensures
        spec_put(raw, off, le_bytes_u32(v as u32)) matches Some(r) && {
            &&& r.len() == raw.len()
            &&& le_i32(r, off) == v
            &&& forall|j: int| 0 <= j < raw.len() && !(off <= j < off + 4) ==> r[j] == raw[j]
        },
{
    let b = le_bytes_u32(v as u32);
    let r = raw.take(off) + b + raw.skip(off + 4);
    lemma_le_bytes_u32(v as u32);
    assert(r[off] == b[0] && r[off + 1] == b[1] && r[off + 2] == b[2] && r[off + 3] == b[3]);
    assert(le_u32(r, off) == le_u32(b, 0));
    assert((v as u32) as i32 == v) by (bit_vector);
    assert forall|j: int| 0 <= j < raw.len() && !(off <= j < off + 4) implies r[j] == raw[j] by {
        if j >= off + 4 {
            assert(r[j] == raw.skip(off + 4)[j - off - 4]);
        }
    }
}

/// `raw` with `bytes` written at `base` plus the offset of property
/// `path`, when `props` has it; `raw` unchanged when it does not.
pub open spec fn spec_put_voff(
    raw: Seq<u8>,
    base: int,
    props: Seq<PropModel>,
    path: Seq<char>,
    bytes: Seq<u8>,
) -> Option<Seq<u8>> {
    match spec_find_voff(props, path) {
        None => Some(raw),
        Some(v) => spec_put(raw, base + v, bytes),
    }
}

/// The decoded properties of object `o`; `None` where `o` is not an
/// object or its blob does not decode.
pub open spec fn object_props(m: SaveModel, o: usize) -> Option<Seq<PropModel>> {
    if o < m.objects.len() {
        spec_decode(data_blob(m, o as int), m.strings)
    } else {
        None
    }
}

/// Where a component's blob starts, and its decoded properties.
pub struct CompData {
    pub base: int,
    pub props: Seq<PropModel>,
}

/// The blob of the component named `name` of object `obj`, which must
/// exist; `None` where it does not or does not decode.
pub open spec fn required_comp(m: SaveModel, obj: usize, name: Seq<char>) -> Option<CompData> {
    match spec_comp_obj(m, obj, name) {
        Some(Some(c)) => match object_props(m, c) {
            Some(props) => Some(CompData { base: m.objects[c as int].data_off as int, props }),
            None => None,
        },
        _ => None,
    }
}

/// The reference shuttle's navigation and automation components.
pub struct RefData {
    pub nav: CompData,
    pub auto: CompData,
}

/// The components of reference shuttle `ri`; `None` where either is
/// missing or does not decode.
pub open spec fn spec_ref_data(m: SaveModel, ri: usize) -> Option<RefData> {
    match required_comp(m, ri, "OrbitalNavigation"@) {
        None => None,
        Some(nav) => match required_comp(m, ri, "ShuttleAutomation"@) {
            None => None,
            Some(auto) => Some(RefData { nav, auto }),
        },
    }
}

/// The four bytes of the level data at `base` plus the offset of property
/// `path` in `props`: `Some(None)` when `props` lacks it, `None` where
/// they lie past the data.
pub open spec fn ref_bytes(m: SaveModel, base: int, props: Seq<PropModel>, path: Seq<char>, n: int) -> Option<
    Option<Seq<u8>>,
> {
    match spec_find_voff(props, path) {
        None => Some(None),
        Some(rv) => if in_range(m.raw, base + rv, n) {
            Some(Some(m.raw.subrange(base + rv, base + rv + n)))
        } else {
            None
        },
    }
}

/// The name index to record for the landed sequence state: the
/// reference shuttle's own value, else the index of the string
/// "EShuttleSequenceState::Landed"; `None` where reading the reference
/// value fails.
pub open spec fn landed_index(m: SaveModel, r: Option<RefData>) -> Option<Option<i32>> {
    let from_ref: Option<Option<i32>> = match r {
        None => Some(None),
        Some(rd) => match spec_find_voff(rd.auto.props, "ShuttleSequenceState"@) {
            None => Some(None),
            Some(rv) => if in_range(m.raw, rd.auto.base + rv, 4) {
                Some(Some(le_i32(m.raw, rd.auto.base + rv)))
            } else {
                None
            },
        },
    };
    match from_ref {
        None => None,
        Some(Some(x)) => Some(Some(x)),
        Some(None) => Some(spec_string_index(m.strings, "EShuttleSequenceState::Landed"@, 0)),
    }
}

/// `raw` with the `n` bytes that the reference shuttle's navigation holds
/// at property `path` copied to the same property of the ship's
/// navigation (`nav`), when both have it.
pub open spec fn copy_from_ref(
    m: SaveModel,
    raw: Seq<u8>,
    r: Option<RefData>,
    nav: CompData,
    path: Seq<char>,
    n: int,
) -> Option<Seq<u8>> {
    match r {
        None => Some(raw),
        Some(rd) => match spec_find_voff(nav.props, path) {
            None => Some(raw),
            Some(dv) => match ref_bytes(m, rd.nav.base, rd.nav.props, path, n) {
                None => None,
                Some(None) => Some(raw),
                Some(Some(bytes)) => spec_put(raw, nav.base + dv, bytes),
            },
        },
    }
}

/// `raw` with `ExitSuppressionCount` cleared in the attachments of seats
/// `seats[k..]`; `None` where a seat's attachments cannot be read.
pub open spec fn clear_seats(m: SaveModel, raw: Seq<u8>, seats: Seq<usize>, k: int) -> Option<Seq<u8>>
    decreases seats.len() - k,
{
    if k < 0 || k >= seats.len() {
        Some(raw)
    } else {
        let next = match spec_comp_obj(m, seats[k], "ActorAttachments"@) {
            None => None,
            Some(None) => Some(raw),
            Some(Some(aac)) => match object_props(m, aac) {
                None => None,
                Some(props) => spec_put_voff(
                    raw,
                    m.objects[aac as int].data_off as int,
                    props,
                    "ExitSuppressionCount"@,
                    le_bytes_u32(0),
                ),
            },
        };
        match next {
            None => None,
            Some(r) => clear_seats(m, r, seats, k + 1),
        }
    }
}

/// `raw` with the automation marked not lost and its sequence state set
/// to "landed".
pub open spec fn patch_automation(m: SaveModel, raw: Seq<u8>, r: Option<RefData>, auto: CompData) -> Option<
    Seq<u8>,
> {
    match spec_put_voff(raw, auto.base, auto.props, "bIsShuttleLost"@, seq![0u8]) {
        None => None,
        Some(x) => match spec_find_voff(auto.props, "ShuttleSequenceState"@) {
            None => Some(x),
            Some(v) => match landed_index(m, r) {
                None => None,
                Some(None) => Some(x),
                Some(Some(idx)) => spec_put(x, auto.base + v, le_bytes_u32(idx as u32)),
            },
        },
    }
}

/// `raw` with the navigation's current and target orbiting bodies and
/// components set to -1.
pub open spec fn patch_orbit(raw: Seq<u8>, nav: CompData) -> Option<Seq<u8>> {
    let minus_one = le_bytes_u32(0xffff_ffff);
    match spec_put_voff(raw, nav.base, nav.props, "ReplicatedData.CurrentOrbitingBody"@, minus_one) {
        None => None,
        Some(x) => match spec_put_voff(x, nav.base, nav.props, "ReplicatedData.TargetOrbitingBody"@, minus_one) {
            None => None,
            Some(y) => match spec_put_voff(y, nav.base, nav.props, "ReplicatedData.CurrentComponent"@, minus_one) {
                None => None,
                Some(z) => spec_put_voff(z, nav.base, nav.props, "ReplicatedData.TargetComponent"@, minus_one),
            },
        },
    }
}

/// `raw` with the navigation's source body and its current and target
/// transforms (rotation, then translation) copied from the reference.
pub open spec fn patch_from_ref(m: SaveModel, raw: Seq<u8>, r: Option<RefData>, nav: CompData) -> Option<
    Seq<u8>,
> {
    match copy_from_ref(m, raw, r, nav, "ReplicatedData.SourceOrbitingBody"@, 4) {
        None => None,
        Some(x1) => match copy_from_ref(m, x1, r, nav, "ReplicatedData.CurrentTransform.Rotation"@, 16) {
            None => None,
            Some(x2) => match copy_from_ref(m, x2, r, nav, "ReplicatedData.CurrentTransform.Translation"@, 12) {
                None => None,
                Some(x3) => match copy_from_ref(m, x3, r, nav, "ReplicatedData.TargetTransform.Rotation"@, 16) {
                    None => None,
                    Some(x4) => copy_from_ref(m, x4, r, nav, "ReplicatedData.TargetTransform.Translation"@, 12),
                },
            },
        },
    }
}

/// `raw` with the navigation's current and target component transforms
/// set to rotation `rot` and translation `pos`.
pub open spec fn patch_component_transforms(raw: Seq<u8>, nav: CompData, rot: Seq<u8>, pos: Seq<u8>) -> Option<
    Seq<u8>,
> {
    match spec_put_voff(raw, nav.base, nav.props, "ReplicatedData.CurrentComponentTransform.Rotation"@, rot) {
        None => None,
        Some(x1) => match spec_put_voff(x1, nav.base, nav.props, "ReplicatedData.CurrentComponentTransform.Translation"@, pos) {
            None => None,
            Some(x2) => match spec_put_voff(x2, nav.base, nav.props, "ReplicatedData.TargetComponentTransform.Rotation"@, rot) {
                None => None,
                Some(x3) => spec_put_voff(x3, nav.base, nav.props, "ReplicatedData.TargetComponentTransform.Translation"@, pos),
            },
        },
    }
}

/// `raw` with the ship actor's rotation set to `rot` and its translation to
/// `pos`; `None` where the ship has no actor.
pub open spec fn patch_actor(m: SaveModel, raw: Seq<u8>, ship_i: usize, rot: Seq<u8>, pos: Seq<u8>) -> Option<
    Seq<u8>,
> {
    match spec_actor_of(m, ship_i) {
        None => None,
        Some(a) => match spec_put(raw, a.rot_off as int, rot) {
            None => None,
            Some(y) => spec_put(y, a.trans_off as int, pos),
        },
    }
}

/// The level data once the ship's state is patched: the ship is no longer
/// lost; its sequence state is "landed"; it orbits nothing; its source body
/// and its current and target transforms are copied from the reference
/// shuttle; its component transforms and its actor transform take
/// rotation `rot` and translation `pos`; and the exit suppression of its
/// seats is cleared. `None` where a step reads or writes past the data.
#[verifier::opaque]
pub open spec fn spec_land_writes(
    m: SaveModel,
    ship_i: usize,
    r: Option<RefData>,
    nav: CompData,
    auto: CompData,
    rot: Seq<u8>,
    pos: Seq<u8>,
) -> Option<Seq<u8>> {
    match patch_automation(m, m.raw, r, auto) {
        None => None,
        Some(x1) => match patch_orbit(x1, nav) {
            None => None,
            Some(x2) => match patch_from_ref(m, x2, r, nav) {
                None => None,
                Some(x3) => match patch_component_transforms(x3, nav, rot, pos) {
                    None => None,
                    Some(x4) => match patch_actor(m, x4, ship_i, rot, pos) {
                        None => None,
                        Some(x5) => match spec_ship_seats(m, ship_i) {
                            None => None,
                            Some(seats) => clear_seats(m, x5, seats, 0),
                        },
                    },
                },
            },
        },
    }
}

/// The outcome of landing a ship.
pub enum LandOutcome {
    /// The rebuilt save file.
    Patched(Seq<u8>),
    NoNavigation,
    NoAutomation,
    /// A lookup or a read failed on malformed data.
    Malformed,
}

/// The twelve bytes of a translation given by the bit patterns of its
/// three `f32` coordinates.
pub open spec fn pos_bytes(pos: (u32, u32, u32)) -> Seq<u8> {
    le_bytes_u32(pos.0) + le_bytes_u32(pos.1) + le_bytes_u32(pos.2)
}

/// Landing ship `ship_i` on pad `pad_i` of save `m`, with reference
/// shuttle `ref_i` (whose rotation is used, else the pad's) and new
/// translation `pos` (bit patterns of three `f32`).
pub open spec fn spec_apply_landing(
    m: SaveModel,
    ship_i: usize,
    pad_i: usize,
    ref_i: Option<usize>,
    pos: (u32, u32, u32),
) -> LandOutcome {
    let src = match ref_i {
        Some(r) => r,
        None => pad_i,
    };
    match spec_actor_of(m, src) {
        None => LandOutcome::Malformed,
        Some(sa) => {
            let rot = m.raw.subrange(sa.rot_off as int, sa.rot_off + 16);
            match spec_comp_obj(m, ship_i, "OrbitalNavigation"@) {
                None => LandOutcome::Malformed,
                Some(None) => LandOutcome::NoNavigation,
                Some(Some(nav_o)) => match spec_comp_obj(m, ship_i, "ShuttleAutomation"@) {
                    None => LandOutcome::Malformed,
                    Some(None) => LandOutcome::NoAutomation,
                    Some(Some(auto_o)) => match (object_props(m, nav_o), object_props(m, auto_o)) {
                        (Some(np), Some(ap)) => {
                            let nav = CompData { base: m.objects[nav_o as int].data_off as int, props: np };
                            let auto = CompData { base: m.objects[auto_o as int].data_off as int, props: ap };
                            let rd: Option<Option<RefData>> = match ref_i {
                                None => Some(None),
                                Some(ri) => match spec_ref_data(m, ri) {
                                    None => None,
                                    Some(d) => Some(Some(d)),
                                },
                            };
                            match rd {
                                None => LandOutcome::Malformed,
                                Some(r) => match spec_land_writes(m, ship_i, r, nav, auto, rot, pos_bytes(pos)) {
                                    Some(raw) => if m.header.len() >= 12 {
                                        LandOutcome::Patched(spec_repack(m.header, raw))
                                    } else {
                                        LandOutcome::Malformed
                                    },
                                    None => LandOutcome::Malformed,
                                },
                            }
                        },
                        _ => LandOutcome::Malformed,
                    },
                },
            }
        },
    }
}

/// A component's blob start and decoded properties.
pub struct CompBlob {
    pub base: usize,
    pub props: Vec<Prop>,
}

impl View for CompBlob {
    type V = CompData;

    open spec fn view(&self) -> CompData {
        CompData { base: self.base as int, props: props_view(self.props@) }
    }
}

/// The reference shuttle's components.
pub struct RefBlobs {
    pub nav: CompBlob,
    pub auto: CompBlob,
}

impl View for RefBlobs {
    type V = RefData;

    open spec fn view(&self) -> RefData {
        RefData { nav: self.nav@, auto: self.auto@ }
    }
}

/// The model of an optional reference.
pub open spec fn ref_view(r: Option<&RefBlobs>) -> Option<RefData> {
    match r {
        Some(x) => Some(x@),
        None => None,
    }
}

/// Writes `bytes` at `off` when they fit.
fn put(raw: &mut Vec<u8>, off: usize, bytes: &[u8]) -> (ok: bool)
    ensures
        ok == (spec_put(old(raw)@, off as int, bytes@) is Some),
        ok ==> final(raw)@ == spec_put(old(raw)@, off as int, bytes@).unwrap(),
{
    if off > raw.len() || raw.len() - off < bytes.len() {
        return false;
    }
    let mut i: usize = 0;
    while i < bytes.len()
        invariant
            off + bytes@.len() <= old(raw)@.len(),
            off + bytes.len() <= raw.len(),
            raw@.len() == old(raw)@.len(),
            i <= bytes@.len(),
            raw@ == old(raw)@.take(off as int) + bytes@.take(i as int) + old(raw)@.skip(off + i),
        decreases bytes.len() - i,
    {
        raw.set(off + i, bytes[i]);
        i += 1;
        assert(raw@ =~= old(raw)@.take(off as int) + bytes@.take(i as int) + old(raw)@.skip(off + i));
    }
    assert(bytes@.take(bytes@.len() as int) =~= bytes@);
    true
}

/// Writes `bytes` at `base` plus the offset of property `path`, if any.
fn put_voff(raw: &mut Vec<u8>, base: usize, props: &[Prop], path: &str, bytes: &[u8]) -> (ok: bool)
    ensures
        ok == (spec_put_voff(old(raw)@, base as int, props_view(props@), path@, bytes@) is Some),
        ok ==> final(raw)@ == spec_put_voff(old(raw)@, base as int, props_view(props@), path@, bytes@).unwrap(),
{
    match find_voff(props, path) {
        None => true,
        Some(v) => {
            let len = raw.len();
            if base > usize::MAX - v {
                assert(old(raw)@.len() == len);
                return false;
            }
            put(raw, base + v, bytes)
        },
    }
}

/// The four little-endian bytes of `v`.
fn le_vec(v: u32) -> (r: Vec<u8>)
    ensures
        r@ == le_bytes_u32(v),
{
    let mut r: Vec<u8> = Vec::new();
    r.push((v % 0x100) as u8);
    r.push(((v / 0x100) % 0x100) as u8);
    r.push(((v / 0x1_0000) % 0x100) as u8);
    r.push((v / 0x100_0000) as u8);
    assert(r@ =~= le_bytes_u32(v));
    r
}

/// The decoded properties of object `o` (see [`object_props`]).
fn object_props_of(save: &Save, o: usize) -> (r: Option<Vec<Prop>>)
    requires
        save.wf(),
    ensures
        match object_props(save@, o) {
            Some(ps) => r matches Some(v) && props_view(v@) == ps,
            None => r is None,
        },
{
    if o >= save.objects.len() {
        return None;
    }
    let blob = object_blob(save, o);
    try_decode_props(blob.as_slice(), save)
}

/// The component named `name` of object `obj` (see [`required_comp`]).
fn required_comp_of(save: &Save, obj: usize, name: &str) -> (r: Option<CompBlob>)
    requires
        save.wf(),
    ensures
        match required_comp(save@, obj, name@) {
            Some(c) => r matches Some(x) && x@ == c,
            None => r is None,
        },
{
    match save.comp_obj(obj, name) {
        Some(Some(c)) => match object_props_of(save, c) {
            Some(props) => Some(CompBlob { base: save.objects[c].data_off, props }),
            None => None,
        },
        _ => None,
    }
}

/// The components of reference shuttle `ri` (see [`spec_ref_data`]).
fn ref_data_of(save: &Save, ri: usize) -> (r: Option<RefBlobs>)
    requires
        save.wf(),
    ensures
        match spec_ref_data(save@, ri) {
            Some(d) => r matches Some(x) && x@ == d,
            None => r is None,
        },
{
    let nav = match required_comp_of(save, ri, "OrbitalNavigation") {
        Some(c) => c,
        None => return None,
    };
    let auto = match required_comp_of(save, ri, "ShuttleAutomation") {
        Some(c) => c,
        None => return None,
    };
    Some(RefBlobs { nav, auto })
}

/// Copies `n` bytes of the level data at `base` plus the offset of
/// property `path` (see [`ref_bytes`]).
fn ref_bytes_of(save: &Save, base: usize, props: &[Prop], path: &str, n: usize) -> (r: Option<
    Option<Vec<u8>>,
>)
    ensures
        match ref_bytes(save@, base as int, props_view(props@), path@, n as int) {
            Some(Some(b)) => r matches Some(Some(x)) && x@ == b,
            Some(None) => r == Some(None::<Vec<u8>>),
            None => r is None,
        },
{
    match find_voff(props, path) {
        None => Some(None),
        Some(rv) => {
            let len = save.raw.len();
            if base > len || rv > len - base || n > len - base - rv {
                return None;
            }
            let off = base + rv;
            let mut out: Vec<u8> = Vec::new();
            out.extend_from_slice(&save.raw.as_slice()[off..off + n]);
            assert(out@ =~= save@.raw.subrange(off as int, off + n));
            Some(Some(out))
        },
    }
}

/// The name index to record for the landed state (see [`landed_index`]).
fn landed_index_of(save: &Save, r: Option<&RefBlobs>) -> (idx: Option<Option<i32>>)
    ensures
        idx == landed_index(save@, ref_view(r)),
{
    let from_ref: Option<Option<i32>> = match r {
        None => Some(None),
        Some(rd) => match ref_bytes_of(save, rd.auto.base, rd.auto.props.as_slice(), "ShuttleSequenceState", 4) {
            None => None,
            Some(None) => Some(None),
            Some(Some(b)) => {
                let x = crate::bytes::read_i32_at(b.as_slice(), 0);
                proof {
                    let rv = spec_find_voff(rd.auto@.props, "ShuttleSequenceState"@).unwrap();
                    assert(b@ == save@.raw.subrange(rd.auto.base + rv, rd.auto.base + rv + 4));
                    assert(le_i32(b@, 0) == le_i32(save@.raw, rd.auto.base + rv));
                }
                Some(Some(x))
            },
        },
    };
    match from_ref {
        None => None,
        Some(Some(x)) => Some(Some(x)),
        Some(None) => Some(save.find_string_index("EShuttleSequenceState::Landed")),
    }
}

/// Copies property `path` of the reference navigation to the ship's
/// navigation (see [`copy_from_ref`]).
fn copy_ref(
    save: &Save,
    raw: &mut Vec<u8>,
    r: Option<&RefBlobs>,
    nav: &CompBlob,
    path: &str,
    n: usize,
) -> (ok: bool)
    ensures
        ok == (copy_from_ref(save@, old(raw)@, ref_view(r), nav@, path@, n as int) is Some),
        ok ==> final(raw)@ == copy_from_ref(save@, old(raw)@, ref_view(r), nav@, path@, n as int).unwrap(),
{
    match r {
        None => true,
        Some(rd) => match find_voff(nav.props.as_slice(), path) {
            None => true,
            Some(dv) => match ref_bytes_of(save, rd.nav.base, rd.nav.props.as_slice(), path, n) {
                None => false,
                Some(None) => true,
                Some(Some(b)) => {
                    let len = raw.len();
                    if nav.base > usize::MAX - dv {
                        assert(old(raw)@.len() == len);
                        return false;
                    }
                    put(raw, nav.base + dv, b.as_slice())
                },
            },
        },
    }
}

/// Clears `ExitSuppressionCount` in the attachments of each seat (see
/// [`clear_seats`]).
fn clear_seats_in(save: &Save, raw: &mut Vec<u8>, seats: &Vec<usize>) -> (ok: bool)
    requires
        save.wf(),
    ensures
        ok == (clear_seats(save@, old(raw)@, seats@, 0) is Some),
        ok ==> final(raw)@ == clear_seats(save@, old(raw)@, seats@, 0).unwrap(),
{
    let zeros = le_vec(0);
    let mut k: usize = 0;
    while k < seats.len()
        invariant
            save.wf(),
            zeros@ == le_bytes_u32(0),
            k <= seats@.len(),
            clear_seats(save@, old(raw)@, seats@, 0) == clear_seats(save@, raw@, seats@, k as int),
        decreases seats.len() - k,
    {
        let si = seats[k];
        match save.comp_obj(si, "ActorAttachments") {
            None => return false,
            Some(None) => {},
            Some(Some(aac)) => match object_props_of(save, aac) {
                None => return false,
                Some(props) => {
                    if !put_voff(raw, save.objects[aac].data_off, props.as_slice(), "ExitSuppressionCount", zeros.as_slice()) {
                        return false;
                    }
                },
            },
        }
        k += 1;
    }
    true
}

/// Marks the automation not lost and landed (see [`patch_automation`]).
fn patch_automation_in(save: &Save, raw: &mut Vec<u8>, r: Option<&RefBlobs>, auto: &CompBlob) -> (ok: bool)
    ensures
        ok == (patch_automation(save@, old(raw)@, ref_view(r), auto@) is Some),
        ok ==> final(raw)@ == patch_automation(save@, old(raw)@, ref_view(r), auto@).unwrap(),
{
    let mut zero1: Vec<u8> = Vec::new();
    zero1.push(0);
    assert(zero1@ =~= seq![0u8]);
    if !put_voff(raw, auto.base, auto.props.as_slice(), "bIsShuttleLost", zero1.as_slice()) {
        return false;
    }
    match find_voff(auto.props.as_slice(), "ShuttleSequenceState") {
        None => true,
        Some(v) => match landed_index_of(save, r) {
            None => false,
            Some(None) => true,
            Some(Some(idx)) => {
                let len = raw.len();
                if auto.base > usize::MAX - v {
                    assert(old(raw)@.len() == len);
                    return false;
                }
                let b = le_vec(idx as u32);
                put(raw, auto.base + v, b.as_slice())
            },
        },
    }
}

/// Clears the navigation's orbit (see [`patch_orbit`]).
fn patch_orbit_in(raw: &mut Vec<u8>, nav: &CompBlob) -> (ok: bool)
    ensures
        ok == (patch_orbit(old(raw)@, nav@) is Some),
        ok ==> final(raw)@ == patch_orbit(old(raw)@, nav@).unwrap(),
{
    let minus_one = le_vec(0xffff_ffff);
    let p = nav.props.as_slice();
    put_voff(raw, nav.base, p, "ReplicatedData.CurrentOrbitingBody", minus_one.as_slice())
        && put_voff(raw, nav.base, p, "ReplicatedData.TargetOrbitingBody", minus_one.as_slice())
        && put_voff(raw, nav.base, p, "ReplicatedData.CurrentComponent", minus_one.as_slice())
        && put_voff(raw, nav.base, p, "ReplicatedData.TargetComponent", minus_one.as_slice())
}

/// Copies the reference's landed state (see [`patch_from_ref`]).
fn patch_from_ref_in(save: &Save, raw: &mut Vec<u8>, r: Option<&RefBlobs>, nav: &CompBlob) -> (ok: bool)
    ensures
        ok == (patch_from_ref(save@, old(raw)@, ref_view(r), nav@) is Some),
        ok ==> final(raw)@ == patch_from_ref(save@, old(raw)@, ref_view(r), nav@).unwrap(),
{
    copy_ref(save, raw, r, nav, "ReplicatedData.SourceOrbitingBody", 4)
        && copy_ref(save, raw, r, nav, "ReplicatedData.CurrentTransform.Rotation", 16)
        && copy_ref(save, raw, r, nav, "ReplicatedData.CurrentTransform.Translation", 12)
        && copy_ref(save, raw, r, nav, "ReplicatedData.TargetTransform.Rotation", 16)
        && copy_ref(save, raw, r, nav, "ReplicatedData.TargetTransform.Translation", 12)
}

/// Sets the navigation's component transforms (see
/// [`patch_component_transforms`]).
fn patch_component_transforms_in(raw: &mut Vec<u8>, nav: &CompBlob, rot: &[u8], pos: &[u8]) -> (ok: bool)
    ensures
        ok == (patch_component_transforms(old(raw)@, nav@, rot@, pos@) is Some),
        ok ==> final(raw)@ == patch_component_transforms(old(raw)@, nav@, rot@, pos@).unwrap(),
{
    let p = nav.props.as_slice();
    put_voff(raw, nav.base, p, "ReplicatedData.CurrentComponentTransform.Rotation", rot)
        && put_voff(raw, nav.base, p, "ReplicatedData.CurrentComponentTransform.Translation", pos)
        && put_voff(raw, nav.base, p, "ReplicatedData.TargetComponentTransform.Rotation", rot)
        && put_voff(raw, nav.base, p, "ReplicatedData.TargetComponentTransform.Translation", pos)
}

/// Sets the ship actor's transform (see [`patch_actor`]).
fn patch_actor_in(save: &Save, raw: &mut Vec<u8>, ship_i: usize, rot: &[u8], pos: &[u8]) -> (ok: bool)
    requires
        save.wf(),
    ensures
        ok == (patch_actor(save@, old(raw)@, ship_i, rot@, pos@) is Some),
        ok ==> final(raw)@ == patch_actor(save@, old(raw)@, ship_i, rot@, pos@).unwrap(),
{
    match save.actor_of(ship_i) {
        None => false,
        Some(a) => put(raw, a.rot_off, rot) && put(raw, a.trans_off, pos),
    }
}

/// The level data once the ship's state is patched (see
/// [`spec_land_writes`]).
fn land_writes(
    save: &Save,
    ship_i: usize,
    r: Option<&RefBlobs>,
    nav: &CompBlob,
    auto: &CompBlob,
    rot: &[u8],
    pos: &[u8],
) -> (out: Option<Vec<u8>>)
    requires
        save.wf(),
    ensures
        match spec_land_writes(save@, ship_i, ref_view(r), nav@, auto@, rot@, pos@) {
            Some(x) => out matches Some(v) && v@ == x,
            None => out is None,
        },
{
    reveal(spec_land_writes);
    let mut raw: Vec<u8> = Vec::new();
    raw.extend_from_slice(save.raw.as_slice());
    assert(raw@ =~= save@.raw);
    if !patch_automation_in(save, &mut raw, r, auto) {
        return None;
    }
    if !patch_orbit_in(&mut raw, nav) {
        return None;
    }
    if !patch_from_ref_in(save, &mut raw, r, nav) {
        return None;
    }
    if !patch_component_transforms_in(&mut raw, nav, rot, pos) {
        return None;
    }
    if !patch_actor_in(save, &mut raw, ship_i, rot, pos) {
        return None;
    }
    let seats = match ship_seats(save, ship_i) {
        None => return None,
        Some(s) => s,
    };
    if !clear_seats_in(save, &mut raw, &seats) {
        return None;
    }
    Some(raw)
}

/// Message of [`apply_landing`] for a ship without navigation.
pub open spec fn msg_no_navigation() -> Seq<char> {
    "ship has no OrbitalNavigation"@
}

/// Message of [`apply_landing`] for a ship without automation.
pub open spec fn msg_no_automation() -> Seq<char> {
    "ship has no ShuttleAutomation"@
}

/// Lands ship `ship_i` on pad `pad_i` and rebuilds the save file (see
/// [`spec_apply_landing`]). `pos` holds the bit patterns of the three
/// `f32` coordinates the ship is put at.
pub fn apply_landing(
    save: &Save,
    ship_i: usize,
    pad_i: usize,
    ref_i: Option<usize>,
    pos: (u32, u32, u32),
) -> (r: Result<Vec<u8>, String>)
    requires
        save.wf(),
    ensures
        match spec_apply_landing(save@, ship_i, pad_i, ref_i, pos) {
            LandOutcome::Patched(b) => r matches Ok(v) && v@ == b,
            LandOutcome::NoNavigation => r matches Err(e) && e@ == msg_no_navigation(),
            LandOutcome::NoAutomation => r matches Err(e) && e@ == msg_no_automation(),
            LandOutcome::Malformed => r matches Err(e) && e@ == msg_malformed(),
        },
{
    let src = match ref_i {
        Some(x) => x,
        None => pad_i,
    };
    let rot_off = match save.actor_of(src) {
        None => return Err(String::from_str("save data is truncated or malformed")),
        Some(a) => a.rot_off,
    };
    let len = save.raw.len();
    let nact = save.actors.len();
    proof {
        let a = spec_actor_of(save@, src).unwrap();
        assert(save@.actors.len() == nact);
        crate::save::lemma_actor_index_map(save@.actors);
        assert(a == save@.actors[save@.abo[src as i32] as int]);
        assert(rot_off + 16 <= len);
    }
    let mut rot: Vec<u8> = Vec::new();
    rot.extend_from_slice(&save.raw.as_slice()[rot_off..rot_off + 16]);
    let nav_o = match save.comp_obj(ship_i, "OrbitalNavigation") {
        None => return Err(String::from_str("save data is truncated or malformed")),
        Some(None) => return Err(String::from_str("ship has no OrbitalNavigation")),
        Some(Some(o)) => o,
    };
    let auto_o = match save.comp_obj(ship_i, "ShuttleAutomation") {
        None => return Err(String::from_str("save data is truncated or malformed")),
        Some(None) => return Err(String::from_str("ship has no ShuttleAutomation")),
        Some(Some(o)) => o,
    };
    let nav_props = match object_props_of(save, nav_o) {
        None => return Err(String::from_str("save data is truncated or malformed")),
        Some(p) => p,
    };
    let auto_props = match object_props_of(save, auto_o) {
        None => return Err(String::from_str("save data is truncated or malformed")),
        Some(p) => p,
    };
    let nav = CompBlob { base: save.objects[nav_o].data_off, props: nav_props };
    let auto = CompBlob { base: save.objects[auto_o].data_off, props: auto_props };
    let rd: Option<RefBlobs> = match ref_i {
        None => None,
        Some(ri) => match ref_data_of(save, ri) {
            None => return Err(String::from_str("save data is truncated or malformed")),
            Some(d) => Some(d),
        },
    };
    let mut posb = le_vec(pos.0);
    let b1 = le_vec(pos.1);
    let b2 = le_vec(pos.2);
    posb.extend_from_slice(b1.as_slice());
    posb.extend_from_slice(b2.as_slice());
    assert(posb@ =~= pos_bytes(pos));
    assert(rot@ =~= save@.raw.subrange(rot_off as int, rot_off + 16));
    let raw = match land_writes(save, ship_i, rd.as_ref(), &nav, &auto, rot.as_slice(), posb.as_slice()) {
        None => return Err(String::from_str("save data is truncated or malformed")),
        Some(x) => x,
    };
    if save.header.len() < 12 {
        return Err(String::from_str("save data is truncated or malformed"));
    }
    Ok(repack(save.header.as_slice(), raw.as_slice()))
}

/// Shuttles among objects `0..n`, other than `ship_i`, that may serve as
/// the landed reference: not lost and with an actor, in object order;
/// `None` where telling whether one is lost fails.
pub open spec fn candidates_upto(m: SaveModel, ship_i: usize, n: nat) -> Option<Seq<usize>>
    decreases n,
{
    if n == 0 {
        Some(Seq::empty())
    } else {
        match candidates_upto(m, ship_i, (n - 1) as nat) {
            None => None,
            Some(c) => {
                let i = n - 1;
                if i == ship_i || !spec_is_shuttle(trim_nul(m.objects[i].object_type)) {
                    Some(c)
                } else {
                    match spec_shuttle_is_lost(m, i as usize) {
                        None => None,
                        Some(true) => Some(c),
                        Some(false) => if spec_actor_of(m, i as usize) is Some {
                            Some(c.push(i as usize))
                        } else {
                            Some(c)
                        },
                    }
                }
            },
        }
    }
}

proof fn lemma_candidates_fail(m: SaveModel, ship_i: usize, i: nat, n: nat)
    requires
        i <= n,
        candidates_upto(m, ship_i, i) is None,
    ensures
        candidates_upto(m, ship_i, n) is None,
    decreases n,
{
    if n > i {
        lemma_candidates_fail(m, ship_i, i, (n - 1) as nat);
    }
}

/// Each landing reference is a shuttle other than the ship, not lost, with
/// an actor; they come in object order.
pub proof fn lemma_candidates(m: SaveModel, ship_i: usize, n: nat)
    requires
        n <= m.objects.len(),
        m.objects.len() <= usize::MAX,
    ensures
        candidates_upto(m, ship_i, n) matches Some(c) ==> {
            &&& forall|j: int|
                0 <= j < c.len() ==> {
                    &&& (#[trigger] c[j]) < n
                    &&& c[j] != ship_i
                    &&& spec_is_shuttle(trim_nul(m.objects[c[j] as int].object_type))
                    &&& spec_shuttle_is_lost(m, c[j]) == Some(false)
                    &&& spec_actor_of(m, c[j]) is Some
                }
            &&& forall|j: int, k: int| 0 <= j < k < c.len() ==> c[j] < c[k]
            &&& forall|i: usize|
                i < n && i != ship_i && spec_is_shuttle(trim_nul(m.objects[i as int].object_type))
                    && #[trigger] spec_shuttle_is_lost(m, i) == Some(false) && spec_actor_of(m, i) is Some
                    ==> c.contains(i)
        },
    decreases n,
{
    if n > 0 {
        lemma_candidates(m, ship_i, (n - 1) as nat);
        if let Some(c0) = candidates_upto(m, ship_i, (n - 1) as nat) {
            if let Some(c) = candidates_upto(m, ship_i, n) {
                assert forall|i: usize|
                    i < n && i != ship_i && spec_is_shuttle(trim_nul(m.objects[i as int].object_type))
                        && #[trigger] spec_shuttle_is_lost(m, i) == Some(false) && spec_actor_of(m, i) is Some
                    implies c.contains(i) by {
                    if i < n - 1 {
                        let j = choose|j: int| 0 <= j < c0.len() && c0[j] == i;
                        assert(c[j] == i);
                    } else {
                        assert(c[c0.len() as int] == i);
                    }
                }
            }
        }
    }
}

/// What a landing plan answers: a planned landing moves the first object
/// named `ship_name`, a shuttle, onto the first object named `pad_name`,
/// which has an actor; "ship not found" and "pad not found" mean that no
/// object has that name; "not a shuttle" and "pad without transform" name
/// the failing check on the objects found.
pub proof fn lemma_plan_outcome(m: SaveModel, ship_name: Seq<char>, pad_name: Seq<char>)
    requires
        m.objects.len() <= usize::MAX,
    ensures
        spec_plan_landing(m, ship_name, pad_name) matches PlanOutcome::Planned { ship_i, pad_i, candidates }
            ==> {
            &&& ship_i < m.objects.len()
            &&& spec_name(m.strings, m.objects[ship_i as int].name_index) == ship_name
            &&& forall|j: int|
                0 <= j < ship_i ==> spec_name(m.strings, (#[trigger] m.objects[j]).name_index) != ship_name
            &&& spec_is_shuttle(trim_nul(m.objects[ship_i as int].object_type))
            &&& pad_i < m.objects.len()
            &&& spec_name(m.strings, m.objects[pad_i as int].name_index) == pad_name
            &&& forall|j: int|
                0 <= j < pad_i ==> spec_name(m.strings, (#[trigger] m.objects[j]).name_index) != pad_name
            &&& spec_actor_of(m, pad_i) is Some
        },
        spec_plan_landing(m, ship_name, pad_name) is ShipNotFound ==> forall|j: int|
            0 <= j < m.objects.len() ==> spec_name(m.strings, (#[trigger] m.objects[j]).name_index) != ship_name,
        spec_plan_landing(m, ship_name, pad_name) is PadNotFound ==> forall|j: int|
            0 <= j < m.objects.len() ==> spec_name(m.strings, (#[trigger] m.objects[j]).name_index) != pad_name,
        spec_plan_landing(m, ship_name, pad_name) is NotAShuttle ==> exists|i: int|
            0 <= i < m.objects.len() && spec_name(m.strings, (#[trigger] m.objects[i]).name_index) == ship_name
                && !spec_is_shuttle(trim_nul(m.objects[i].object_type)),
        spec_plan_landing(m, ship_name, pad_name) is PadWithoutTransform ==> exists|i: usize|
            i < m.objects.len() && spec_name(m.strings, m.objects[i as int].name_index) == pad_name
                && #[trigger] spec_actor_of(m, i) is None,
{
    crate::save::lemma_obj_search_names(m.strings, m.objects, ship_name, 0);
    crate::save::lemma_obj_search_names(m.strings, m.objects, pad_name, 0);
    if let Some(Some(si)) = spec_obj_search(m.strings, m.objects, ship_name, 0) {
        assert(spec_name(m.strings, m.objects[si as int].name_index) == ship_name);
        if let Some(Some(pi)) = spec_obj_search(m.strings, m.objects, pad_name, 0) {
            assert(spec_name(m.strings, m.objects[pi as int].name_index) == pad_name);
        }
    }
}

/// The reference candidates of a planned landing are exactly the objects
/// other than the ship that are shuttles, are not lost and have an actor.
pub proof fn lemma_plan_candidates(m: SaveModel, ship_name: Seq<char>, pad_name: Seq<char>)
    requires
        m.objects.len() <= usize::MAX,
    ensures
        spec_plan_landing(m, ship_name, pad_name) matches PlanOutcome::Planned { ship_i, pad_i, candidates }
            ==> forall|i: usize|
            #![trigger candidates.contains(i)]
            #![trigger spec_shuttle_is_lost(m, i)]
            candidates.contains(i) <==> {
                &&& i < m.objects.len()
                &&& i != ship_i
                &&& spec_is_shuttle(trim_nul(m.objects[i as int].object_type))
                &&& spec_shuttle_is_lost(m, i) == Some(false)
                &&& spec_actor_of(m, i) is Some
            },
{
    if let PlanOutcome::Planned { ship_i, pad_i, candidates } = spec_plan_landing(m, ship_name, pad_name) {
        lemma_candidates(m, ship_i, m.objects.len() as nat);
        assert forall|i: usize| #![trigger candidates.contains(i)] candidates.contains(i) implies {
            &&& i < m.objects.len()
            &&& i != ship_i
            &&& spec_is_shuttle(trim_nul(m.objects[i as int].object_type))
            &&& spec_shuttle_is_lost(m, i) == Some(false)
            &&& spec_actor_of(m, i) is Some
        } by {
            let j = choose|j: int| 0 <= j < candidates.len() && candidates[j] == i;
            assert(candidates[j] < m.objects.len());
        }
    }
}

/// The ship and pad that a landing moves, and the shuttles whose landed
/// state may serve as reference.
pub struct LandingPlan {
    pub ship_i: usize,
    pub pad_i: usize,
    pub candidates: Vec<usize>,
}

/// The outcome of looking up a landing.
pub enum PlanOutcome {
    Planned { ship_i: usize, pad_i: usize, candidates: Seq<usize> },
    ShipNotFound,
    PadNotFound,
    NotAShuttle,
    PadWithoutTransform,
    Malformed,
}

/// Looking up the ship named `ship_name` and the pad named `pad_name`:
/// the ship must be a shuttle and the pad must have a transform.
pub open spec fn spec_plan_landing(m: SaveModel, ship_name: Seq<char>, pad_name: Seq<char>) -> PlanOutcome {
    match spec_obj_search(m.strings, m.objects, ship_name, 0) {
        None => PlanOutcome::Malformed,
        Some(None) => PlanOutcome::ShipNotFound,
        Some(Some(ship_i)) => match spec_obj_search(m.strings, m.objects, pad_name, 0) {
            None => PlanOutcome::Malformed,
            Some(None) => PlanOutcome::PadNotFound,
            Some(Some(pad_i)) => if !spec_is_shuttle(trim_nul(m.objects[ship_i as int].object_type)) {
                PlanOutcome::NotAShuttle
            } else if spec_actor_of(m, pad_i) is None {
                PlanOutcome::PadWithoutTransform
            } else {
                match candidates_upto(m, ship_i, m.objects.len()) {
                    None => PlanOutcome::Malformed,
                    Some(c) => PlanOutcome::Planned { ship_i, pad_i, candidates: c },
                }
            },
        },
    }
}

/// Message of [`plan_landing`] for an unknown ship.
pub open spec fn msg_ship_not_found() -> Seq<char> {
    "ship not found"@
}

/// Message of [`plan_landing`] for an unknown pad.
pub open spec fn msg_pad_not_found() -> Seq<char> {
    "pad not found"@
}

/// Message of [`plan_landing`] for a ship that is not a shuttle.
pub open spec fn msg_not_a_shuttle() -> Seq<char> {
    "selected object is not a shuttle"@
}

/// Message of [`plan_landing`] for a pad without transform.
pub open spec fn msg_pad_without_transform() -> Seq<char> {
    "pad has no transform"@
}

/// Looks up the ship and the pad of a landing (see [`spec_plan_landing`]).
#[verifier::loop_isolation(false)]
pub fn plan_landing(save: &Save, ship_name: &str, pad_name: &str) -> (r: Result<LandingPlan, String>)
    requires
        save.wf(),
    ensures
        match spec_plan_landing(save@, ship_name@, pad_name@) {
            PlanOutcome::Planned { ship_i, pad_i, candidates } => r matches Ok(p) && p.ship_i
                == ship_i && p.pad_i == pad_i && p.candidates@ == candidates,
            PlanOutcome::ShipNotFound => r matches Err(e) && e@ == msg_ship_not_found(),
            PlanOutcome::PadNotFound => r matches Err(e) && e@ == msg_pad_not_found(),
            PlanOutcome::NotAShuttle => r matches Err(e) && e@ == msg_not_a_shuttle(),
            PlanOutcome::PadWithoutTransform => r matches Err(e) && e@ == msg_pad_without_transform(),
            PlanOutcome::Malformed => r matches Err(e) && e@ == msg_malformed(),
        },
{
    let ship_i = match obj_by_name(save, ship_name) {
        None => return Err(String::from_str("save data is truncated or malformed")),
        Some(None) => return Err(String::from_str("ship not found")),
        Some(Some(i)) => i,
    };
    let pad_i = match obj_by_name(save, pad_name) {
        None => return Err(String::from_str("save data is truncated or malformed")),
        Some(None) => return Err(String::from_str("pad not found")),
        Some(Some(i)) => i,
    };
    proof {
        assert(save@.objects.len() == save.objects.len());
        crate::save::lemma_obj_search_names(save@.strings, save@.objects, ship_name@, 0);
    }
    let ship_type = clean(save.objects[ship_i].object_type.as_str());
    if !is_shuttle(ship_type.as_str()) {
        return Err(String::from_str("selected object is not a shuttle"));
    }
    if save.actor_of(pad_i).is_none() {
        return Err(String::from_str("pad has no transform"));
    }
    let mut candidates: Vec<usize> = Vec::new();
    let mut i: usize = 0;
    while i < save.objects.len()
        invariant
            save.wf(),
            i <= save@.objects.len(),
            candidates_upto(save@, ship_i, i as nat) == Some(candidates@),
        decreases save.objects.len() - i,
    {
        let t = clean(save.objects[i].object_type.as_str());
        if i != ship_i && is_shuttle(t.as_str()) {
            match shuttle_is_lost(save, i) {
                None => {
                    proof {
                        lemma_candidates_fail(save@, ship_i, (i + 1) as nat, save@.objects.len());
                    }
                    return Err(String::from_str("save data is truncated or malformed"));
                },
                Some(true) => {},
                Some(false) => {
                    if save.actor_of(i).is_some() {
                        candidates.push(i);
                    }
                },
            }
        }
        i += 1;
    }
    Ok(LandingPlan { ship_i, pad_i, candidates })
}

/// Reads a save and looks up the landing of `ship_name` on `pad_name`: an
/// error of [`parse`] is handed on unchanged, then one of
/// [`plan_landing`].
pub fn prepare_landing(blob: &[u8], ship_name: &str, pad_name: &str) -> (r: Result<
    (Save, LandingPlan),
    String,
>)
    ensures
        match spec_parse(blob@) {
            Err(e) => r matches Err(x) && x@ == e,
            Ok(m) => match spec_plan_landing(m, ship_name@, pad_name@) {
                PlanOutcome::Planned { ship_i, pad_i, candidates } => r matches Ok(x) && x.0@ == m
                    && x.0.wf() && records_in_order(m) && x.1.ship_i == ship_i && x.1.pad_i == pad_i
                    && x.1.candidates@ == candidates,
                PlanOutcome::ShipNotFound => r matches Err(e) && e@ == msg_ship_not_found(),
                PlanOutcome::PadNotFound => r matches Err(e) && e@ == msg_pad_not_found(),
                PlanOutcome::NotAShuttle => r matches Err(e) && e@ == msg_not_a_shuttle(),
                PlanOutcome::PadWithoutTransform => r matches Err(e) && e@ == msg_pad_without_transform(),
                PlanOutcome::Malformed => r matches Err(e) && e@ == msg_malformed(),
            },
        },
{
    let save = match parse(blob) {
        Ok(sv) => sv,
        Err(e) => return Err(e),
    };
    let plan = match plan_landing(&save, ship_name, pad_name) {
        Ok(p) => p,
        Err(e) => return Err(e),
    };
    Ok((save, plan))
}

proof fn lemma_clear_seats_len(m: SaveModel, raw: Seq<u8>, seats: Seq<usize>, k: int)
    ensures
        clear_seats(m, raw, seats, k) matches Some(x) ==> x.len() == raw.len(),
    decreases seats.len() - k,
{
    if 0 <= k < seats.len() {
        let next = match spec_comp_obj(m, seats[k], "ActorAttachments"@) {
            None => None,
            Some(None) => Some(raw),
            Some(Some(aac)) => match object_props(m, aac) {
                None => None,
                Some(props) => spec_put_voff(
                    raw,
                    m.objects[aac as int].data_off as int,
                    props,
                    "ExitSuppressionCount"@,
                    le_bytes_u32(0),
                ),
            },
        };
        if let Some(r) = next {
            lemma_clear_seats_len(m, r, seats, k + 1);
        }
    }
}

proof fn lemma_patch_automation_len(m: SaveModel, raw: Seq<u8>, r: Option<RefData>, auto: CompData)
    ensures
        patch_automation(m, raw, r, auto) matches Some(x) ==> x.len() == raw.len(),
{
}

proof fn lemma_patch_orbit_len(raw: Seq<u8>, nav: CompData)
    ensures
        patch_orbit(raw, nav) matches Some(x) ==> x.len() == raw.len(),
{
}

proof fn lemma_copy_from_ref_len(
    m: SaveModel,
    raw: Seq<u8>,
    r: Option<RefData>,
    nav: CompData,
    path: Seq<char>,
    n: int,
)
    ensures
        copy_from_ref(m, raw, r, nav, path, n) matches Some(x) ==> x.len() == raw.len(),
{
}

proof fn lemma_patch_from_ref_len(m: SaveModel, raw: Seq<u8>, r: Option<RefData>, nav: CompData)
    ensures
        patch_from_ref(m, raw, r, nav) matches Some(x) ==> x.len() == raw.len(),
{
    lemma_copy_from_ref_len(m, raw, r, nav, "ReplicatedData.SourceOrbitingBody"@, 4);
    if let Some(x1) = copy_from_ref(m, raw, r, nav, "ReplicatedData.SourceOrbitingBody"@, 4) {
        lemma_copy_from_ref_len(m, x1, r, nav, "ReplicatedData.CurrentTransform.Rotation"@, 16);
        if let Some(x2) = copy_from_ref(m, x1, r, nav, "ReplicatedData.CurrentTransform.Rotation"@, 16) {
            lemma_copy_from_ref_len(m, x2, r, nav, "ReplicatedData.CurrentTransform.Translation"@, 12);
            if let Some(x3) = copy_from_ref(m, x2, r, nav, "ReplicatedData.CurrentTransform.Translation"@, 12) {
                lemma_copy_from_ref_len(m, x3, r, nav, "ReplicatedData.TargetTransform.Rotation"@, 16);
                if let Some(x4) = copy_from_ref(m, x3, r, nav, "ReplicatedData.TargetTransform.Rotation"@, 16) {
                    lemma_copy_from_ref_len(m, x4, r, nav, "ReplicatedData.TargetTransform.Translation"@, 12);
                }
            }
        }
    }
}

proof fn lemma_patch_component_transforms_len(raw: Seq<u8>, nav: CompData, rot: Seq<u8>, pos: Seq<u8>)
    ensures
        patch_component_transforms(raw, nav, rot, pos) matches Some(x) ==> x.len() == raw.len(),
{
}

proof fn lemma_patch_actor_len(m: SaveModel, raw: Seq<u8>, ship_i: usize, rot: Seq<u8>, pos: Seq<u8>)
    ensures
        patch_actor(m, raw, ship_i, rot, pos) matches Some(x) ==> x.len() == raw.len(),
{
}

/// Landing only overwrites bytes of the level data: the patched data is
/// as long as the data it was made from.
pub proof fn lemma_land_writes_keep_length(
    m: SaveModel,
    ship_i: usize,
    r: Option<RefData>,
    nav: CompData,
    auto: CompData,
    rot: Seq<u8>,
    pos: Seq<u8>,
)
    ensures
        spec_land_writes(m, ship_i, r, nav, auto, rot, pos) matches Some(x) ==> x.len() == m.raw.len(),
{
    reveal(spec_land_writes);
    lemma_patch_automation_len(m, m.raw, r, auto);
    if let Some(x1) = patch_automation(m, m.raw, r, auto) {
        lemma_patch_orbit_len(x1, nav);
        if let Some(x2) = patch_orbit(x1, nav) {
            lemma_patch_from_ref_len(m, x2, r, nav);
            if let Some(x3) = patch_from_ref(m, x2, r, nav) {
                lemma_patch_component_transforms_len(x3, nav, rot, pos);
                if let Some(x4) = patch_component_transforms(x3, nav, rot, pos) {
                    lemma_patch_actor_len(m, x4, ship_i, rot, pos);
                    if let Some(x5) = patch_actor(m, x4, ship_i, rot, pos) {
                        if let Some(seats) = spec_ship_seats(m, ship_i) {
                            lemma_clear_seats_len(m, x5, seats, 0);
                        }
                    }
                }
            }
        }
    }
}


/// `s` has the length of `s0` and differs from it only inside values (see
/// [`in_values`]) of the layout `c`.
#[verifier::opaque]
pub open spec fn only_values(c: Contents, s0: Seq<u8>, s: Seq<u8>) -> bool {
    &&& s.len() == s0.len()
    &&& forall|j: int| 0 <= j < s0.len() && s0[j] != s[j] ==> in_values(c, j)
}

/// The value of property `path` of object `o`, where `o`'s blob decodes
/// and has it, fits in `n` bytes inside the object's data and custom data.
pub open spec fn value_fits(m: SaveModel, o: usize, path: Seq<char>, n: int) -> bool {
    match object_props(m, o) {
        Some(ps) => match spec_find_voff(ps, path) {
            Some(v) => v + n <= m.objects[o as int].data_len + m.objects[o as int].custom_len,
            None => true,
        },
        None => true,
    }
}

/// The navigation values that landing writes fit in navigation object `o`.
pub open spec fn nav_fits(m: SaveModel, o: usize) -> bool {
    &&& value_fits(m, o, "ReplicatedData.CurrentOrbitingBody"@, 4)
    &&& value_fits(m, o, "ReplicatedData.TargetOrbitingBody"@, 4)
    &&& value_fits(m, o, "ReplicatedData.CurrentComponent"@, 4)
    &&& value_fits(m, o, "ReplicatedData.TargetComponent"@, 4)
    &&& value_fits(m, o, "ReplicatedData.SourceOrbitingBody"@, 4)
    &&& value_fits(m, o, "ReplicatedData.CurrentTransform.Rotation"@, 16)
    &&& value_fits(m, o, "ReplicatedData.CurrentTransform.Translation"@, 12)
    &&& value_fits(m, o, "ReplicatedData.TargetTransform.Rotation"@, 16)
    &&& value_fits(m, o, "ReplicatedData.TargetTransform.Translation"@, 12)
    &&& value_fits(m, o, "ReplicatedData.CurrentComponentTransform.Rotation"@, 16)
    &&& value_fits(m, o, "ReplicatedData.CurrentComponentTransform.Translation"@, 12)
    &&& value_fits(m, o, "ReplicatedData.TargetComponentTransform.Rotation"@, 16)
    &&& value_fits(m, o, "ReplicatedData.TargetComponentTransform.Translation"@, 12)
}

/// The automation values that landing writes fit in automation object `o`.
pub open spec fn auto_fits(m: SaveModel, o: usize) -> bool {
    &&& value_fits(m, o, "bIsShuttleLost"@, 1)
    &&& value_fits(m, o, "ShuttleSequenceState"@, 4)
}

/// Every value that landing ship `ship_i` writes fits inside its object's
/// data and custom data.
pub open spec fn landing_fits(m: SaveModel, ship_i: usize) -> bool {
    &&& spec_comp_obj(m, ship_i, "OrbitalNavigation"@) matches Some(Some(o)) ==> nav_fits(m, o)
    &&& spec_comp_obj(m, ship_i, "ShuttleAutomation"@) matches Some(Some(o)) ==> auto_fits(m, o)
    &&& spec_ship_seats(m, ship_i) matches Some(seats) ==> forall|k: int|
        0 <= k < seats.len() ==> (spec_comp_obj(m, #[trigger] seats[k], "ActorAttachments"@) matches Some(
            Some(a),
        ) ==> value_fits(m, a, "ExitSuppressionCount"@, 4))
}

proof fn lemma_put_in_values(c: Contents, s0: Seq<u8>, x: Seq<u8>, off: int, bytes: Seq<u8>, lo: int, hi: int)
    requires
        only_values(c, s0, x),
        lo <= off,
        off + bytes.len() <= hi,
        forall|j: int| lo <= j < hi ==> in_values(c, j),
    ensures
        spec_put(x, off, bytes) matches Some(y) ==> only_values(c, s0, y),
{
    reveal(only_values);
    if let Some(y) = spec_put(x, off, bytes) {
        assert forall|j: int| 0 <= j < s0.len() && s0[j] != y[j] implies in_values(c, j) by {
            if j < off {
                assert(y[j] == x[j]);
            } else if j >= off + bytes.len() {
                assert(y[j] == x.skip(off + bytes.len())[j - off - bytes.len()]);
            }
        }
    }
}

proof fn lemma_object_in_values(c: Contents, k: int)
    requires
        0 <= k < c.objects.len(),
    ensures
        forall|j: int|
            c.objects[k].data_off <= j < c.objects[k].custom_off + c.objects[k].custom_len ==> in_values(c, j),
{
    assert forall|j: int|
        c.objects[k].data_off <= j < c.objects[k].custom_off + c.objects[k].custom_len implies in_values(c, j) by {
        assert(0 <= k < c.objects.len() && c.objects[k].data_off <= j < c.objects[k].custom_off
            + c.objects[k].custom_len);
    }
}

proof fn lemma_put_voff_in_values(
    m: SaveModel,
    c: Contents,
    s0: Seq<u8>,
    x: Seq<u8>,
    o: usize,
    ps: Seq<PropModel>,
    path: Seq<char>,
    bytes: Seq<u8>,
)
    requires
        only_values(c, s0, x),
        c.objects == m.objects,
        records_in_order(m),
        object_props(m, o) == Some(ps),
        value_fits(m, o, path, bytes.len() as int),
    ensures
        spec_put_voff(x, m.objects[o as int].data_off as int, ps, path, bytes) matches Some(y)
            ==> only_values(c, s0, y),
{
    if let Some(v) = spec_find_voff(ps, path) {
        lemma_object_in_values(c, o as int);
        lemma_put_in_values(
            c,
            s0,
            x,
            m.objects[o as int].data_off + v,
            bytes,
            m.objects[o as int].data_off as int,
            m.objects[o as int].custom_off + m.objects[o as int].custom_len,
        );
    }
}

proof fn lemma_copy_in_values(
    m: SaveModel,
    c: Contents,
    s0: Seq<u8>,
    x: Seq<u8>,
    r: Option<RefData>,
    o: usize,
    ps: Seq<PropModel>,
    path: Seq<char>,
    n: int,
)
    requires
        only_values(c, s0, x),
        c.objects == m.objects,
        records_in_order(m),
        object_props(m, o) == Some(ps),
        value_fits(m, o, path, n),
        0 <= n,
    ensures
        copy_from_ref(m, x, r, CompData { base: m.objects[o as int].data_off as int, props: ps }, path, n)
            matches Some(y) ==> only_values(c, s0, y),
{
    if let Some(rd) = r {
        if let Some(dv) = spec_find_voff(ps, path) {
            if let Some(Some(bytes)) = ref_bytes(m, rd.nav.base, rd.nav.props, path, n) {
                lemma_object_in_values(c, o as int);
                lemma_put_in_values(
                    c,
                    s0,
                    x,
                    m.objects[o as int].data_off + dv,
                    bytes,
                    m.objects[o as int].data_off as int,
                    m.objects[o as int].custom_off + m.objects[o as int].custom_len,
                );
            }
        }
    }
}

proof fn lemma_clear_seats_in_values(m: SaveModel, c: Contents, s0: Seq<u8>, x: Seq<u8>, seats: Seq<usize>, k: int)
    requires
        only_values(c, s0, x),
        c.objects == m.objects,
        records_in_order(m),
        0 <= k,
        forall|i: int|
            0 <= i < seats.len() ==> (spec_comp_obj(m, #[trigger] seats[i], "ActorAttachments"@) matches Some(
                Some(a),
            ) ==> value_fits(m, a, "ExitSuppressionCount"@, 4)),
    ensures
        clear_seats(m, x, seats, k) matches Some(y) ==> only_values(c, s0, y),
    decreases seats.len() - k,
{
    if k < seats.len() {
        assert(spec_comp_obj(m, seats[k], "ActorAttachments"@) matches Some(Some(a)) ==> value_fits(
            m,
            a,
            "ExitSuppressionCount"@,
            4,
        ));
        match spec_comp_obj(m, seats[k], "ActorAttachments"@) {
            Some(Some(aac)) => {
                if let Some(props) = object_props(m, aac) {
                    lemma_put_voff_in_values(m, c, s0, x, aac, props, "ExitSuppressionCount"@, le_bytes_u32(0));
                    if let Some(y) = spec_put_voff(x, m.objects[aac as int].data_off as int, props, "ExitSuppressionCount"@, le_bytes_u32(0)) {
                        lemma_clear_seats_in_values(m, c, s0, y, seats, k + 1);
                    }
                }
            },
            Some(None) => {
                lemma_clear_seats_in_values(m, c, s0, x, seats, k + 1);
            },
            None => {},
        }
    }
}

proof fn lemma_automation_in_values(
    m: SaveModel,
    c: Contents,
    s0: Seq<u8>,
    x: Seq<u8>,
    r: Option<RefData>,
    o: usize,
    ap: Seq<PropModel>,
)
    requires
        only_values(c, s0, x),
        c.objects == m.objects,
        records_in_order(m),
        object_props(m, o) == Some(ap),
        auto_fits(m, o),
    ensures
        patch_automation(m, x, r, CompData { base: m.objects[o as int].data_off as int, props: ap })
            matches Some(y) ==> only_values(c, s0, y),
{
    let base = m.objects[o as int].data_off as int;
    lemma_put_voff_in_values(m, c, s0, x, o, ap, "bIsShuttleLost"@, seq![0u8]);
    if let Some(x0) = spec_put_voff(x, base, ap, "bIsShuttleLost"@, seq![0u8]) {
        if let Some(v) = spec_find_voff(ap, "ShuttleSequenceState"@) {
            if let Some(Some(idx)) = landed_index(m, r) {
                lemma_object_in_values(c, o as int);
                lemma_put_in_values(
                    c,
                    s0,
                    x0,
                    base + v,
                    le_bytes_u32(idx as u32),
                    base,
                    m.objects[o as int].custom_off + m.objects[o as int].custom_len,
                );
            }
        }
    }
}

proof fn lemma_orbit_in_values(m: SaveModel, c: Contents, s0: Seq<u8>, x: Seq<u8>, o: usize, np: Seq<PropModel>)
    requires
        only_values(c, s0, x),
        c.objects == m.objects,
        records_in_order(m),
        object_props(m, o) == Some(np),
        nav_fits(m, o),
    ensures
        patch_orbit(x, CompData { base: m.objects[o as int].data_off as int, props: np }) matches Some(y)
            ==> only_values(c, s0, y),
{
    let base = m.objects[o as int].data_off as int;
    let b = le_bytes_u32(0xffff_ffff);
    lemma_put_voff_in_values(m, c, s0, x, o, np, "ReplicatedData.CurrentOrbitingBody"@, b);
    if let Some(o1) = spec_put_voff(x, base, np, "ReplicatedData.CurrentOrbitingBody"@, b) {
        lemma_put_voff_in_values(m, c, s0, o1, o, np, "ReplicatedData.TargetOrbitingBody"@, b);
        if let Some(o2) = spec_put_voff(o1, base, np, "ReplicatedData.TargetOrbitingBody"@, b) {
            lemma_put_voff_in_values(m, c, s0, o2, o, np, "ReplicatedData.CurrentComponent"@, b);
            if let Some(o3) = spec_put_voff(o2, base, np, "ReplicatedData.CurrentComponent"@, b) {
                lemma_put_voff_in_values(m, c, s0, o3, o, np, "ReplicatedData.TargetComponent"@, b);
            }
        }
    }
}

proof fn lemma_from_ref_in_values(
    m: SaveModel,
    c: Contents,
    s0: Seq<u8>,
    x: Seq<u8>,
    r: Option<RefData>,
    o: usize,
    np: Seq<PropModel>,
)
    requires
        only_values(c, s0, x),
        c.objects == m.objects,
        records_in_order(m),
        object_props(m, o) == Some(np),
        nav_fits(m, o),
    ensures
        patch_from_ref(m, x, r, CompData { base: m.objects[o as int].data_off as int, props: np })
            matches Some(y) ==> only_values(c, s0, y),
{
    let nav = CompData { base: m.objects[o as int].data_off as int, props: np };
    lemma_copy_in_values(m, c, s0, x, r, o, np, "ReplicatedData.SourceOrbitingBody"@, 4);
    if let Some(y1) = copy_from_ref(m, x, r, nav, "ReplicatedData.SourceOrbitingBody"@, 4) {
        lemma_copy_in_values(m, c, s0, y1, r, o, np, "ReplicatedData.CurrentTransform.Rotation"@, 16);
        if let Some(y2) = copy_from_ref(m, y1, r, nav, "ReplicatedData.CurrentTransform.Rotation"@, 16) {
            lemma_copy_in_values(m, c, s0, y2, r, o, np, "ReplicatedData.CurrentTransform.Translation"@, 12);
            if let Some(y3) = copy_from_ref(m, y2, r, nav, "ReplicatedData.CurrentTransform.Translation"@, 12) {
                lemma_copy_in_values(m, c, s0, y3, r, o, np, "ReplicatedData.TargetTransform.Rotation"@, 16);
                if let Some(y4) = copy_from_ref(m, y3, r, nav, "ReplicatedData.TargetTransform.Rotation"@, 16) {
                    lemma_copy_in_values(m, c, s0, y4, r, o, np, "ReplicatedData.TargetTransform.Translation"@, 12);
                }
            }
        }
    }
}

proof fn lemma_component_transforms_in_values(
    m: SaveModel,
    c: Contents,
    s0: Seq<u8>,
    x: Seq<u8>,
    o: usize,
    np: Seq<PropModel>,
    rot: Seq<u8>,
    pb: Seq<u8>,
)
    requires
        only_values(c, s0, x),
        c.objects == m.objects,
        records_in_order(m),
        object_props(m, o) == Some(np),
        nav_fits(m, o),
        rot.len() == 16,
        pb.len() == 12,
    ensures
        patch_component_transforms(x, CompData { base: m.objects[o as int].data_off as int, props: np }, rot, pb)
            matches Some(y) ==> only_values(c, s0, y),
{
    let base = m.objects[o as int].data_off as int;
    lemma_put_voff_in_values(m, c, s0, x, o, np, "ReplicatedData.CurrentComponentTransform.Rotation"@, rot);
    if let Some(z1) = spec_put_voff(x, base, np, "ReplicatedData.CurrentComponentTransform.Rotation"@, rot) {
        lemma_put_voff_in_values(m, c, s0, z1, o, np, "ReplicatedData.CurrentComponentTransform.Translation"@, pb);
        if let Some(z2) = spec_put_voff(z1, base, np, "ReplicatedData.CurrentComponentTransform.Translation"@, pb) {
            lemma_put_voff_in_values(m, c, s0, z2, o, np, "ReplicatedData.TargetComponentTransform.Rotation"@, rot);
            if let Some(z3) = spec_put_voff(z2, base, np, "ReplicatedData.TargetComponentTransform.Rotation"@, rot) {
                lemma_put_voff_in_values(m, c, s0, z3, o, np, "ReplicatedData.TargetComponentTransform.Translation"@, pb);
            }
        }
    }
}

proof fn lemma_actor_in_values(
    m: SaveModel,
    c: Contents,
    s0: Seq<u8>,
    x: Seq<u8>,
    ship_i: usize,
    rot: Seq<u8>,
    pb: Seq<u8>,
)
    requires
        only_values(c, s0, x),
        c.actors == m.actors,
        m.abo == actor_index_map(m.actors),
        m.actors.len() <= usize::MAX,
        records_in_order(m),
        rot.len() == 16,
        pb.len() == 12,
    ensures
        patch_actor(m, x, ship_i, rot, pb) matches Some(y) ==> only_values(c, s0, y),
{
    lemma_actor_index_map(m.actors);
    if let Some(a) = spec_actor_of(m, ship_i) {
        let ai = m.abo[ship_i as i32] as int;
        assert(c.actors[ai] == a);
        assert forall|j: int| a.rot_off <= j < a.rot_off + 40 implies in_values(c, j) by {
            assert(0 <= ai < c.actors.len() && c.actors[ai].rot_off <= j < c.actors[ai].rot_off + 40);
        }
        lemma_put_in_values(c, s0, x, a.rot_off as int, rot, a.rot_off as int, a.rot_off + 40);
        if let Some(w1) = spec_put(x, a.rot_off as int, rot) {
            lemma_put_in_values(c, s0, w1, a.trans_off as int, pb, a.rot_off as int, a.rot_off + 40);
        }
    }
}

/// What the landing lemmas need of a decoded save `m` with layout `c`.
#[verifier::opaque]
spec fn land_ctx(m: SaveModel, c: Contents, ship_i: usize) -> bool {
    &&& c.objects == m.objects
    &&& c.actors == m.actors
    &&& m.abo == actor_index_map(m.actors)
    &&& m.actors.len() <= usize::MAX
    &&& records_in_order(m)
    &&& landing_fits(m, ship_i)
}

proof fn lemma_land_writes_in_values(
    m: SaveModel,
    c: Contents,
    ship_i: usize,
    r: Option<RefData>,
    nav_o: usize,
    np: Seq<PropModel>,
    auto_o: usize,
    ap: Seq<PropModel>,
    rot: Seq<u8>,
    pb: Seq<u8>,
)
    requires
        land_ctx(m, c, ship_i),
        spec_comp_obj(m, ship_i, "OrbitalNavigation"@) == Some(Some(nav_o)),
        spec_comp_obj(m, ship_i, "ShuttleAutomation"@) == Some(Some(auto_o)),
        object_props(m, nav_o) == Some(np),
        object_props(m, auto_o) == Some(ap),
        rot.len() == 16,
        pb.len() == 12,
    ensures
        spec_land_writes(
            m,
            ship_i,
            r,
            CompData { base: m.objects[nav_o as int].data_off as int, props: np },
            CompData { base: m.objects[auto_o as int].data_off as int, props: ap },
            rot,
            pb,
        ) matches Some(y) ==> only_values(c, m.raw, y),
{
    reveal(spec_land_writes);
    reveal(land_ctx);
    let nav = CompData { base: m.objects[nav_o as int].data_off as int, props: np };
    let auto = CompData { base: m.objects[auto_o as int].data_off as int, props: ap };
    let s0 = m.raw;
    assert(only_values(c, s0, s0)) by {
        reveal(only_values);
    }
    lemma_automation_in_values(m, c, s0, s0, r, auto_o, ap);
    if let Some(x1) = patch_automation(m, s0, r, auto) {
        lemma_orbit_in_values(m, c, s0, x1, nav_o, np);
        if let Some(x2) = patch_orbit(x1, nav) {
            lemma_from_ref_in_values(m, c, s0, x2, r, nav_o, np);
            if let Some(x3) = patch_from_ref(m, x2, r, nav) {
                lemma_component_transforms_in_values(m, c, s0, x3, nav_o, np, rot, pb);
                if let Some(x4) = patch_component_transforms(x3, nav, rot, pb) {
                    lemma_actor_in_values(m, c, s0, x4, ship_i, rot, pb);
                    if let Some(x5) = patch_actor(m, x4, ship_i, rot, pb) {
                        if let Some(seats) = spec_ship_seats(m, ship_i) {
                            lemma_clear_seats_in_values(m, c, s0, x5, seats, 0);
                        }
                    }
                }
            }
        }
    }
}

proof fn lemma_apply_in_values(
    m: SaveModel,
    c: Contents,
    ship_i: usize,
    pad_i: usize,
    ref_i: Option<usize>,
    pos: (u32, u32, u32),
)
    requires
        land_ctx(m, c, ship_i),
    ensures
        spec_apply_landing(m, ship_i, pad_i, ref_i, pos) matches LandOutcome::Patched(out)
            ==> exists|raw2: Seq<u8>| out == spec_repack(m.header, raw2) && only_values(c, m.raw, raw2),
{
    let src = match ref_i {
        Some(r) => r,
        None => pad_i,
    };
    match spec_actor_of(m, src) {
        None => {},
        Some(sa) => {
            let rot = m.raw.subrange(sa.rot_off as int, sa.rot_off + 16);
            assert(rot.len() == 16) by {
                reveal(land_ctx);
                lemma_actor_index_map(m.actors);
                let ai = m.abo[src as i32] as int;
                assert(m.actors[ai] == sa);
            }
            match spec_comp_obj(m, ship_i, "OrbitalNavigation"@) {
                Some(Some(nav_o)) => match spec_comp_obj(m, ship_i, "ShuttleAutomation"@) {
                    Some(Some(auto_o)) => match object_props(m, nav_o) {
                        Some(np) => match object_props(m, auto_o) {
                            Some(ap) => {
                                let nav = CompData { base: m.objects[nav_o as int].data_off as int, props: np };
                                let auto = CompData { base: m.objects[auto_o as int].data_off as int, props: ap };
                                let rd: Option<Option<RefData>> = match ref_i {
                                    None => Some(None),
                                    Some(ri) => match spec_ref_data(m, ri) {
                                        None => None,
                                        Some(d) => Some(Some(d)),
                                    },
                                };
                                match rd {
                                    Some(r) => {
                                        let pb = pos_bytes(pos);
                                        lemma_land_writes_in_values(m, c, ship_i, r, nav_o, np, auto_o, ap, rot, pb);
                                        match spec_land_writes(m, ship_i, r, nav, auto, rot, pb) {
                                            Some(raw2) => {
                                                assert(only_values(c, m.raw, raw2));
                                            },
                                            None => {},
                                        }
                                    },
                                    None => {},
                                }
                            },
                            None => {},
                        },
                        None => {},
                    },
                    _ => {},
                },
                _ => {},
            }
        },
    }
}

/// Landing keeps the layout of the save: where every value that it writes
/// fits inside its object's data (see [`landing_fits`]), the rebuilt save
/// holds level data of the same length that decodes to the same records;
/// only values change.
pub proof fn lemma_landing_keeps_layout(
    header: Seq<u8>,
    raw: Seq<u8>,
    ship_i: usize,
    pad_i: usize,
    ref_i: Option<usize>,
    pos: (u32, u32, u32),
)
    requires
        raw.len() <= usize::MAX,
        spec_save(header, raw) matches Some(m) && landing_fits(m, ship_i),
    ensures
        spec_save(header, raw) matches Some(m) && (spec_apply_landing(m, ship_i, pad_i, ref_i, pos) matches LandOutcome::Patched(out)
            ==> exists|raw2: Seq<u8>|
            out == spec_repack(header, raw2) && raw2.len() == raw.len() && spec_layout(raw2) == spec_layout(raw)),
{
    let m = spec_save(header, raw)->Some_0;
    let c = spec_layout(raw)->Some_0;
    lemma_records_in_order(header, raw);
    assert(m.raw == raw && m.header == header && c.objects == m.objects && c.actors == m.actors);
    assert(land_ctx(m, c, ship_i)) by {
        reveal(land_ctx);
    }
    lemma_apply_in_values(m, c, ship_i, pad_i, ref_i, pos);
    if let LandOutcome::Patched(out) = spec_apply_landing(m, ship_i, pad_i, ref_i, pos) {
        let raw2 = choose|raw2: Seq<u8>| out == spec_repack(m.header, raw2) && only_values(c, m.raw, raw2);
        reveal(only_values);
        lemma_values_keep_layout(raw, raw2);
    }
}


/// Where the `ExitSuppressionCount` of seat object `seat` lies in the level
/// data: at the data of its `ActorAttachments` component plus the value
/// offset of that property, where the component's blob decodes and has it.
pub open spec fn exit_count_at(m: SaveModel, seat: usize) -> Option<int> {
    match spec_comp_obj(m, seat, "ActorAttachments"@) {
        Some(Some(aac)) => match object_props(m, aac) {
            Some(ps) => match spec_find_voff(ps, "ExitSuppressionCount"@) {
                Some(v) => Some(m.objects[aac as int].data_off + v),
                None => None,
            },
            None => None,
        },
        _ => None,
    }
}

/// Every seat that the slots of ship `ship_i` point at has its
/// `ExitSuppressionCount` reading 0 in `raw`, where it has one.
pub open spec fn seats_released(m: SaveModel, ship_i: usize, raw: Seq<u8>) -> bool {
    spec_ship_seats(m, ship_i) matches Some(seats) && forall|k: int|
        0 <= k < seats.len() ==> (exit_count_at(m, #[trigger] seats[k]) matches Some(o) ==> le_i32(raw, o)
            == 0)
}

proof fn lemma_clear_seats_zero(m: SaveModel, x: Seq<u8>, seats: Seq<usize>, k: int)
    requires
        0 <= k,
    ensures
        clear_seats(m, x, seats, k) matches Some(y) ==> {
            &&& y.len() == x.len()
            &&& forall|j: int| 0 <= j < x.len() && x[j] == 0 ==> #[trigger] y[j] == 0
            &&& forall|i: int|
                k <= i < seats.len() ==> (exit_count_at(m, #[trigger] seats[i]) matches Some(o) ==> {
                    &&& 0 <= o
                    &&& o + 4 <= y.len()
                    &&& y[o] == 0 && y[o + 1] == 0 && y[o + 2] == 0 && y[o + 3] == 0
                })
        },
    decreases seats.len() - k,
{
    if k < seats.len() {
        let zeros = le_bytes_u32(0);
        assert(zeros =~= seq![0u8, 0u8, 0u8, 0u8]);
        let next = match spec_comp_obj(m, seats[k], "ActorAttachments"@) {
            None => None,
            Some(None) => Some(x),
            Some(Some(aac)) => match object_props(m, aac) {
                None => None,
                Some(props) => spec_put_voff(
                    x,
                    m.objects[aac as int].data_off as int,
                    props,
                    "ExitSuppressionCount"@,
                    zeros,
                ),
            },
        };
        if let Some(r) = next {
            lemma_clear_seats_zero(m, r, seats, k + 1);
            assert(clear_seats(m, x, seats, k) == clear_seats(m, r, seats, k + 1));
            // what the write of seat k leaves: its four bytes are zero, and
            // bytes that were zero stay zero
            assert(r.len() == x.len());
            assert forall|j: int| 0 <= j < x.len() && x[j] == 0 implies #[trigger] r[j] == 0 by {
                if let Some(o) = exit_count_at(m, seats[k]) {
                    if o <= j < o + 4 {
                        assert(r[j] == zeros[j - o]);
                    } else if j >= o + 4 {
                        assert(r[j] == x.skip(o + 4)[j - o - 4]);
                    }
                }
            }
            if let Some(o) = exit_count_at(m, seats[k]) {
                assert(r[o] == 0 && r[o + 1] == 0 && r[o + 2] == 0 && r[o + 3] == 0);
            }
        }
    }
}

proof fn lemma_land_writes_release(
    m: SaveModel,
    ship_i: usize,
    r: Option<RefData>,
    nav: CompData,
    auto: CompData,
    rot: Seq<u8>,
    pb: Seq<u8>,
)
    ensures
        spec_land_writes(m, ship_i, r, nav, auto, rot, pb) matches Some(y) ==> seats_released(m, ship_i, y),
{
    reveal(spec_land_writes);
    if let Some(x1) = patch_automation(m, m.raw, r, auto) {
        if let Some(x2) = patch_orbit(x1, nav) {
            if let Some(x3) = patch_from_ref(m, x2, r, nav) {
                if let Some(x4) = patch_component_transforms(x3, nav, rot, pb) {
                    if let Some(x5) = patch_actor(m, x4, ship_i, rot, pb) {
                        if let Some(seats) = spec_ship_seats(m, ship_i) {
                            lemma_clear_seats_zero(m, x5, seats, 0);
                            if let Some(y) = clear_seats(m, x5, seats, 0) {
                                assert forall|k: int| 0 <= k < seats.len() implies (exit_count_at(
                                    m,
                                    #[trigger] seats[k],
                                ) matches Some(o) ==> le_i32(y, o) == 0) by {
                                    if let Some(o) = exit_count_at(m, seats[k]) {
                                        assert(le_u32(y, o) == 0);
                                        assert((0u32 as i32) == 0);
                                    }
                                }
                            }
                        }
                    }
                }
            }
        }
    }
}

/// Landing releases the ship's seats: in the level data of the rebuilt
/// save, the `ExitSuppressionCount` of every seat that the ship's slots
/// point at reads 0, so each seat can be left again.
pub proof fn lemma_landing_releases_seats(
    m: SaveModel,
    ship_i: usize,
    pad_i: usize,
    ref_i: Option<usize>,
    pos: (u32, u32, u32),
)
    ensures
        spec_apply_landing(m, ship_i, pad_i, ref_i, pos) matches LandOutcome::Patched(out)
            ==> exists|raw2: Seq<u8>| out == spec_repack(m.header, raw2) && seats_released(m, ship_i, raw2),
{
    let src = match ref_i {
        Some(r) => r,
        None => pad_i,
    };
    match spec_actor_of(m, src) {
        None => {},
        Some(sa) => {
            let rot = m.raw.subrange(sa.rot_off as int, sa.rot_off + 16);
            match spec_comp_obj(m, ship_i, "OrbitalNavigation"@) {
                Some(Some(nav_o)) => match spec_comp_obj(m, ship_i, "ShuttleAutomation"@) {
                    Some(Some(auto_o)) => match object_props(m, nav_o) {
                        Some(np) => match object_props(m, auto_o) {
                            Some(ap) => {
                                let nav = CompData { base: m.objects[nav_o as int].data_off as int, props: np };
                                let auto = CompData { base: m.objects[auto_o as int].data_off as int, props: ap };
                                let rd: Option<Option<RefData>> = match ref_i {
                                    None => Some(None),
                                    Some(ri) => match spec_ref_data(m, ri) {
                                        None => None,
                                        Some(d) => Some(Some(d)),
                                    },
                                };
                                match rd {
                                    Some(r) => {
                                        let pb = pos_bytes(pos);
                                        lemma_land_writes_release(m, ship_i, r, nav, auto, rot, pb);
                                        match spec_land_writes(m, ship_i, r, nav, auto, rot, pb) {
                                            Some(raw2) => {
                                                assert(seats_released(m, ship_i, raw2));
                                            },
                                            None => {},
                                        }
                                    },
                                    None => {},
                                }
                            },
                            None => {},
                        },
                        None => {},
                    },
                    _ => {},
                },
                _ => {},
            }
        },
    }
}


/// The rotation that landing gives the ship: that of the reference
/// shuttle's actor where there is a reference, else that of the pad's.
pub open spec fn landing_rotation(m: SaveModel, pad_i: usize, ref_i: Option<usize>) -> Option<Seq<u8>> {
    let src = match ref_i {
        Some(r) => r,
        None => pad_i,
    };
    match spec_actor_of(m, src) {
        Some(sa) => Some(m.raw.subrange(sa.rot_off as int, sa.rot_off + 16)),
        None => None,
    }
}

proof fn lemma_land_writes_moves_actor(
    m: SaveModel,
    ship_i: usize,
    r: Option<RefData>,
    nav: CompData,
    auto: CompData,
    rot: Seq<u8>,
    pb: Seq<u8>,
)
    requires
        records_in_order(m),
        landing_fits(m, ship_i),
        m.abo == actor_index_map(m.actors),
        m.actors.len() <= usize::MAX,
        rot.len() == 16,
        pb.len() == 12,
    ensures
        spec_land_writes(m, ship_i, r, nav, auto, rot, pb) matches Some(y) ==> spec_actor_of(m, ship_i) matches Some(
            a,
        ) && y.subrange(a.rot_off as int, a.rot_off + 16) == rot && y.subrange(a.trans_off as int, a.trans_off + 12)
            == pb,
{
    reveal(spec_land_writes);
    if let Some(x1) = patch_automation(m, m.raw, r, auto) {
        if let Some(x2) = patch_orbit(x1, nav) {
            if let Some(x3) = patch_from_ref(m, x2, r, nav) {
                if let Some(x4) = patch_component_transforms(x3, nav, rot, pb) {
                    if let Some(x5) = patch_actor(m, x4, ship_i, rot, pb) {
                        if let Some(seats) = spec_ship_seats(m, ship_i) {
                            lemma_actor_index_map(m.actors);
                            let a = spec_actor_of(m, ship_i)->Some_0;
                            let ai = m.abo[ship_i as i32] as int;
                            assert(m.actors[ai] == a);
                            let ro = a.rot_off as int;
                            let w1 = spec_put(x4, ro, rot)->Some_0;
                            assert forall|j: int| ro <= j < ro + 16 implies x5[j] == rot[j - ro] by {
                                assert(x5[j] == w1[j]);
                            }
                            assert forall|j: int| ro + 16 <= j < ro + 28 implies x5[j] == pb[j - ro - 16] by {
                            }
                            let c = Contents {
                                strings: Seq::empty(),
                                objects: m.objects,
                                actors: Seq::empty(),
                                host_pawn: None,
                            };
                            assert(only_values(c, x5, x5)) by {
                                reveal(only_values);
                            }
                            lemma_clear_seats_in_values(m, c, x5, x5, seats, 0);
                            if let Some(y) = clear_seats(m, x5, seats, 0) {
                                reveal(only_values);
                                assert forall|j: int| ro <= j < ro + 28 implies y[j] == x5[j] by {
                                    if y[j] != x5[j] {
                                        assert(in_values(c, j));
                                        let k = choose|k: int|
                                            0 <= k < c.objects.len() && (#[trigger] c.objects[k]).data_off <= j
                                                < c.objects[k].custom_off + c.objects[k].custom_len;
                                        assert(m.objects[k].custom_off + m.objects[k].custom_len < m.actors[ai].rot_off);
                                    }
                                }
                                assert(y.subrange(ro, ro + 16) =~= rot);
                                assert(y.subrange(a.trans_off as int, a.trans_off + 12) =~= pb);
                            }
                        }
                    }
                }
            }
        }
    }
}

proof fn lemma_apply_moves_ship(
    m: SaveModel,
    c: Contents,
    ship_i: usize,
    pad_i: usize,
    ref_i: Option<usize>,
    pos: (u32, u32, u32),
)
    requires
        land_ctx(m, c, ship_i),
    ensures
        spec_apply_landing(m, ship_i, pad_i, ref_i, pos) matches LandOutcome::Patched(out)
            ==> exists|raw2: Seq<u8>| {
            &&& out == spec_repack(m.header, raw2)
            &&& spec_actor_of(m, ship_i) matches Some(a)
            &&& landing_rotation(m, pad_i, ref_i) == Some(raw2.subrange(a.rot_off as int, a.rot_off + 16))
            &&& raw2.subrange(a.trans_off as int, a.trans_off + 12) == pos_bytes(pos)
        },
{
    reveal(land_ctx);
    lemma_actor_index_map(m.actors);
    let src = match ref_i {
        Some(r) => r,
        None => pad_i,
    };
    match spec_actor_of(m, src) {
        None => {},
        Some(sa) => {
            let rot = m.raw.subrange(sa.rot_off as int, sa.rot_off + 16);
            let si = m.abo[src as i32] as int;
            assert(m.actors[si] == sa);
            assert(rot.len() == 16);
            match spec_comp_obj(m, ship_i, "OrbitalNavigation"@) {
                Some(Some(nav_o)) => match spec_comp_obj(m, ship_i, "ShuttleAutomation"@) {
                    Some(Some(auto_o)) => match object_props(m, nav_o) {
                        Some(np) => match object_props(m, auto_o) {
                            Some(ap) => {
                                let nav = CompData { base: m.objects[nav_o as int].data_off as int, props: np };
                                let auto = CompData { base: m.objects[auto_o as int].data_off as int, props: ap };
                                let rd: Option<Option<RefData>> = match ref_i {
                                    None => Some(None),
                                    Some(ri) => match spec_ref_data(m, ri) {
                                        None => None,
                                        Some(d) => Some(Some(d)),
                                    },
                                };
                                match rd {
                                    Some(r) => {
                                        let pb = pos_bytes(pos);
                                        lemma_land_writes_moves_actor(m, ship_i, r, nav, auto, rot, pb);
                                        match spec_land_writes(m, ship_i, r, nav, auto, rot, pb) {
                                            Some(raw2) => {
                                                let a = spec_actor_of(m, ship_i)->Some_0;
                                                assert(raw2.subrange(a.rot_off as int, a.rot_off + 16) == rot);
                                            },
                                            None => {},
                                        }
                                    },
                                    None => {},
                                }
                            },
                            None => {},
                        },
                        None => {},
                    },
                    _ => {},
                },
                _ => {},
            }
        },
    }
}



/// Landing moves the ship onto the pad: in the level data of the rebuilt
/// save, the ship's actor holds the landing rotation (the reference
/// shuttle's, else the pad's) and the new translation `pos`. This holds
/// where every value that landing writes fits inside its object's data
/// (see [`landing_fits`]).
pub proof fn lemma_landing_moves_ship(
    header: Seq<u8>,
    raw: Seq<u8>,
    ship_i: usize,
    pad_i: usize,
    ref_i: Option<usize>,
    pos: (u32, u32, u32),
)
    requires
        raw.len() <= usize::MAX,
        spec_save(header, raw) matches Some(m) && landing_fits(m, ship_i),
    ensures
        spec_save(header, raw) matches Some(m) && (spec_apply_landing(m, ship_i, pad_i, ref_i, pos) matches LandOutcome::Patched(out)
            ==> exists|raw2: Seq<u8>| {
            &&& out == spec_repack(header, raw2)
            &&& spec_actor_of(m, ship_i) matches Some(a)
            &&& landing_rotation(m, pad_i, ref_i) == Some(raw2.subrange(a.rot_off as int, a.rot_off + 16))
            &&& raw2.subrange(a.trans_off as int, a.trans_off + 12) == pos_bytes(pos)
        }),
{
    let m = spec_save(header, raw)->Some_0;
    let c = spec_layout(raw)->Some_0;
    lemma_records_in_order(header, raw);
    assert(m.raw == raw && m.header == header && c.objects == m.objects && c.actors == m.actors);
    assert(land_ctx(m, c, ship_i)) by {
        reveal(land_ctx);
    }
    lemma_apply_moves_ship(m, c, ship_i, pad_i, ref_i, pos);
}

} // verus!
