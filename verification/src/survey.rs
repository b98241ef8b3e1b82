//! What a save holds for the player: shuttles (with whether they are
//! lost and what they carry), landing pads, and the objects a shuttle's
//! slots point at.

use vstd::prelude::*;
use vstd::string::StringExecFns;
use crate::bytes::{le_u32, read_u32_at};
use crate::props::{find_voff, spec_decode, spec_find_voff, props_view, try_decode_props, PropModel};
use crate::save::{spec_actor_of, spec_comp_obj, spec_name, Save, SaveModel};
use crate::text::{
    after_last, chars_of, clean, contains, is_pad, is_shuttle, last_piece_start, prettify,
    ship_label, spec_is_pad, spec_is_shuttle, spec_prettify, spec_ship_label, str_contains,
    string_of_range, trim_nul,
};

verus! {

/// The property blob of object `o`.
pub open spec fn data_blob(m: SaveModel, o: int) -> Seq<u8> {
    m.raw.subrange(
        m.objects[o].data_off as int,
        m.objects[o].data_off + m.objects[o].data_len,
    )
}

/// The property blob of object `o` followed by its custom data.
pub open spec fn slot_bytes(m: SaveModel, o: int) -> Seq<u8> {
    data_blob(m, o) + m.raw.subrange(
        m.objects[o].custom_off as int,
        m.objects[o].custom_off + m.objects[o].custom_len,
    )
}

/// The short type of an object: its type without trailing NULs, after the
/// last '/'.
pub open spec fn short_type(t: Seq<char>) -> Seq<char> {
    after_last(trim_nul(t), '/')
}

/// Whether the shuttle object `obj_index` is marked lost: the byte at the
/// `bIsShuttleLost` property of its `ShuttleAutomation` component. `None`
/// where looking it up fails: a bad name index, a component index past
/// the objects, a blob that does not decode, or an offset past the blob.
pub open spec fn spec_shuttle_is_lost(m: SaveModel, obj_index: usize) -> Option<bool> {
    match spec_comp_obj(m, obj_index, "ShuttleAutomation"@) {
        None => None,
        Some(None) => Some(false),
        Some(Some(auto)) => if auto >= m.objects.len() {
            None
        } else {
            let blob = data_blob(m, auto as int);
            match spec_decode(blob, m.strings) {
                None => None,
                Some(props) => match spec_find_voff(props, "bIsShuttleLost"@) {
                    None => Some(false),
                    Some(v) => if v < blob.len() {
                        Some(blob[v as int] != 0)
                    } else {
                        None
                    },
                },
            }
        },
    }
}

/// The property blob of object `o`, copied out of the level data.
pub fn object_blob(save: &Save, o: usize) -> (r: Vec<u8>)
    requires
        save.wf(),
        o < save@.objects.len(),
    ensures
        r@ == data_blob(save@, o as int),
{
    let rec = &save.objects[o];
    let rawlen = save.raw.len();
    assert(rec@ == save@.objects[o as int]);
    assert(rec.data_off + rec.data_len <= rawlen);
    let mut r: Vec<u8> = Vec::new();
    r.extend_from_slice(&save.raw.as_slice()[rec.data_off..rec.data_off + rec.data_len]);
    assert(r@ =~= data_blob(save@, o as int));
    r
}

/// Whether shuttle object `obj_index` is marked lost (see
/// [`spec_shuttle_is_lost`]).
pub fn shuttle_is_lost(save: &Save, obj_index: usize) -> (r: Option<bool>)
    requires
        save.wf(),
    ensures
        r == spec_shuttle_is_lost(save@, obj_index),
{
    let auto = match save.comp_obj(obj_index, "ShuttleAutomation") {
        None => return None,
        Some(None) => return Some(false),
        Some(Some(a)) => a,
    };
    if auto >= save.objects.len() {
        return None;
    }
    let blob = object_blob(save, auto);
    let props = match try_decode_props(blob.as_slice(), save) {
        Some(p) => p,
        None => return None,
    };
    match find_voff(props.as_slice(), "bIsShuttleLost") {
        None => Some(false),
        Some(v) => if v < blob.len() {
            Some(blob[v] != 0)
        } else {
            None
        },
    }
}

/// The slot bytes of object `o`: its property blob then its custom data.
pub fn object_slot_bytes(save: &Save, o: usize) -> (r: Vec<u8>)
    requires
        save.wf(),
        o < save@.objects.len(),
    ensures
        r@ == slot_bytes(save@, o as int),
{
    let rec = &save.objects[o];
    let rawlen = save.raw.len();
    assert(rec@ == save@.objects[o as int]);
    assert(rec.custom_off + rec.custom_len <= rawlen);
    let mut r = object_blob(save, o);
    r.extend_from_slice(&save.raw.as_slice()[rec.custom_off..rec.custom_off + rec.custom_len]);
    assert(r@ =~= slot_bytes(save@, o as int));
    r
}

/// Number of 4-byte windows in `d` (one starts at every offset).
pub open spec fn windows(d: Seq<u8>) -> nat {
    if d.len() >= 4 {
        (d.len() - 3) as nat
    } else {
        0
    }
}

/// Short types of the items that slots can carry.
pub open spec fn slot_allowed(short: Seq<char>) -> bool {
    ||| contains(short, "Thruster"@)
    ||| contains(short, "Seat"@)
    ||| contains(short, "Storage"@)
    ||| contains(short, "Canister"@)
    ||| contains(short, "Battery"@)
    ||| contains(short, "Generator"@)
    ||| contains(short, "Oxygen"@)
    ||| contains(short, "Drill"@)
    ||| contains(short, "Crane"@)
    ||| contains(short, "Paver"@)
}

/// Slot scan over the windows at offsets `0..n` of `d`: each window read as
/// a little-endian object index; an index of an existing object other
/// than 0, not seen before, whose short type is a slot item, is recorded
/// with its readable label.
pub open spec fn slot_scan(m: SaveModel, d: Seq<u8>, n: nat) -> (Seq<usize>, Seq<Seq<char>>)
    decreases n,
{
    if n == 0 {
        (Seq::empty(), Seq::empty())
    } else {
        let (seen, out) = slot_scan(m, d, (n - 1) as nat);
        let v = le_u32(d, n - 1) as usize;
        if 0 < v < m.objects.len() && !seen.contains(v) && slot_allowed(
            short_type(m.objects[v as int].object_type),
        ) {
            (seen.push(v), out.push(spec_prettify(short_type(m.objects[v as int].object_type))))
        } else {
            (seen, out)
        }
    }
}

/// Labels of the items in the slots of ship object `ship_i`, read from
/// its `SlotsComponent`; `None` where the lookup fails (as in
/// [`spec_shuttle_is_lost`]).
pub open spec fn spec_slot_items(m: SaveModel, ship_i: usize) -> Option<Seq<Seq<char>>> {
    match spec_comp_obj(m, ship_i, "SlotsComponent"@) {
        None => None,
        Some(None) => Some(Seq::empty()),
        Some(Some(sc)) => if sc >= m.objects.len() {
            None
        } else {
            let d = slot_bytes(m, sc as int);
            Some(slot_scan(m, d, windows(d)).1)
        },
    }
}

fn vec_has(v: &Vec<usize>, x: usize) -> (r: bool)
    ensures
        r == v@.contains(x),
{
    let mut i: usize = 0;
    while i < v.len()
        invariant
            i <= v@.len(),
            forall|j: int| 0 <= j < i ==> v@[j] != x,
        decreases v.len() - i,
    {
        if v[i] == x {
            return true;
        }
        i += 1;
    }
    false
}

/// The short type of object `o`.
pub fn object_short_type(save: &Save, o: usize) -> (r: String)
    requires
        o < save@.objects.len(),
    ensures
        r@ == short_type(save@.objects[o as int].object_type),
{
    let t = clean(save.objects[o].object_type.as_str());
    let v = chars_of(t.as_str());
    let k = last_piece_start(v.as_slice(), '/');
    let r = string_of_range(v.as_slice(), k, v.len());
    assert(v@.subrange(k as int, v@.len() as int) =~= v@.skip(k as int));
    r
}

fn is_slot_item(short: &str) -> (r: bool)
    ensures
        r == slot_allowed(short@),
{
    str_contains(short, "Thruster") || str_contains(short, "Seat") || str_contains(short, "Storage")
        || str_contains(short, "Canister") || str_contains(short, "Battery") || str_contains(
        short,
        "Generator",
    ) || str_contains(short, "Oxygen") || str_contains(short, "Drill") || str_contains(
        short,
        "Crane",
    ) || str_contains(short, "Paver")
}

/// Labels of the items in the slots of ship object `ship_i` (see
/// [`spec_slot_items`]).
pub fn slot_items(save: &Save, ship_i: usize) -> (r: Option<Vec<String>>)
    requires
        save.wf(),
    ensures
        match spec_slot_items(save@, ship_i) {
            Some(items) => r matches Some(v) && v@.map_values(|s: String| s@) == items,
            None => r is None,
        },
{
    let sc = match save.comp_obj(ship_i, "SlotsComponent") {
        None => return None,
        Some(None) => {
            let out: Vec<String> = Vec::new();
            assert(out@.map_values(|s: String| s@) =~= Seq::<Seq<char>>::empty());
            return Some(out);
        },
        Some(Some(sc)) => sc,
    };
    if sc >= save.objects.len() {
        return None;
    }
    let d = object_slot_bytes(save, sc);
    let mut out: Vec<String> = Vec::new();
    let mut seen: Vec<usize> = Vec::new();
    let mut off: usize = 0;
    let n = if d.len() >= 4 {
        d.len() - 3
    } else {
        0
    };
    assert(out@.map_values(|s: String| s@) =~= Seq::<Seq<char>>::empty());
    while off < n
        invariant
            save.wf(),
            n == windows(d@),
            off <= n,
            slot_scan(save@, d@, off as nat) == (seen@, out@.map_values(|s: String| s@)),
        decreases n - off,
    {
        let v = read_u32_at(d.as_slice(), off) as usize;
        let ghost before = out@;
        if v > 0 && v < save.objects.len() && !vec_has(&seen, v) {
            let short = object_short_type(save, v);
            if is_slot_item(short.as_str()) {
                seen.push(v);
                out.push(prettify(short.as_str()));
                assert(out@.map_values(|s: String| s@) =~= before.map_values(|s: String| s@).push(
                    out@.last()@,
                ));
            }
        }
        off += 1;
    }
    Some(out)
}

/// Seat scan over the windows at offsets `0..n` of `d`: each window read as
/// a little-endian value whose low 28 bits are an object index; an index
/// of an existing object other than 0, whose type holds "Seat", is
/// recorded once.
pub open spec fn seat_scan(m: SaveModel, d: Seq<u8>, n: nat) -> Seq<usize>
    decreases n,
{
    if n == 0 {
        Seq::empty()
    } else {
        let seats = seat_scan(m, d, (n - 1) as nat);
        let idx = (le_u32(d, n - 1) & 0x0FFF_FFFF) as usize;
        if 0 < idx < m.objects.len() && contains(
            trim_nul(m.objects[idx as int].object_type),
            "Seat"@,
        ) && !seats.contains(idx) {
            seats.push(idx)
        } else {
            seats
        }
    }
}

/// Object indices of the seats in the slots of ship object `ship_i`;
/// `None` where the lookup fails (as in [`spec_shuttle_is_lost`]).
pub open spec fn spec_ship_seats(m: SaveModel, ship_i: usize) -> Option<Seq<usize>> {
    match spec_comp_obj(m, ship_i, "SlotsComponent"@) {
        None => None,
        Some(None) => Some(Seq::empty()),
        Some(Some(sc)) => if sc >= m.objects.len() {
            None
        } else {
            let d = slot_bytes(m, sc as int);
            Some(seat_scan(m, d, windows(d)))
        },
    }
}

/// Object indices of the seats in the slots of ship object `ship_i` (see
/// [`spec_ship_seats`]).
pub fn ship_seats(save: &Save, ship_i: usize) -> (r: Option<Vec<usize>>)
    requires
        save.wf(),
    ensures
        match spec_ship_seats(save@, ship_i) {
            Some(seats) => r matches Some(v) && v@ == seats,
            None => r is None,
        },
{
    let sc = match save.comp_obj(ship_i, "SlotsComponent") {
        None => return None,
        Some(None) => return Some(Vec::new()),
        Some(Some(sc)) => sc,
    };
    if sc >= save.objects.len() {
        return None;
    }
    let d = object_slot_bytes(save, sc);
    let mut seats: Vec<usize> = Vec::new();
    let mut off: usize = 0;
    let n = if d.len() >= 4 {
        d.len() - 3
    } else {
        0
    };
    while off < n
        invariant
            save.wf(),
            n == windows(d@),
            off <= n,
            seat_scan(save@, d@, off as nat) == seats@,
        decreases n - off,
    {
        let v = read_u32_at(d.as_slice(), off);
        let idx = (v & 0x0FFF_FFFF) as usize;
        if idx > 0 && idx < save.objects.len() {
            let t = clean(save.objects[idx].object_type.as_str());
            if str_contains(t.as_str(), "Seat") && !vec_has(&seats, idx) {
                seats.push(idx);
            }
        }
        off += 1;
    }
    Some(seats)
}

/// What the overview shows of a shuttle.
pub struct ShipInfo {
    pub index: usize,
    pub name: String,
    pub short: String,
    pub label: String,
    pub lost: bool,
    pub slots: Vec<String>,
}

/// Mathematical model of a [`ShipInfo`].
pub struct ShipModel {
    pub index: usize,
    pub name: Seq<char>,
    pub short: Seq<char>,
    pub label: Seq<char>,
    pub lost: bool,
    pub slots: Seq<Seq<char>>,
}

impl View for ShipInfo {
    type V = ShipModel;

    open spec fn view(&self) -> ShipModel {
        ShipModel {
            index: self.index,
            name: self.name@,
            short: self.short@,
            label: self.label@,
            lost: self.lost,
            slots: self.slots@.map_values(|s: String| s@),
        }
    }
}

/// What the overview shows of a landing pad.
pub struct PadInfo {
    pub index: usize,
    pub name: String,
    pub short: String,
    pub label: String,
}

/// Mathematical model of a [`PadInfo`].
pub struct PadModel {
    pub index: usize,
    pub name: Seq<char>,
    pub short: Seq<char>,
    pub label: Seq<char>,
}

impl View for PadInfo {
    type V = PadModel;

    open spec fn view(&self) -> PadModel {
        PadModel { index: self.index, name: self.name@, short: self.short@, label: self.label@ }
    }
}

/// Shuttles and pads among the objects `0..n` that have an actor, in
/// object order; `None` where reading one of them fails (a name index of
/// `i32::MIN`, or a failed lookup of a shuttle's state or slots).
pub open spec fn survey_upto(m: SaveModel, n: nat) -> Option<(Seq<ShipModel>, Seq<PadModel>)>
    decreases n,
{
    if n == 0 {
        Some((Seq::empty(), Seq::empty()))
    } else {
        match survey_upto(m, (n - 1) as nat) {
            None => None,
            Some((ships, pads)) => {
                let i = n - 1;
                let o = m.objects[i];
                let t = trim_nul(o.object_type);
                if spec_actor_of(m, i as usize) is None {
                    Some((ships, pads))
                } else if o.name_index == i32::MIN {
                    None
                } else {
                    let name = spec_name(m.strings, o.name_index);
                    let short = after_last(t, '/');
                    if spec_is_shuttle(t) {
                        match (spec_shuttle_is_lost(m, i as usize), spec_slot_items(m, i as usize)) {
                            (Some(lost), Some(slots)) => Some(
                                (
                                    ships.push(
                                        ShipModel {
                                            index: i as usize,
                                            name,
                                            short,
                                            label: spec_ship_label(short),
                                            lost,
                                            slots,
                                        },
                                    ),
                                    pads,
                                ),
                            ),
                            _ => None,
                        }
                    } else if spec_is_pad(t) {
                        Some(
                            (
                                ships,
                                pads.push(
                                    PadModel {
                                        index: i as usize,
                                        name,
                                        short,
                                        label: spec_prettify(short),
                                    },
                                ),
                            ),
                        )
                    } else {
                        Some((ships, pads))
                    }
                }
            },
        }
    }
}

proof fn lemma_survey_fail(m: SaveModel, i: nat, n: nat)
    requires
        i <= n,
        survey_upto(m, i) is None,
    ensures
        survey_upto(m, n) is None,
    decreases n,
{
    if n > i {
        lemma_survey_fail(m, i, (n - 1) as nat);
    }
}

/// The object index of the host's pawn, when it names an object with an
/// actor.
pub open spec fn spec_host(m: SaveModel) -> Option<usize> {
    match m.host_pawn {
        Some(p) => if spec_actor_of(m, p as usize) is Some {
            Some(p as usize)
        } else {
            None
        },
        None => None,
    }
}

/// The shuttles, pads and host of a save, as the overview shows them.
pub struct Overview {
    pub ships: Vec<ShipInfo>,
    pub pads: Vec<PadInfo>,
    pub host: Option<usize>,
}

/// The models of a sequence of ships.
pub open spec fn ships_view(v: Seq<ShipInfo>) -> Seq<ShipModel> {
    v.map_values(|s: ShipInfo| s@)
}

/// The models of a sequence of pads.
pub open spec fn pads_view(v: Seq<PadInfo>) -> Seq<PadModel> {
    v.map_values(|p: PadInfo| p@)
}

/// The shuttles, pads and host of a save (see [`survey_upto`] and
/// [`spec_host`]); `None` where reading an object fails.
pub fn survey(save: &Save) -> (r: Option<Overview>)
    requires
        save.wf(),
    ensures
        match survey_upto(save@, save@.objects.len()) {
            Some((ships, pads)) => r matches Some(ov) && ships_view(ov.ships@) == ships
                && pads_view(ov.pads@) == pads && ov.host == spec_host(save@),
            None => r is None,
        },
{
    let mut ships: Vec<ShipInfo> = Vec::new();
    let mut pads: Vec<PadInfo> = Vec::new();
    let mut i: usize = 0;
    assert(ships_view(ships@) =~= Seq::<ShipModel>::empty());
    assert(pads_view(pads@) =~= Seq::<PadModel>::empty());
    while i < save.objects.len()
        invariant
            save.wf(),
            i <= save@.objects.len(),
            survey_upto(save@, i as nat) == Some((ships_view(ships@), pads_view(pads@))),
        decreases save.objects.len() - i,
    {
        let ghost before_ships = ships@;
        let ghost before_pads = pads@;
        if save.actor_of(i).is_some() {
            let ni = save.objects[i].name_index;
            if ni == i32::MIN {
                proof {
                    lemma_survey_fail(save@, (i + 1) as nat, save@.objects.len());
                }
                return None;
            }
            let t = clean(save.objects[i].object_type.as_str());
            let name = save.name(ni);
            let short = object_short_type(save, i);
            if is_shuttle(t.as_str()) {
                let lost = match shuttle_is_lost(save, i) {
                    Some(l) => l,
                    None => {
                        proof {
                            lemma_survey_fail(save@, (i + 1) as nat, save@.objects.len());
                        }
                        return None;
                    },
                };
                let slots = match slot_items(save, i) {
                    Some(v) => v,
                    None => {
                        proof {
                            lemma_survey_fail(save@, (i + 1) as nat, save@.objects.len());
                        }
                        return None;
                    },
                };
                let label = ship_label(short.as_str());
                ships.push(ShipInfo { index: i, name, short, label, lost, slots });
                assert(ships_view(ships@) =~= ships_view(before_ships).push(ships@.last()@));
            } else if is_pad(t.as_str()) {
                let label = prettify(short.as_str());
                pads.push(PadInfo { index: i, name, short, label });
                assert(pads_view(pads@) =~= pads_view(before_pads).push(pads@.last()@));
            }
        }
        i += 1;
    }
    let host = match save.host_pawn {
        Some(p) => {
            #[verifier::truncate]
            let pi = (p as usize);
            if save.actor_of(pi).is_some() {
                Some(pi)
            } else {
                None
            }
        },
        None => None,
    };
    Some(Overview { ships, pads, host })
}

/// Objects among `0..n` that are planets (their type holds "T2_Planet")
/// and have an actor, in object order.
pub open spec fn planets_upto(m: SaveModel, n: nat) -> Seq<usize>
    decreases n,
{
    if n == 0 {
        Seq::empty()
    } else {
        let prev = planets_upto(m, (n - 1) as nat);
        let i = n - 1;
        if contains(trim_nul(m.objects[i].object_type), "T2_Planet"@) && spec_actor_of(
            m,
            i as usize,
        ) is Some {
            prev.push(i as usize)
        } else {
            prev
        }
    }
}

/// The planet objects of a save that have an actor (see [`planets_upto`]).
pub fn planet_objects(save: &Save) -> (r: Vec<usize>)
    requires
        save.wf(),
    ensures
        r@ == planets_upto(save@, save@.objects.len()),
{
    let mut r: Vec<usize> = Vec::new();
    let mut i: usize = 0;
    while i < save.objects.len()
        invariant
            save.wf(),
            i <= save@.objects.len(),
            r@ == planets_upto(save@, i as nat),
        decreases save.objects.len() - i,
    {
        let t = clean(save.objects[i].object_type.as_str());
        if str_contains(t.as_str(), "T2_Planet") && save.actor_of(i).is_some() {
            r.push(i);
        }
        i += 1;
    }
    r
}

/// The seats found in slots are distinct objects, none of them object 0.
pub proof fn lemma_seat_scan_distinct(m: SaveModel, d: Seq<u8>, n: nat)
    ensures
        seat_scan(m, d, n).no_duplicates(),
        forall|j: int|
            0 <= j < seat_scan(m, d, n).len() ==> 0 < #[trigger] seat_scan(m, d, n)[j]
                < m.objects.len(),
    decreases n,
{
    if n > 0 {
        lemma_seat_scan_distinct(m, d, (n - 1) as nat);
    }
}

/// The items found in slots come from distinct objects, none of them
/// object 0, one label each.
pub proof fn lemma_slot_scan_distinct(m: SaveModel, d: Seq<u8>, n: nat)
    ensures
        slot_scan(m, d, n).0.no_duplicates(),
        slot_scan(m, d, n).0.len() == slot_scan(m, d, n).1.len(),
        forall|j: int|
            0 <= j < slot_scan(m, d, n).0.len() ==> 0 < #[trigger] slot_scan(m, d, n).0[j]
                < m.objects.len(),
    decreases n,
{
    if n > 0 {
        lemma_slot_scan_distinct(m, d, (n - 1) as nat);
    }
}

/// A shuttle whose automation blob decodes without a `bIsShuttleLost`
/// property is not lost.
pub proof fn lemma_not_lost_without_flag(m: SaveModel, i: usize, auto: usize, props: Seq<PropModel>)
    requires
        spec_comp_obj(m, i, "ShuttleAutomation"@) == Some(Some(auto)),
        auto < m.objects.len(),
        spec_decode(data_blob(m, auto as int), m.strings) == Some(props),
        spec_find_voff(props, "bIsShuttleLost"@) is None,
    ensures
        spec_shuttle_is_lost(m, i) == Some(false),
{
}

/// A shuttle without an automation component is not lost.
pub proof fn lemma_not_lost_without_automation(m: SaveModel, i: usize)
    requires
        spec_comp_obj(m, i, "ShuttleAutomation"@) == Some(None::<usize>),
    ensures
        spec_shuttle_is_lost(m, i) == Some(false),
{
}

/// Where the automation blob of a shuttle decodes with a `bIsShuttleLost`
/// property inside the blob, the shuttle is lost exactly when that byte is
/// nonzero.
pub proof fn lemma_lost_is_flag_byte(m: SaveModel, i: usize, auto: usize, props: Seq<PropModel>, v: usize)
    requires
        spec_comp_obj(m, i, "ShuttleAutomation"@) == Some(Some(auto)),
        auto < m.objects.len(),
        spec_decode(data_blob(m, auto as int), m.strings) == Some(props),
        spec_find_voff(props, "bIsShuttleLost"@) == Some(v),
        v < data_blob(m, auto as int).len(),
    ensures
        spec_shuttle_is_lost(m, i) == Some(data_blob(m, auto as int)[v as int] != 0),
{
}

/// A shuttle is reported lost only when its automation blob decodes with a
/// `bIsShuttleLost` property whose byte is nonzero.
pub proof fn lemma_lost_needs_flag(m: SaveModel, i: usize)
    ensures
        spec_shuttle_is_lost(m, i) == Some(true) ==> exists|auto: usize, v: usize| {
            &&& spec_comp_obj(m, i, "ShuttleAutomation"@) == Some(Some(auto))
            &&& auto < m.objects.len()
            &&& spec_decode(data_blob(m, auto as int), m.strings) matches Some(props)
                && spec_find_voff(props, "bIsShuttleLost"@) == Some(v)
            &&& v < data_blob(m, auto as int).len()
            &&& #[trigger] data_blob(m, auto as int)[v as int] != 0
        },
{
    if spec_shuttle_is_lost(m, i) == Some(true) {
        let auto = spec_comp_obj(m, i, "ShuttleAutomation"@)->Some_0->Some_0;
        let props = spec_decode(data_blob(m, auto as int), m.strings)->Some_0;
        let v = spec_find_voff(props, "bIsShuttleLost"@)->Some_0;
        assert(data_blob(m, auto as int)[v as int] != 0);
    }
}

proof fn lemma_slot_scan_covers(m: SaveModel, d: Seq<u8>, n: nat)
    ensures
        slot_scan(m, d, n).0.len() == slot_scan(m, d, n).1.len(),
        forall|k: int|
            0 <= k < slot_scan(m, d, n).0.len() ==> #[trigger] slot_scan(m, d, n).1[k] == spec_prettify(
                short_type(m.objects[slot_scan(m, d, n).0[k] as int].object_type),
            ),
        forall|w: int|
            0 <= w < n && 0 < (#[trigger] le_u32(d, w)) as usize && (le_u32(d, w) as usize) < m.objects.len()
                && slot_allowed(short_type(m.objects[le_u32(d, w) as usize as int].object_type))
                ==> slot_scan(m, d, n).0.contains(le_u32(d, w) as usize),
    decreases n,
{
    if n > 0 {
        lemma_slot_scan_covers(m, d, (n - 1) as nat);
        let (seen, out) = slot_scan(m, d, (n - 1) as nat);
        let (seen2, out2) = slot_scan(m, d, n);
        assert forall|k: int| 0 <= k < seen2.len() implies #[trigger] out2[k] == spec_prettify(
            short_type(m.objects[seen2[k] as int].object_type),
        ) by {
            if k < seen.len() {
                assert(out2[k] == out[k] && seen2[k] == seen[k]);
            }
        }
        assert forall|w: int|
            0 <= w < n && 0 < (#[trigger] le_u32(d, w)) as usize && (le_u32(d, w) as usize) < m.objects.len()
                && slot_allowed(short_type(m.objects[le_u32(d, w) as usize as int].object_type))
            implies seen2.contains(le_u32(d, w) as usize) by {
            let x = le_u32(d, w) as usize;
            if w < n - 1 {
                let j = choose|j: int| 0 <= j < seen.len() && seen[j] == x;
                assert(seen2[j] == x);
            } else if seen.contains(x) {
                let j = choose|j: int| 0 <= j < seen.len() && seen[j] == x;
                assert(seen2[j] == x);
            } else {
                assert(seen2[seen.len() as int] == x);
            }
        }
    }
}

/// Every object that the slot data of a ship points at (any 4-byte window
/// of its `SlotsComponent` data and custom data, read as an object index
/// other than 0) whose short type names a thruster, seat, storage,
/// canister, battery, generator, oxygen, drill, crane or paver item is
/// listed among the ship's slot items with its readable label.
pub proof fn lemma_slot_items_complete(m: SaveModel, ship_i: usize, sc: usize, w: int)
    requires
        spec_comp_obj(m, ship_i, "SlotsComponent"@) == Some(Some(sc)),
        sc < m.objects.len(),
        0 <= w,
        w + 4 <= slot_bytes(m, sc as int).len(),
        0 < le_u32(slot_bytes(m, sc as int), w) as usize,
        (le_u32(slot_bytes(m, sc as int), w) as usize) < m.objects.len(),
        ({
            let short = short_type(m.objects[le_u32(slot_bytes(m, sc as int), w) as usize as int].object_type);
            ||| contains(short, "Thruster"@)
            ||| contains(short, "Seat"@)
            ||| contains(short, "Storage"@)
            ||| contains(short, "Canister"@)
            ||| contains(short, "Battery"@)
            ||| contains(short, "Generator"@)
            ||| contains(short, "Oxygen"@)
            ||| contains(short, "Drill"@)
            ||| contains(short, "Crane"@)
            ||| contains(short, "Paver"@)
        }),
    ensures
        spec_slot_items(m, ship_i) matches Some(items) && items.contains(
            spec_prettify(short_type(m.objects[le_u32(slot_bytes(m, sc as int), w) as usize as int].object_type)),
        ),
{
    let d = slot_bytes(m, sc as int);
    let x = le_u32(d, w) as usize;
    lemma_slot_scan_covers(m, d, windows(d));
    let (seen, out) = slot_scan(m, d, windows(d));
    assert(0 < le_u32(d, w) as usize);
    assert(seen.contains(x));
    let j = choose|j: int| 0 <= j < seen.len() && seen[j] == x;
    assert(out[j] == spec_prettify(short_type(m.objects[x as int].object_type)));
}

/// Every slot item of a ship is the readable label of an object other
/// than 0 that its slot data points at and whose short type names a slot
/// item kind.
pub proof fn lemma_slot_items_sound(m: SaveModel, ship_i: usize)
    ensures
        spec_slot_items(m, ship_i) matches Some(items) ==> forall|k: int|
            0 <= k < items.len() ==> exists|x: usize| {
                &&& 0 < x < m.objects.len()
                &&& #[trigger] items[k] == spec_prettify(short_type(m.objects[x as int].object_type))
                &&& {
                    let short = short_type(m.objects[x as int].object_type);
                    ||| contains(short, "Thruster"@)
                    ||| contains(short, "Seat"@)
                    ||| contains(short, "Storage"@)
                    ||| contains(short, "Canister"@)
                    ||| contains(short, "Battery"@)
                    ||| contains(short, "Generator"@)
                    ||| contains(short, "Oxygen"@)
                    ||| contains(short, "Drill"@)
                    ||| contains(short, "Crane"@)
                    ||| contains(short, "Paver"@)
                }
            },
{
    if let Some(Some(sc)) = spec_comp_obj(m, ship_i, "SlotsComponent"@) {
        if sc < m.objects.len() {
            let d = slot_bytes(m, sc as int);
            lemma_slot_scan_sound(m, d, windows(d));
            let (seen, out) = slot_scan(m, d, windows(d));
            assert forall|k: int| 0 <= k < out.len() implies exists|x: usize| {
                &&& 0 < x < m.objects.len()
                &&& #[trigger] out[k] == spec_prettify(short_type(m.objects[x as int].object_type))
                &&& {
                    let short = short_type(m.objects[x as int].object_type);
                    ||| contains(short, "Thruster"@)
                    ||| contains(short, "Seat"@)
                    ||| contains(short, "Storage"@)
                    ||| contains(short, "Canister"@)
                    ||| contains(short, "Battery"@)
                    ||| contains(short, "Generator"@)
                    ||| contains(short, "Oxygen"@)
                    ||| contains(short, "Drill"@)
                    ||| contains(short, "Crane"@)
                    ||| contains(short, "Paver"@)
                }
            } by {
                assert(scan_entry_ok(m, seen, out, k));
                let x = seen[k];
                assert(out[k] == spec_prettify(short_type(m.objects[x as int].object_type)));
            }
        }
    }
}

/// Item `k` of a slot scan: the object recorded, its label, and that
/// its short type is a slot item kind.
spec fn scan_entry_ok(m: SaveModel, seen: Seq<usize>, out: Seq<Seq<char>>, k: int) -> bool {
    &&& 0 < seen[k] < m.objects.len()
    &&& out[k] == spec_prettify(short_type(m.objects[seen[k] as int].object_type))
    &&& slot_allowed(short_type(m.objects[seen[k] as int].object_type))
}

proof fn lemma_slot_scan_sound(m: SaveModel, d: Seq<u8>, n: nat)
    ensures
        slot_scan(m, d, n).0.len() == slot_scan(m, d, n).1.len(),
        forall|k: int|
            0 <= k < slot_scan(m, d, n).1.len() ==> #[trigger] scan_entry_ok(
                m,
                slot_scan(m, d, n).0,
                slot_scan(m, d, n).1,
                k,
            ),
    decreases n,
{
    if n > 0 {
        lemma_slot_scan_sound(m, d, (n - 1) as nat);
        let (seen, out) = slot_scan(m, d, (n - 1) as nat);
        let (seen2, out2) = slot_scan(m, d, n);
        assert forall|k: int| 0 <= k < out2.len() implies #[trigger] scan_entry_ok(m, seen2, out2, k) by {
            if k < out.len() {
                assert(scan_entry_ok(m, seen, out, k));
                assert(out2[k] == out[k] && seen2[k] == seen[k]);
            }
        }
    }
}

/// Where looking the flag up fails, the lost status is unknown (`None`): a
/// component lookup that fails, an automation index past the objects, or
/// an automation blob that does not decode.
pub proof fn lemma_lost_lookup_fails(m: SaveModel, i: usize)
    ensures
        spec_comp_obj(m, i, "ShuttleAutomation"@) is None ==> spec_shuttle_is_lost(m, i) is None,
        spec_comp_obj(m, i, "ShuttleAutomation"@) matches Some(Some(auto)) ==> {
            &&& auto >= m.objects.len() ==> spec_shuttle_is_lost(m, i) is None
            &&& auto < m.objects.len() && spec_decode(data_blob(m, auto as int), m.strings) is None
                ==> spec_shuttle_is_lost(m, i) is None
        },
{
}

proof fn lemma_seat_scan_covers(m: SaveModel, d: Seq<u8>, n: nat)
    ensures
        forall|w: int|
            0 <= w < n && 0 < (#[trigger] le_u32(d, w) & 0x0FFF_FFFF) as usize && ((le_u32(d, w)
                & 0x0FFF_FFFF) as usize) < m.objects.len() && contains(
                trim_nul(m.objects[(le_u32(d, w) & 0x0FFF_FFFF) as usize as int].object_type),
                "Seat"@,
            ) ==> seat_scan(m, d, n).contains((le_u32(d, w) & 0x0FFF_FFFF) as usize),
        forall|k: int|
            0 <= k < seat_scan(m, d, n).len() ==> 0 < #[trigger] seat_scan(m, d, n)[k] < m.objects.len()
                && contains(trim_nul(m.objects[seat_scan(m, d, n)[k] as int].object_type), "Seat"@)
                && exists|w: int|
                0 <= w < n && (#[trigger] le_u32(d, w) & 0x0FFF_FFFF) as usize == seat_scan(m, d, n)[k],
    decreases n,
{
    if n > 0 {
        lemma_seat_scan_covers(m, d, (n - 1) as nat);
        let s0 = seat_scan(m, d, (n - 1) as nat);
        let s1 = seat_scan(m, d, n);
        let w0 = n - 1;
        let x = (le_u32(d, w0) & 0x0FFF_FFFF) as usize;
        assert forall|w: int|
            0 <= w < n && 0 < (#[trigger] le_u32(d, w) & 0x0FFF_FFFF) as usize && ((le_u32(d, w)
                & 0x0FFF_FFFF) as usize) < m.objects.len() && contains(
                trim_nul(m.objects[(le_u32(d, w) & 0x0FFF_FFFF) as usize as int].object_type),
                "Seat"@,
            ) implies s1.contains((le_u32(d, w) & 0x0FFF_FFFF) as usize) by {
            let y = (le_u32(d, w) & 0x0FFF_FFFF) as usize;
            if w < n - 1 || s0.contains(y) {
                let j = choose|j: int| 0 <= j < s0.len() && s0[j] == y;
                assert(s1[j] == y);
            } else {
                assert(s1[s0.len() as int] == y);
            }
        }
        assert forall|k: int| 0 <= k < s1.len() implies 0 < #[trigger] s1[k] < m.objects.len()
            && contains(trim_nul(m.objects[s1[k] as int].object_type), "Seat"@)
            && exists|w: int| 0 <= w < n && (#[trigger] le_u32(d, w) & 0x0FFF_FFFF) as usize == s1[k] by {
            if k < s0.len() {
                assert(s1[k] == s0[k]);
                let w = choose|w: int|
                    0 <= w < n - 1 && (#[trigger] le_u32(d, w) & 0x0FFF_FFFF) as usize == s0[k];
                assert(0 <= w < n && (le_u32(d, w) & 0x0FFF_FFFF) as usize == s1[k]);
            } else {
                assert(s1[k] == x);
                assert(0 <= w0 < n && (le_u32(d, w0) & 0x0FFF_FFFF) as usize == s1[k]);
            }
        }
    }
}

/// The seats of a ship are exactly the objects other than 0 whose type
/// holds "Seat" and that some 4-byte window of its `SlotsComponent` data
/// and custom data points at, the window read as a little-endian value
/// whose low 28 bits are the object index.
pub proof fn lemma_ship_seats_exact(m: SaveModel, ship_i: usize, sc: usize)
    requires
        spec_comp_obj(m, ship_i, "SlotsComponent"@) == Some(Some(sc)),
        sc < m.objects.len(),
    ensures
        spec_ship_seats(m, ship_i) matches Some(seats) && {
            let d = slot_bytes(m, sc as int);
            &&& forall|w: int|
                0 <= w && w + 4 <= d.len() && 0 < (#[trigger] le_u32(d, w) & 0x0FFF_FFFF) as usize
                    && ((le_u32(d, w) & 0x0FFF_FFFF) as usize) < m.objects.len() && contains(
                    trim_nul(m.objects[(le_u32(d, w) & 0x0FFF_FFFF) as usize as int].object_type),
                    "Seat"@,
                ) ==> seats.contains((le_u32(d, w) & 0x0FFF_FFFF) as usize)
            &&& forall|k: int|
                0 <= k < seats.len() ==> 0 < #[trigger] seats[k] < m.objects.len() && contains(
                    trim_nul(m.objects[seats[k] as int].object_type),
                    "Seat"@,
                ) && exists|w: int|
                    0 <= w && w + 4 <= d.len() && (#[trigger] le_u32(d, w) & 0x0FFF_FFFF) as usize == seats[k]
        },
{
    let d = slot_bytes(m, sc as int);
    lemma_seat_scan_covers(m, d, windows(d));
    let seats = seat_scan(m, d, windows(d));
    assert forall|k: int| 0 <= k < seats.len() implies 0 < #[trigger] seats[k] < m.objects.len() && contains(
        trim_nul(m.objects[seats[k] as int].object_type),
        "Seat"@,
    ) && exists|w: int|
        0 <= w && w + 4 <= d.len() && (#[trigger] le_u32(d, w) & 0x0FFF_FFFF) as usize == seats[k] by {
        let w = choose|w: int|
            0 <= w < windows(d) && (#[trigger] le_u32(d, w) & 0x0FFF_FFFF) as usize == seats[k];
        assert(0 <= w && w + 4 <= d.len());
    }
}

/// The overview lists only objects with an actor: shuttles among the
/// ships and non-shuttle pads among the pads, each in object order.
pub proof fn lemma_survey_kinds(m: SaveModel, n: nat)
    requires
        n <= m.objects.len(),
        m.objects.len() <= usize::MAX,
    ensures
        survey_upto(m, n) matches Some((ships, pads)) ==> {
            &&& forall|j: int|
                0 <= j < ships.len() ==> {
                    &&& (#[trigger] ships[j]).index < n
                    &&& spec_is_shuttle(trim_nul(m.objects[ships[j].index as int].object_type))
                    &&& spec_actor_of(m, ships[j].index) is Some
                }
            &&& forall|j: int|
                0 <= j < pads.len() ==> {
                    &&& (#[trigger] pads[j]).index < n
                    &&& spec_is_pad(trim_nul(m.objects[pads[j].index as int].object_type))
                    &&& !spec_is_shuttle(trim_nul(m.objects[pads[j].index as int].object_type))
                    &&& spec_actor_of(m, pads[j].index) is Some
                }
            &&& forall|j: int, k: int| 0 <= j < k < ships.len() ==> ships[j].index < ships[k].index
            &&& forall|j: int, k: int| 0 <= j < k < pads.len() ==> pads[j].index < pads[k].index
        },
    decreases n,
{
    if n > 0 {
        lemma_survey_kinds(m, (n - 1) as nat);
    }
}

} // verus!
