use astro_recover::{
    apply_landing, decode_props, find_voff, obj_by_name, parse, parse_decompressed, plan_landing,
    planet_objects, prepare_landing, repack, ship_seats, shuttle_is_lost, slot_items, survey, try_decode_props, Save,
};

struct W(Vec<u8>);

impl W {
    fn new() -> W {
        W(Vec::new())
    }
    fn u8(&mut self, v: u8) {
        self.0.push(v);
    }
    fn u16(&mut self, v: u16) {
        self.0.extend_from_slice(&v.to_le_bytes());
    }
    fn u32(&mut self, v: u32) {
        self.0.extend_from_slice(&v.to_le_bytes());
    }
    fn i32(&mut self, v: i32) {
        self.0.extend_from_slice(&v.to_le_bytes());
    }
    fn i64(&mut self, v: i64) {
        self.0.extend_from_slice(&v.to_le_bytes());
    }
    fn bytes(&mut self, b: &[u8]) {
        self.0.extend_from_slice(b);
    }
    fn string(&mut self, s: &str) {
        self.i32(s.len() as i32);
        self.bytes(s.as_bytes());
    }
}

const STRINGS: [&str; 30] = [
    "bIsShuttleLost",
    "BoolProperty",
    "ShuttleSequenceState",
    "ByteProperty",
    "ReplicatedData",
    "StructProperty",
    "CurrentOrbitingBody",
    "ObjectProperty",
    "TargetOrbitingBody",
    "CurrentComponentTransform",
    "Transform",
    "Rotation",
    "Quat",
    "Translation",
    "Vector",
    "OrbitalNavigation",
    "ShuttleAutomation",
    "SlotsComponent",
    "ActorAttachments",
    "ExitSuppressionCount",
    "IntProperty",
    "MyShuttle",
    "MyPad",
    "EShuttleSequenceState::Landed\0",
    "Planet_X_Terran",
    "MySeat",
    "TargetComponentTransform",
    "SourceOrbitingBody",
    "CurrentTransform",
    "MyShuttle2",
];

fn header(w: &mut W, name: i32, ptype: i32, size: i64) {
    w.i32(name);
    w.i32(ptype);
    w.i64(size);
}

fn struct_prop(w: &mut W, name: i32, stype: i32, body: &[u8]) {
    header(w, name, 6, body.len() as i64);
    w.i32(stype);
    w.bytes(&[0u8; 16]);
    w.u8(0);
    w.bytes(body);
}

fn object_prop(w: &mut W, name: i32, value: i32) {
    header(w, name, 8, 4);
    w.u8(0);
    w.i32(value);
}

fn transform(rot: &[u8; 16], trans: &[u8; 12]) -> Vec<u8> {
    let mut w = W::new();
    struct_prop(&mut w, 12, 13, rot);
    struct_prop(&mut w, 14, 15, trans);
    w.i32(0);
    w.0
}

fn nav_blob(src: i32, cur_rot: &[u8; 16], cur_trans: &[u8; 12]) -> Vec<u8> {
    let mut body = W::new();
    object_prop(&mut body, 7, 5);
    object_prop(&mut body, 9, 6);
    object_prop(&mut body, 28, src);
    struct_prop(&mut body, 29, 11, &transform(cur_rot, cur_trans));
    struct_prop(&mut body, 10, 11, &transform(&[0u8; 16], &[0u8; 12]));
    struct_prop(&mut body, 27, 11, &transform(&[0u8; 16], &[0u8; 12]));
    body.i32(0);
    let mut w = W::new();
    struct_prop(&mut w, 5, 5, &body.0);
    w.i32(0);
    w.0
}

fn auto_blob(lost: u8, state: i32) -> Vec<u8> {
    let mut w = W::new();
    header(&mut w, 1, 2, 0);
    w.u8(lost);
    w.u8(0);
    header(&mut w, 3, 4, 8);
    w.i32(0);
    w.u8(0);
    w.i32(state);
    w.i32(0);
    w.0
}

fn attachments_blob() -> Vec<u8> {
    let mut w = W::new();
    header(&mut w, 20, 21, 4);
    w.u8(0);
    w.i32(3);
    w.i32(0);
    w.0
}

fn rot(seed: u8) -> [u8; 16] {
    let mut r = [0u8; 16];
    for (k, b) in r.iter_mut().enumerate() {
        *b = seed.wrapping_add(k as u8);
    }
    r
}

fn trans(seed: u8) -> [u8; 12] {
    let mut r = [0u8; 12];
    for (k, b) in r.iter_mut().enumerate() {
        *b = seed.wrapping_add(k as u8);
    }
    r
}

struct Obj {
    ty: &'static str,
    name: i32,
    data: Vec<u8>,
    custom: Vec<u8>,
}

struct Act {
    obj: i32,
    comps: Vec<(i32, i32)>,
    rot: [u8; 16],
    trans: [u8; 12],
}

fn level(objects: &[Obj], actors: &[Act], host: Option<u32>) -> Vec<u8> {
    let mut w = W::new();
    w.u32(0x5341_5647);
    w.i32(2);
    w.i32(522);
    w.u16(4);
    w.u16(23);
    w.u16(0);
    w.u32(1234);
    w.string("++UE4+Release-4.23");
    w.i32(3);
    w.u32(1);
    w.bytes(&[9u8; 16]);
    w.i32(1);
    w.string("/Script/Astro.AstroSaveGame");
    w.string("");
    w.i32(0);
    w.u32(0x1c);
    w.u8(0);
    w.string("Level");
    w.u32(0);
    w.u32(0x1c);
    w.i64(STRINGS.len() as i64 + 1);
    for s in STRINGS.iter() {
        w.string(s);
    }
    w.u32(objects.len() as u32);
    for o in objects {
        w.string(o.ty);
        w.i32(o.name);
        w.u32(0);
        w.u8(4);
        w.i32(-1);
        w.u32(o.data.len() as u32);
        w.u32((o.data.len() + o.custom.len()) as u32);
        w.bytes(&o.data);
        w.bytes(&o.custom);
    }
    w.u32(actors.len() as u32);
    for a in actors {
        w.i32(a.obj);
        w.i32(1);
        w.i32(7);
        w.i32(8);
        w.i32(a.comps.len() as i32);
        for (n, o) in a.comps.iter() {
            w.i32(*n);
            w.i32(*o);
        }
        w.bytes(&a.rot);
        w.bytes(&a.trans);
        w.bytes(&[0u8; 12]);
    }
    w.u32(2);
    w.u32(0);
    w.u32(4);
    w.u32(0);
    if let Some(p) = host {
        w.i32(1);
        w.u32(3);
        w.u32(p);
        w.bytes(&[0u8; 8]);
    }
    w.0
}

fn sample_level() -> Vec<u8> {
    let mut slots = W::new();
    slots.u32(5);
    slots.u32(5);
    let objects = vec![
        Obj { ty: "/Game/Shuttle_T2_ThrusterSlot.Shuttle_T2_ThrusterSlot_C", name: 22, data: vec![], custom: vec![] },
        Obj { ty: "/Script/Astro.OrbitalNavigationComponent", name: 16, data: nav_blob(11, &rot(100), &trans(120)), custom: vec![] },
        Obj { ty: "/Script/Astro.ShuttleAutomationComponent", name: 17, data: auto_blob(1, 7), custom: vec![] },
        Obj { ty: "/Script/Astro.SlotsComponent", name: 18, data: vec![], custom: slots.0 },
        Obj { ty: "/Game/DeployableLandingPad.DeployableLandingPad_C\0", name: 23, data: vec![], custom: vec![] },
        Obj { ty: "/Game/Seat_Medium.Seat_Medium_C", name: 26, data: vec![], custom: vec![] },
        Obj { ty: "/Script/Astro.ActorAttachmentsComponent", name: 19, data: attachments_blob(), custom: vec![] },
        Obj { ty: "/Game/T2_Planet_Terran.T2_Planet_Terran_C", name: 25, data: vec![], custom: vec![] },
        Obj { ty: "/Game/Shuttle_T3_ThrusterSlot.Shuttle_T3_ThrusterSlot_C", name: 30, data: vec![], custom: vec![] },
        Obj { ty: "/Script/Astro.OrbitalNavigationComponent", name: 16, data: nav_blob(42, &rot(140), &trans(160)), custom: vec![] },
        Obj { ty: "/Script/Astro.ShuttleAutomationComponent", name: 17, data: auto_blob(0, 99), custom: vec![] },
    ];
    let actors = vec![
        Act { obj: 0, comps: vec![(16, 1), (17, 2), (18, 3)], rot: rot(1), trans: trans(20) },
        Act { obj: 4, comps: vec![], rot: rot(40), trans: trans(60) },
        Act { obj: 5, comps: vec![(19, 6)], rot: rot(80), trans: trans(90) },
        Act { obj: 7, comps: vec![(16, 9)], rot: rot(200), trans: trans(220) },
        Act { obj: 8, comps: vec![(16, 9), (17, 10)], rot: rot(180), trans: trans(230) },
    ];
    level(&objects, &actors, Some(0))
}

fn sample_blob() -> Vec<u8> {
    let header: Vec<u8> = (100u8..116).collect();
    repack(&header, &sample_level())
}

fn sample_save() -> Save {
    parse(&sample_blob()).unwrap()
}

fn blob_of(save: &Save, o: usize) -> Vec<u8> {
    let r = &save.objects[o];
    save.raw[r.data_off..r.data_off + r.data_len].to_vec()
}

fn i32_at(b: &[u8], off: usize) -> i32 {
    i32::from_le_bytes(b[off..off + 4].try_into().unwrap())
}

#[test]
fn parse_reads_records() {
    let save = sample_save();
    let mut want_header: Vec<u8> = (100u8..112).collect();
    want_header.extend_from_slice(&(sample_level().len() as u32).to_le_bytes());
    assert_eq!(save.header, want_header);
    assert_eq!(save.raw, sample_level());
    assert_eq!(save.strings.len(), STRINGS.len());
    assert_eq!(save.strings[23], "EShuttleSequenceState::Landed\0");
    assert_eq!(save.objects.len(), 11);
    assert_eq!(save.objects[4].object_type, "/Game/DeployableLandingPad.DeployableLandingPad_C\0");
    assert_eq!(save.objects[3].data_len, 0);
    assert_eq!(save.objects[3].custom_len, 8);
    assert_eq!(save.objects[3].custom_off, save.objects[3].data_off);
    assert_eq!(save.actors.len(), 5);
    assert_eq!(save.actors[0].components, vec![(16, 1), (17, 2), (18, 3)]);
    assert_eq!(save.actors[0].trans_off, save.actors[0].rot_off + 16);
    assert_eq!(&save.raw[save.actors[1].rot_off..save.actors[1].rot_off + 16], &rot(40));
    assert_eq!(save.abo.get(&4), Some(&1));
    assert_eq!(save.abo.len(), 5);
    assert_eq!(save.host_pawn, Some(0));
    for o in &save.objects {
        assert!(o.data_off + o.data_len <= save.raw.len());
        assert!(o.custom_off + o.custom_len <= save.raw.len());
    }
    for (ai, a) in save.actors.iter().enumerate() {
        assert!(a.trans_off + 12 <= save.raw.len());
        assert_eq!(save.abo.get(&a.object_index), Some(&ai));
    }
}

#[test]
fn parse_accepts_deflated_data() {
    let raw = sample_level();
    let mut blob: Vec<u8> = vec![0u8; 16];
    blob.extend_from_slice(&miniz_oxide::deflate::compress_to_vec_zlib(&raw, 6));
    let save = parse(&blob).unwrap();
    assert_eq!(save.raw, raw);
    assert_eq!(save.objects.len(), 11);
}

#[test]
fn parse_without_host_record() {
    let raw = level(&[], &[], None);
    let save = parse_decompressed(vec![0u8; 16], raw).unwrap();
    assert_eq!(save.host_pawn, None);
    assert!(save.objects.is_empty());
    assert!(save.abo.is_empty());
}

#[test]
fn parse_errors() {
    assert_eq!(parse(&[0u8; 15]).err(), Some("file too small".to_string()));
    let err = parse(&[0u8; 20]).err().unwrap();
    assert!(err.starts_with("zlib inflate failed: "));
    let mut raw = sample_level();
    raw.truncate(raw.len() - 30);
    let blob = repack(&[0u8; 16], &raw);
    assert_eq!(parse(&blob).err(), Some("save data is truncated or malformed".to_string()));
    assert!(parse_decompressed(vec![0u8; 16], vec![1, 2, 3]).is_none());
}

#[test]
fn parse_rejects_inconsistent_custom_size() {
    let mut w = W::new();
    let objects = vec![Obj { ty: "X", name: 1, data: vec![1, 2, 3], custom: vec![] }];
    let good = level(&objects, &[], None);
    // lower the total size below the data size
    let pos = good.windows(4).position(|x| x == [3, 0, 0, 0]).unwrap();
    w.bytes(&good[..pos + 4]);
    w.u32(2);
    w.bytes(&good[pos + 8..]);
    assert!(parse_decompressed(vec![0u8; 16], good).is_some());
    assert!(parse_decompressed(vec![0u8; 16], w.0).is_none());
}

#[test]
fn names_and_lookups() {
    let save = sample_save();
    assert_eq!(save.name(0), "None");
    assert_eq!(save.name(22), "MyShuttle");
    assert_eq!(save.name(24), "EShuttleSequenceState::Landed");
    assert_eq!(save.name(-3), "");
    assert_eq!(save.name(999), "");
    assert_eq!(save.find_string_index("EShuttleSequenceState::Landed"), Some(24));
    assert_eq!(save.find_string_index("Nope"), None);
    assert_eq!(save.comp_obj(0, "ShuttleAutomation"), Some(Some(2)));
    assert_eq!(save.comp_obj(0, "ActorAttachments"), Some(None));
    assert_eq!(save.comp_obj(1, "ShuttleAutomation"), Some(None));
    assert!(save.actor_of(1).is_none());
    assert_eq!(save.actor_of(5).unwrap().components, vec![(19, 6)]);
    assert_eq!(obj_by_name(&save, "MyPad"), Some(Some(4)));
    assert_eq!(save.name(save.objects[4].name_index), "MyPad");
    assert_eq!(obj_by_name(&save, "OrbitalNavigation"), Some(Some(1)));
    assert_eq!(obj_by_name(&save, "Nobody"), Some(None));
}

#[test]
fn decode_navigation_props() {
    let save = sample_save();
    let blob = blob_of(&save, 1);
    let props = decode_props(&blob, &save);
    let listed: Vec<(String, String)> = props.iter().map(|p| (p.path.clone(), p.ptype.clone())).collect();
    let want: Vec<(&str, &str)> = vec![
        ("ReplicatedData.CurrentOrbitingBody", "ObjectProperty"),
        ("ReplicatedData.TargetOrbitingBody", "ObjectProperty"),
        ("ReplicatedData.SourceOrbitingBody", "ObjectProperty"),
        ("ReplicatedData.CurrentTransform.Rotation", "Struct:Quat"),
        ("ReplicatedData.CurrentTransform.Translation", "Struct:Vector"),
        ("ReplicatedData.CurrentComponentTransform.Rotation", "Struct:Quat"),
        ("ReplicatedData.CurrentComponentTransform.Translation", "Struct:Vector"),
        ("ReplicatedData.TargetComponentTransform.Rotation", "Struct:Quat"),
        ("ReplicatedData.TargetComponentTransform.Translation", "Struct:Vector"),
    ];
    let want: Vec<(String, String)> = want.iter().map(|(a, b)| (a.to_string(), b.to_string())).collect();
    assert_eq!(listed, want);
    let v = find_voff(&props, "ReplicatedData.SourceOrbitingBody").unwrap();
    assert_eq!(i32_at(&blob, v), 11);
    let r = find_voff(&props, "ReplicatedData.CurrentTransform.Rotation").unwrap();
    assert_eq!(&blob[r..r + 16], &rot(100));
    assert_eq!(find_voff(&props, "Nope"), None);
}

#[test]
fn decode_automation_props() {
    let save = sample_save();
    let blob = blob_of(&save, 2);
    let props = decode_props(&blob, &save);
    assert_eq!(props.len(), 2);
    assert_eq!(props[0].path, "bIsShuttleLost");
    assert_eq!(props[0].ptype, "BoolProperty");
    assert_eq!(props[0].voff, 16);
    assert_eq!(props[1].path, "ShuttleSequenceState");
    assert_eq!(props[1].voff, 18 + 16 + 5);
    assert_eq!(i32_at(&blob, props[1].voff), 7);
}

#[test]
fn decode_failures_and_edges() {
    let save = sample_save();
    // a name index that cannot be looked up
    let mut w = W::new();
    w.i32(i32::MIN);
    w.i32(0);
    assert!(try_decode_props(&w.0, &save).is_none());
    // a blob that ends inside a header
    let mut w = W::new();
    w.i32(1);
    w.i32(2);
    w.i32(0);
    assert!(try_decode_props(&w.0, &save).is_none());
    // fewer than four bytes: nothing to read
    assert_eq!(try_decode_props(&[1, 2, 3], &save).map(|v| v.len()), Some(0));
    // other property types
    let mut w = W::new();
    header(&mut w, 3, 21, 4);
    w.u8(0);
    w.i32(5);
    header(&mut w, 9, 4, 1);
    w.i32(0);
    w.u8(0);
    w.u8(7);
    header(&mut w, 7, 2, 0);
    w.bytes(&[1, 0]);
    w.i32(0);
    let props = try_decode_props(&w.0, &save).unwrap();
    assert_eq!(props.len(), 3);
    assert_eq!(props[0].ptype, "IntProperty");
    assert_eq!(props[0].voff, 17);
    assert_eq!(props[1].path, "TargetOrbitingBody");
    assert_eq!(props[1].voff, 21 + 16 + 5);
    assert_eq!(props[2].voff, 21 + 16 + 6 + 16);
}

#[test]
fn lost_slots_and_seats() {
    let save = sample_save();
    assert_eq!(shuttle_is_lost(&save, 0), Some(true));
    assert_eq!(shuttle_is_lost(&save, 8), Some(false));
    assert_eq!(shuttle_is_lost(&save, 4), Some(false));
    assert_eq!(slot_items(&save, 0), Some(vec!["Medium Seat".to_string()]));
    assert_eq!(slot_items(&save, 8), Some(vec![]));
    assert_eq!(ship_seats(&save, 0), Some(vec![5]));
    assert_eq!(ship_seats(&save, 4), Some(vec![]));
    assert_eq!(planet_objects(&save), vec![7]);
}

#[test]
fn survey_lists_ships_and_pads() {
    let save = sample_save();
    let ov = survey(&save).unwrap();
    assert_eq!(ov.ships.len(), 2);
    let s = &ov.ships[0];
    assert_eq!(s.index, 0);
    assert_eq!(s.name, "MyShuttle");
    assert_eq!(s.short, "Shuttle_T2_ThrusterSlot.Shuttle_T2_ThrusterSlot_C");
    assert_eq!(s.label, "Small Shuttle");
    assert!(s.lost);
    assert_eq!(s.slots, vec!["Medium Seat".to_string()]);
    assert_eq!(ov.ships[1].index, 8);
    assert_eq!(ov.ships[1].label, "Medium Shuttle");
    assert!(!ov.ships[1].lost);
    assert_eq!(ov.pads.len(), 1);
    assert_eq!(ov.pads[0].index, 4);
    assert_eq!(ov.pads[0].name, "MyPad");
    assert_eq!(ov.pads[0].short, "DeployableLandingPad.DeployableLandingPad_C");
    assert_eq!(ov.pads[0].label, "Deployable Landing Pad");
    assert_eq!(ov.host, Some(0));
}

#[test]
fn plan_landing_outcomes() {
    let save = sample_save();
    let plan = plan_landing(&save, "MyShuttle", "MyPad").unwrap();
    assert_eq!((plan.ship_i, plan.pad_i), (0, 4));
    assert_eq!(plan.candidates, vec![8]);
    let plan2 = plan_landing(&save, "MyShuttle2", "MyPad").unwrap();
    assert_eq!(plan2.candidates, vec![]);
    assert_eq!(plan_landing(&save, "Nobody", "MyPad").err(), Some("ship not found".to_string()));
    assert_eq!(plan_landing(&save, "MyShuttle", "Nobody").err(), Some("pad not found".to_string()));
    assert_eq!(
        plan_landing(&save, "MyPad", "MyPad").err(),
        Some("selected object is not a shuttle".to_string())
    );
    assert_eq!(
        plan_landing(&save, "MyShuttle", "OrbitalNavigation").err(),
        Some("pad has no transform".to_string())
    );
}

fn pos_bits() -> (u32, u32, u32) {
    (1.0f32.to_bits(), 2.0f32.to_bits(), 3.0f32.to_bits())
}

fn pos_bytes() -> Vec<u8> {
    let mut v = Vec::new();
    v.extend_from_slice(&1.0f32.to_le_bytes());
    v.extend_from_slice(&2.0f32.to_le_bytes());
    v.extend_from_slice(&3.0f32.to_le_bytes());
    v
}

fn voff_of(save: &Save, o: usize, path: &str) -> usize {
    let blob = blob_of(save, o);
    let props = decode_props(&blob, save);
    save.objects[o].data_off + find_voff(&props, path).unwrap()
}

#[test]
fn landing_without_reference() {
    let save = sample_save();
    let out = apply_landing(&save, 0, 4, None, pos_bits()).unwrap();
    assert_eq!(&out[..12], &save.header[..12]);
    let after = parse(&out).unwrap();
    assert_eq!(after.raw.len(), save.raw.len());
    let r = &after.raw;
    assert_eq!(r[voff_of(&save, 2, "bIsShuttleLost")], 0);
    assert_eq!(i32_at(r, voff_of(&save, 2, "ShuttleSequenceState")), 24);
    assert_eq!(i32_at(r, voff_of(&save, 1, "ReplicatedData.CurrentOrbitingBody")), -1);
    assert_eq!(i32_at(r, voff_of(&save, 1, "ReplicatedData.TargetOrbitingBody")), -1);
    // without a reference, the source body and landed transforms stay
    assert_eq!(i32_at(r, voff_of(&save, 1, "ReplicatedData.SourceOrbitingBody")), 11);
    let cr = voff_of(&save, 1, "ReplicatedData.CurrentTransform.Rotation");
    assert_eq!(&r[cr..cr + 16], &rot(100));
    // the pad's rotation and the new translation go to the component transforms and the actor
    for base in ["ReplicatedData.CurrentComponentTransform", "ReplicatedData.TargetComponentTransform"] {
        let ro = voff_of(&save, 1, &format!("{}.Rotation", base));
        assert_eq!(&r[ro..ro + 16], &rot(40));
        let tr = voff_of(&save, 1, &format!("{}.Translation", base));
        assert_eq!(&r[tr..tr + 12], &pos_bytes()[..]);
    }
    let a = &save.actors[0];
    assert_eq!(&r[a.rot_off..a.rot_off + 16], &rot(40));
    assert_eq!(&r[a.trans_off..a.trans_off + 12], &pos_bytes()[..]);
    assert_eq!(i32_at(r, voff_of(&save, 6, "ExitSuppressionCount")), 0);
    // nothing else moved
    let untouched = save.actors[1].rot_off;
    assert_eq!(&r[untouched..untouched + 28], &save.raw[untouched..untouched + 28]);
}

#[test]
fn landing_with_reference() {
    let save = sample_save();
    let out = apply_landing(&save, 0, 4, Some(8), pos_bits()).unwrap();
    let after = parse(&out).unwrap();
    let r = &after.raw;
    assert_eq!(i32_at(r, voff_of(&save, 2, "ShuttleSequenceState")), 99);
    assert_eq!(i32_at(r, voff_of(&save, 1, "ReplicatedData.SourceOrbitingBody")), 42);
    let cr = voff_of(&save, 1, "ReplicatedData.CurrentTransform.Rotation");
    assert_eq!(&r[cr..cr + 16], &rot(140));
    let ct = voff_of(&save, 1, "ReplicatedData.CurrentTransform.Translation");
    assert_eq!(&r[ct..ct + 12], &trans(160));
    let a = &save.actors[0];
    assert_eq!(&r[a.rot_off..a.rot_off + 16], &rot(180));
}

#[test]
fn landing_errors() {
    let save = sample_save();
    assert_eq!(
        apply_landing(&save, 4, 4, None, pos_bits()).err(),
        Some("ship has no OrbitalNavigation".to_string())
    );
    assert_eq!(
        apply_landing(&save, 7, 4, None, pos_bits()).err(),
        Some("ship has no ShuttleAutomation".to_string())
    );
    assert_eq!(
        apply_landing(&save, 0, 1, None, pos_bits()).err(),
        Some("save data is truncated or malformed".to_string())
    );
    // a reference shuttle without its components cannot be read
    assert_eq!(
        apply_landing(&save, 0, 4, Some(4), pos_bits()).err(),
        Some("save data is truncated or malformed".to_string())
    );
}

#[test]
fn parse_inflate_error_gives_the_error_text() {
    let blob = [0u8; 20];
    let e = miniz_oxide::inflate::decompress_to_vec_zlib(&blob[16..]).unwrap_err();
    assert_eq!(parse(&blob).err(), Some(format!("zlib inflate failed: {:?}", e)));
}

#[test]
fn records_lie_in_file_order() {
    let save = sample_save();
    let n = save.objects.len();
    for k in 0..n {
        let o = &save.objects[k];
        assert_eq!(o.data_off + o.data_len, o.custom_off);
        assert!(o.custom_off + o.custom_len + 4 <= save.raw.len());
        if k + 1 < n {
            assert!(o.custom_off + o.custom_len < save.objects[k + 1].data_off);
        }
    }
    for a in &save.actors {
        assert_eq!(a.trans_off, a.rot_off + 16);
        assert!(a.trans_off + 28 <= save.raw.len());
    }
    let mut distinct: Vec<i32> = save.actors.iter().map(|a| a.object_index).collect();
    distinct.sort();
    distinct.dedup();
    assert_eq!(save.abo.len(), distinct.len());
}

#[test]
fn prepare_landing_hands_on_errors() {
    assert_eq!(prepare_landing(&[0u8; 10], "MyShuttle", "MyPad").err(), Some("file too small".to_string()));
    let bad = [0u8; 20];
    assert_eq!(prepare_landing(&bad, "MyShuttle", "MyPad").err(), parse(&bad).err());
    let blob = sample_blob();
    assert_eq!(prepare_landing(&blob, "Nobody", "MyPad").err(), Some("ship not found".to_string()));
    let (save, plan) = prepare_landing(&blob, "MyShuttle", "MyPad").unwrap();
    assert_eq!(save.raw, sample_level());
    assert_eq!((plan.ship_i, plan.pad_i), (0, 4));
    assert_eq!(plan.candidates, vec![8]);
}

#[test]
fn landed_save_keeps_its_layout() {
    let save = sample_save();
    let out = apply_landing(&save, 0, 4, Some(8), pos_bits()).unwrap();
    assert_eq!(&out[..12], &save.header[..12]);
    assert_eq!(&out[12..16], &(save.raw.len() as u32).to_le_bytes());
    let after = parse(&out).unwrap();
    assert_eq!(after.raw.len(), save.raw.len());
    assert_eq!(after.strings, save.strings);
    assert_eq!(after.objects.len(), save.objects.len());
    for (a, b) in after.objects.iter().zip(save.objects.iter()) {
        assert_eq!(a.object_type, b.object_type);
        assert_eq!(a.name_index, b.name_index);
        assert_eq!((a.data_off, a.data_len, a.custom_off, a.custom_len), (b.data_off, b.data_len, b.custom_off, b.custom_len));
    }
    assert_eq!(after.actors.len(), save.actors.len());
    for (a, b) in after.actors.iter().zip(save.actors.iter()) {
        assert_eq!(a.object_index, b.object_index);
        assert_eq!(a.components, b.components);
        assert_eq!((a.rot_off, a.trans_off), (b.rot_off, b.trans_off));
    }
    assert_eq!(after.abo, save.abo);
    assert_eq!(after.host_pawn, save.host_pawn);
    // the patched automation still decodes, now landed
    assert_eq!(shuttle_is_lost(&save, 0), Some(true));
    assert_eq!(shuttle_is_lost(&after, 0), Some(false));
    let before_props = decode_props(&blob_of(&save, 2), &save);
    let after_props = decode_props(&blob_of(&after, 2), &after);
    assert_eq!(before_props.len(), after_props.len());
    for (a, b) in before_props.iter().zip(after_props.iter()) {
        assert_eq!((&a.path, &a.ptype, a.voff), (&b.path, &b.ptype, b.voff));
    }
}
