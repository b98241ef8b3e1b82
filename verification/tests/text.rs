use astro_recover::text::{nth_piece, str_contains};
use astro_recover::{adler32, clean, is_pad, is_shuttle, jstr, planet_label, prettify, repack, ship_label};

#[test]
fn clean_drops_trailing_nuls() {
    assert_eq!(clean("abc\0\0"), "abc");
    assert_eq!(clean("a\0b\0"), "a\0b");
    assert_eq!(clean("\0"), "");
    assert_eq!(clean("plain"), "plain");
}

#[test]
fn jstr_escapes_quotes_and_backslashes() {
    assert_eq!(jstr("a\"b\\c"), "\"a\\\"b\\\\c\"");
    assert_eq!(jstr(""), "\"\"");
    assert_eq!(jstr("Sylva"), "\"Sylva\"");
}

fn read_json_string(t: &str) -> Option<String> {
    let mut it = t.chars();
    if it.next()? != '"' {
        return None;
    }
    let mut out = String::new();
    loop {
        match it.next()? {
            '"' => return if it.next().is_none() { Some(out) } else { None },
            '\\' => out.push(it.next()?),
            c => out.push(c),
        }
    }
}

#[test]
fn jstr_reads_back() {
    for s in ["", "plain", "q\"uote", "back\\slash", "\\\"", "tab\tand é"] {
        assert_eq!(read_json_string(&jstr(s)), Some(s.to_string()));
    }
}

#[test]
fn clean_is_idempotent() {
    for s in ["x\0\0", "\0a\0", "", "abc"] {
        let once = clean(s);
        assert_eq!(clean(&once), once);
        assert!(s.starts_with(once.as_str()));
        assert!(!once.ends_with('\0'));
    }
}

#[test]
fn prettify_known_and_spelled_out() {
    assert_eq!(prettify("Thruster_Medium.Thruster_Medium_C"), "Hydrazine Thruster");
    assert_eq!(prettify("Thruster_Medium_Consumable.X"), "Solid-Fuel Thruster");
    assert_eq!(prettify("Item_ModernPOI_ShuttlePlatform"), "Shuttle Platform (POI)");
    assert_eq!(prettify("Storage_Small.Storage_C"), "Storage Small");
    assert_eq!(prettify("MyFancyItem"), "My Fancy Item");
    assert_eq!(prettify("ABCThing"), "ABCThing");
    assert_eq!(prettify(""), "");
}

#[test]
fn ship_labels() {
    assert_eq!(ship_label("Shuttle_T2_ThrusterSlot.Shuttle_T2_ThrusterSlot_C"), "Small Shuttle");
    assert_eq!(ship_label("Shuttle_T3_Slot"), "Medium Shuttle");
    assert_eq!(ship_label("Shuttle_T4_Slot"), "Large Shuttle");
    assert_eq!(ship_label("Rover_Large"), "Rover Large");
}

#[test]
fn planet_labels() {
    assert_eq!(planet_label("Planet_X_Terran"), "Sylva");
    assert_eq!(planet_label("Planet_X_TerranMoon_Y"), "Desolo");
    assert_eq!(planet_label("Planet_X_Radiated"), "Atrox");
    assert_eq!(planet_label("A_B_Foo_Bar"), "Foo");
    assert_eq!(planet_label("Moon"), "");
    assert_eq!(planet_label("A_B"), "");
}

#[test]
fn nth_piece_splits() {
    assert_eq!(nth_piece("a_b_c", '_', 0), Some("a".to_string()));
    assert_eq!(nth_piece("a_b_c", '_', 2), Some("c".to_string()));
    assert_eq!(nth_piece("a_b_c", '_', 3), None);
    assert_eq!(nth_piece("__", '_', 2), Some(String::new()));
}

#[test]
fn contains_and_kinds() {
    assert!(str_contains("abc", ""));
    assert!(str_contains("abc", "bc"));
    assert!(!str_contains("abc", "abcd"));
    assert!(is_shuttle("/Game/Shuttle_T2_ThrusterSlot.Shuttle_T2_ThrusterSlot_C"));
    assert!(!is_shuttle("/Game/Shuttle_T2.Shuttle_T2_C"));
    assert!(is_pad("/Game/DeployableLandingPad.X"));
    assert!(is_pad("Item_ModernPOI_ShuttlePlatform"));
    assert!(!is_pad("Seat_Medium"));
}

#[test]
fn adler32_known_values() {
    assert_eq!(adler32(b"Wikipedia"), 0x11E6_0398);
    assert_eq!(adler32(b""), 1);
    assert_eq!(adler32(b"hello"), 0x062C_0215);
}

#[test]
fn repack_layout() {
    let header: Vec<u8> = (0u8..16).collect();
    let out = repack(&header, b"hello");
    let mut want: Vec<u8> = (0u8..12).collect();
    want.extend_from_slice(&[5, 0, 0, 0, 0x48, 0x89, 1, 5, 0, 0xfa, 0xff]);
    want.extend_from_slice(b"hello");
    want.extend_from_slice(&[0x06, 0x2c, 0x02, 0x15]);
    assert_eq!(out, want);
}

#[test]
fn repack_empty_has_final_empty_block() {
    let header = [7u8; 12];
    let out = repack(&header, b"");
    assert_eq!(out, vec![7, 7, 7, 7, 7, 7, 7, 7, 7, 7, 7, 7, 0, 0, 0, 0, 0x48, 0x89, 1, 0, 0, 0xff, 0xff, 0, 0, 0, 1]);
}

#[test]
fn repack_inflates_back() {
    let header = [0u8; 16];
    let raw: Vec<u8> = (0..70000u32).map(|i| (i * 7 % 251) as u8).collect();
    let out = repack(&header, &raw);
    assert_eq!(&out[12..16], &(70000u32).to_le_bytes());
    // two stored blocks: 65535 bytes then the rest
    assert_eq!(out[18], 0);
    assert_eq!(out[18 + 5 + 65535], 1);
    let back = miniz_oxide::inflate::decompress_to_vec_zlib(&out[16..]).unwrap();
    assert_eq!(back, raw);
}

#[test]
fn jstr_length_counts_escapes() {
    for s in ["", "plain", "a\"b\\c", "\"\"\\"] {
        let extra = s.chars().filter(|c| *c == '"' || *c == '\\').count();
        assert_eq!(jstr(s).chars().count(), s.chars().count() + 2 + extra);
    }
}

#[test]
fn prettify_only_inserts_spaces() {
    for short in ["Shuttle_T2_ThrusterSlot.Shuttle_C", "ResourceCanisterXL", "Seat_Medium.X", "abcDef_ghi"] {
        let base = short.split('.').next().unwrap();
        assert_eq!(prettify(short), prettify(base));
    }
    for base in ["Shuttle_T2_ThrusterSlot", "ResourceCanisterXL", "abcDef_ghi"] {
        let label = prettify(base);
        assert!(!label.contains('_'));
        let a: String = label.chars().filter(|c| *c != ' ').collect();
        let b: String = base.chars().filter(|c| *c != ' ' && *c != '_').collect();
        assert_eq!(a, b);
    }
}
