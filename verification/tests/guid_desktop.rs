use tile_wm::desktop::{
    current_desktop_guid, desktop_count_from_ids_size, desktop_number_of, desktop_numbers, find_desktop_index,
    needs_switch, neighbor_desktop_index, switch_target, RegistryValue,
};
use tile_wm::guid::parse_guid_string;

/// A string as the registry stores it: UTF-16 code units, low byte first,
/// followed by a NUL unit.
fn reg_sz(text: &str) -> Vec<u8> {
    let mut b: Vec<u8> = text.encode_utf16().flat_map(|u| u.to_le_bytes()).collect();
    b.extend_from_slice(&[0, 0]);
    b
}

const GUID_TEXT: &str = "{12345678-9ABC-DEF0-1122-334455667788}";
const GUID_BYTES: [u8; 16] = [
    0x78, 0x56, 0x34, 0x12, 0xBC, 0x9A, 0xF0, 0xDE, 0x11, 0x22, 0x33, 0x44, 0x55, 0x66, 0x77, 0x88,
];

#[test]
fn guid_string_parses_to_binary_layout() {
    assert_eq!(parse_guid_string(GUID_TEXT), Some(GUID_BYTES.to_vec()));
    assert_eq!(parse_guid_string("  12345678-9abc-def0-1122-334455667788 \n"), Some(GUID_BYTES.to_vec()));
}

#[test]
fn guid_string_rejects_malformed_input() {
    assert_eq!(parse_guid_string("{12345678-9ABC-DEF0-1122}"), None);
    assert_eq!(parse_guid_string("{12345678-9ABC-DEF0-1122-33445566778G}"), None);
    assert_eq!(parse_guid_string("{123456789-9ABC-DEF0-1122-334455667788}"), None);
    assert_eq!(parse_guid_string("{12345678-9ABC-DEF0-112-334455667788}"), None);
    assert_eq!(parse_guid_string("{12345678--DEF0-1122-334455667788}"), None);
    assert_eq!(parse_guid_string(""), None);
}

#[test]
fn guid_groups_must_have_guid_lengths() {
    // Five hexadecimal groups of other lengths are not a GUID.
    assert_eq!(parse_guid_string("1-2-3-04-05"), None);
    assert_eq!(parse_guid_string("{1234567-9ABC-DEF0-1122-334455667788}"), None);
    assert_eq!(parse_guid_string("{12345678-9ABC-DEF0-1122-3344556677889}"), None);
    // A sign is not a hexadecimal digit, and white space inside a group is not allowed.
    assert_eq!(parse_guid_string("{+2345678-9ABC-DEF0-1122-334455667788}"), None);
    assert_eq!(parse_guid_string("{12345678-9ABC-DEF0- 122-334455667788}"), None);
    // Braces are optional, surrounding white space is ignored, case does not matter.
    assert_eq!(parse_guid_string("\t12345678-9abc-DEF0-1122-334455667788}"), Some(GUID_BYTES.to_vec()));
    assert_eq!(parse_guid_string("{00000000-0000-0000-0000-000000000000}"), Some(vec![0u8; 16]));
    assert_eq!(parse_guid_string("FFFFFFFF-FFFF-FFFF-FFFF-FFFFFFFFFFFF"), Some(vec![0xFFu8; 16]));
}

#[test]
fn guid_with_multibyte_chars_is_rejected() {
    assert_eq!(parse_guid_string("1-2-3-é-05"), None);
    assert_eq!(parse_guid_string("{12345678-9ABC-DEF0-0é0-334455667788}"), None);
    assert_eq!(parse_guid_string("{12345678-9ABC-DEF0-1122-33445566778é}"), None);
}

#[test]
fn desktop_number_from_registry_ids() {
    let mut ids = vec![0u8; 16];
    ids.extend_from_slice(&GUID_BYTES);
    ids.extend_from_slice(&[7u8; 16]);
    assert_eq!(desktop_number_of(&ids, &GUID_BYTES.to_vec()), Some(2));
    assert_eq!(desktop_number_of(&ids, &vec![7u8; 16]), Some(3));
    assert_eq!(desktop_number_of(&ids, &vec![9u8; 16]), None);
    assert_eq!(desktop_number_of(&ids, &vec![0u8; 10]), None);
    let mut partial = GUID_BYTES.to_vec();
    partial.truncate(8);
    assert_eq!(desktop_number_of(&partial, &GUID_BYTES.to_vec()), None);
}

#[test]
fn current_guid_from_registry_value() {
    assert_eq!(current_desktop_guid(&RegistryValue::Binary(GUID_BYTES.to_vec())), Some(GUID_BYTES.to_vec()));
    assert_eq!(current_desktop_guid(&RegistryValue::Binary(vec![1, 2, 3])), None);
    assert_eq!(current_desktop_guid(&RegistryValue::Text(reg_sz(GUID_TEXT))), Some(GUID_BYTES.to_vec()));
    assert_eq!(current_desktop_guid(&RegistryValue::Text(reg_sz("not a guid"))), None);
    assert_eq!(current_desktop_guid(&RegistryValue::Other), None);
}

#[test]
fn registry_text_ends_at_nul() {
    assert_eq!(current_desktop_guid(&RegistryValue::Text(reg_sz("1-2-3-0é0-05"))), None);
    // Text after the NUL unit is not part of the value.
    let mut b = reg_sz(GUID_TEXT);
    b.extend_from_slice(&reg_sz("1-2-3-0é0-05"));
    assert_eq!(current_desktop_guid(&RegistryValue::Text(b)), Some(GUID_BYTES.to_vec()));
}

#[test]
fn desktop_count_and_numbers() {
    assert_eq!(desktop_count_from_ids_size(64), 4);
    assert_eq!(desktop_count_from_ids_size(40), 2);
    assert_eq!(desktop_numbers(4), vec![1, 2, 3, 4]);
    assert_eq!(desktop_numbers(0), Vec::<i32>::new());
    assert_eq!(desktop_numbers(-3), Vec::<i32>::new());
}

#[test]
fn neighbor_desktop_wraps_around() {
    assert_eq!(neighbor_desktop_index(0, 1, 4), 1);
    assert_eq!(neighbor_desktop_index(3, 1, 4), 0);
    assert_eq!(neighbor_desktop_index(0, -1, 4), 3);
    assert_eq!(neighbor_desktop_index(2, -1, 4), 1);
    assert_eq!(neighbor_desktop_index(0, -1, 1), 0);
    for i in 0..5usize {
        let r = neighbor_desktop_index(i, 1, 5);
        assert_eq!(neighbor_desktop_index(r, -1, 5), i);
    }
}

#[test]
fn desktop_index_lookup() {
    let ids = vec![10u128, 20, 30, 20];
    assert_eq!(find_desktop_index(&ids, 20), Some(1));
    assert_eq!(find_desktop_index(&ids, 40), None);
}

#[test]
fn switching_plans() {
    assert!(!needs_switch(2, 2));
    assert!(needs_switch(3, 2));
    assert_eq!(switch_target(1, 4), Some(0));
    assert_eq!(switch_target(4, 4), Some(3));
    assert_eq!(switch_target(5, 4), None);
    assert_eq!(switch_target(0, 4), None);
    assert_eq!(switch_target(-7, 4), None);
}
