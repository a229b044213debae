use tile_wm::utf16::{registry_text, string_of_units};

fn units(us: &[u16]) -> Vec<u8> {
    us.iter().flat_map(|u| u.to_le_bytes()).collect()
}

#[test]
fn ascii_text_up_to_nul() {
    assert_eq!(registry_text(&units(&[0x41, 0x42, 0x43, 0, 0x44])), "ABC");
    assert_eq!(registry_text(&units(&[0x41, 0x42])), "AB");
    assert_eq!(registry_text(&units(&[0, 0x41])), "");
    assert_eq!(registry_text(&Vec::new()), "");
}

#[test]
fn odd_trailing_byte_is_ignored() {
    let mut b = units(&[0x61, 0x62]);
    b.push(0x63);
    assert_eq!(registry_text(&b), "ab");
}

#[test]
fn bmp_and_surrogate_pairs_decode() {
    let text = "é€😀中";
    let us: Vec<u16> = text.encode_utf16().collect();
    assert_eq!(registry_text(&units(&us)), text);
    assert_eq!(registry_text(&units(&[0xD83D, 0xDE00])), "\u{1F600}");
}

#[test]
fn unpaired_surrogates_become_replacement_characters() {
    assert_eq!(registry_text(&units(&[0xD800, 0x41])), "\u{FFFD}A");
    assert_eq!(registry_text(&units(&[0xDC00, 0x41])), "\u{FFFD}A");
    assert_eq!(registry_text(&units(&[0x41, 0xD800])), "A\u{FFFD}");
    assert_eq!(registry_text(&units(&[0xD800, 0xD800, 0xDC00])), "\u{FFFD}\u{10000}");
    let lossy = String::from_utf16_lossy(&[0xDBFF, 0xDFFF, 0xDC00, 0xD800, 0x30]);
    assert_eq!(registry_text(&units(&[0xDBFF, 0xDFFF, 0xDC00, 0xD800, 0x30])), lossy);
}

#[test]
fn units_decode_without_a_terminator() {
    assert_eq!(string_of_units(&vec![0x43, 0x3A, 0x5C, 0x61, 0x2E, 0x65, 0x78, 0x65]), "C:\\a.exe");
    // A NUL unit is an ordinary character here.
    assert_eq!(string_of_units(&vec![0x41, 0, 0x42]), "A\u{0}B");
    assert_eq!(string_of_units(&vec![0xDFFF]), "\u{FFFD}");
}
