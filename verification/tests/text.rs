use meldnafen::joystick::{GuidParseError, JoystickGuid, JoystickInfo};
use meldnafen::text::{decimal_string, push_decimal};

#[test]
fn decimal_numerals() {
    assert_eq!(decimal_string(0), "0");
    assert_eq!(decimal_string(7), "7");
    assert_eq!(decimal_string(10), "10");
    assert_eq!(decimal_string(255), "255");
    assert_eq!(decimal_string(1002003), "1002003");
    assert_eq!(decimal_string(u64::MAX), "18446744073709551615");
    let mut out = "n = ".to_string();
    push_decimal(&mut out, 42);
    assert_eq!(out, "n = 42");
}

#[test]
fn guid_is_written_as_lower_case_hex() {
    let guid = JoystickGuid([
        0x03, 0x00, 0x00, 0x00, 0x5e, 0x04, 0x00, 0x00, 0x8e, 0x02, 0x00, 0x00, 0x14, 0x01, 0xab,
        0xff,
    ]);
    assert_eq!(guid.to_hex(), "030000005e0400008e0200001401abff");
    assert_eq!(JoystickGuid([0; 16]).to_hex(), "0".repeat(32));
}

#[test]
fn guid_is_read_from_hex_in_either_case() {
    let guid = JoystickGuid::from_hex("030000005e0400008E0200001401ABff").unwrap();
    assert_eq!(
        guid,
        JoystickGuid([
            0x03, 0x00, 0x00, 0x00, 0x5e, 0x04, 0x00, 0x00, 0x8e, 0x02, 0x00, 0x00, 0x14, 0x01,
            0xab, 0xff
        ])
    );
}

#[test]
fn guid_text_round_trip() {
    let mut bytes = [0u8; 16];
    for seed in 0..50u32 {
        for (i, b) in bytes.iter_mut().enumerate() {
            *b = (seed.wrapping_mul(2654435761).wrapping_add(i as u32 * 40503) >> 7) as u8;
        }
        let guid = JoystickGuid(bytes);
        assert_eq!(JoystickGuid::from_hex(&guid.to_hex()), Ok(guid));
    }
}

#[test]
fn guid_of_wrong_length_is_refused() {
    assert_eq!(
        JoystickGuid::from_hex(""),
        Err(GuidParseError::InvalidLength(0))
    );
    assert_eq!(
        JoystickGuid::from_hex("0123"),
        Err(GuidParseError::InvalidLength(4))
    );
    assert_eq!(
        JoystickGuid::from_hex(&"a".repeat(33)),
        Err(GuidParseError::InvalidLength(33))
    );
    // Sixteen characters of two bytes each are 32 bytes, but no digits.
    assert_eq!(
        JoystickGuid::from_hex(&"é".repeat(16)),
        Err(GuidParseError::InvalidChar('é'))
    );
    assert_eq!(
        JoystickGuid::from_hex(&"é".repeat(17)),
        Err(GuidParseError::InvalidLength(34))
    );
}

#[test]
fn guid_with_a_bad_character_is_refused() {
    assert_eq!(
        JoystickGuid::from_hex("0300000g5e0400008e0200001401abxf"),
        Err(GuidParseError::InvalidChar('g'))
    );
    assert_eq!(
        JoystickGuid::from_hex("030000005e0400008e0200001401ab f"),
        Err(GuidParseError::InvalidChar(' '))
    );
}

#[test]
fn guids_compare_by_their_bytes() {
    let a = JoystickGuid([1; 16]);
    let mut other = [1u8; 16];
    other[15] = 2;
    let b = JoystickGuid(other);
    assert!(a.same_bytes(&a));
    assert!(!a.same_bytes(&b));
    assert_eq!(a, JoystickGuid([1; 16]));
    assert_ne!(a, b);
}

#[test]
fn joystick_info_keeps_its_fields() {
    let info = JoystickInfo::new(3, JoystickGuid([9; 16]), 1, 16, 4);
    assert_eq!(info.instance_id, 3);
    assert_eq!(info.guid, JoystickGuid([9; 16]));
    assert_eq!(info.index, 1);
    assert_eq!(info.buttons, 16);
    assert_eq!(info.split, 4);
    assert_eq!(info.split_width(), 4);
}
