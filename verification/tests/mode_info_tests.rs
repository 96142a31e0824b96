use vesad::mode_info::{parse_mode_info, MODE_INFO_LEN, PHYSBASE_OFFSET, PITCH_OFFSET, XRES_OFFSET, YRES_OFFSET};

fn sample_page() -> Vec<u8> {
    let mut page = vec![0u8; 4096];
    // 640 = 0x0280, little endian
    page[XRES_OFFSET] = 0x80;
    page[XRES_OFFSET + 1] = 0x02;
    // 400 = 0x0190
    page[YRES_OFFSET] = 0x90;
    page[YRES_OFFSET + 1] = 0x01;
    // 2560 = 0x0A00 bytes per scanline
    page[PITCH_OFFSET] = 0x00;
    page[PITCH_OFFSET + 1] = 0x0A;
    // 0xFD000000
    page[PHYSBASE_OFFSET] = 0x00;
    page[PHYSBASE_OFFSET + 1] = 0x00;
    page[PHYSBASE_OFFSET + 2] = 0x00;
    page[PHYSBASE_OFFSET + 3] = 0xFD;
    page
}

#[test]
fn parses_resolution_and_base() {
    let page = sample_page();
    let m = parse_mode_info(&page).unwrap();
    assert_eq!(m.width, 640);
    assert_eq!(m.height, 400);
    assert_eq!(m.pitch, 2560);
    assert_eq!(m.physbaseptr, 0xFD00_0000);
    assert!(m.usable());
}

#[test]
fn parses_exactly_the_minimum_length() {
    let page = sample_page();
    let m = parse_mode_info(&page[..MODE_INFO_LEN]).unwrap();
    assert_eq!(m.width, 640);
    assert_eq!(m.physbaseptr, 0xFD00_0000);
}

#[test]
fn short_input_is_rejected() {
    let page = sample_page();
    assert!(parse_mode_info(&page[..MODE_INFO_LEN - 1]).is_none());
    assert!(parse_mode_info(&[]).is_none());
}

#[test]
fn zero_base_address_is_unusable() {
    let mut page = sample_page();
    for i in 0..4 {
        page[PHYSBASE_OFFSET + i] = 0;
    }
    let m = parse_mode_info(&page).unwrap();
    assert!(!m.usable());
}
