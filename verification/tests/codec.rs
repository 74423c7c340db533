use vbus_gamepad::client::{handle_frame, FrameAction};
use vbus_gamepad::driver::{build_report, report_header, BusStep, BusenumUnplugHardware, HeldKeys, VBusDriver};
use vbus_gamepad::gamepad::XinputGamepad;
use vbus_gamepad::ioctl::{
    ctl_code, FILE_DEVICE_BUSENUM, FILE_READ_DATA, FILE_WRITE_DATA, IOCTL_BUSENUM_BASE,
    IOCTL_BUSENUM_PLUGIN_HARDWARE, IOCTL_BUSENUM_REPORT_HARDWARE, IOCTL_BUSENUM_UNPLUG_HARDWARE,
    METHOD_BUFFERED,
};

fn sample() -> XinputGamepad {
    XinputGamepad {
        w_buttons: 0x1234,
        b_left_trigger: 0x56,
        b_right_trigger: 0x78,
        s_thumb_lx: -2,
        s_thumb_ly: 0x7FFF,
        s_thumb_rx: -32768,
        s_thumb_ry: 0x0102,
    }
}

#[test]
fn ctl_code_packs_fields() {
    assert_eq!(ctl_code(0x22, 0x800, 0, 0), 0x0022_2000);
    assert_eq!(ctl_code(1, 2, 3, 1), 0x0001_400B);
}

#[test]
fn plugin_code_matches_bus_constant() {
    assert_eq!(
        ctl_code(FILE_DEVICE_BUSENUM, IOCTL_BUSENUM_BASE, METHOD_BUFFERED, FILE_WRITE_DATA),
        IOCTL_BUSENUM_PLUGIN_HARDWARE
    );
    assert_eq!(IOCTL_BUSENUM_PLUGIN_HARDWARE, 0x2A_A004);
}

#[test]
fn unplug_code_matches_bus_constant() {
    assert_eq!(
        ctl_code(FILE_DEVICE_BUSENUM, IOCTL_BUSENUM_BASE + 1, METHOD_BUFFERED, FILE_WRITE_DATA),
        IOCTL_BUSENUM_UNPLUG_HARDWARE
    );
    assert_eq!(IOCTL_BUSENUM_UNPLUG_HARDWARE, 0x2A_A008);
}

#[test]
fn report_code_matches_bus_constant() {
    assert_eq!(
        ctl_code(
            FILE_DEVICE_BUSENUM,
            IOCTL_BUSENUM_BASE + 3,
            METHOD_BUFFERED,
            FILE_WRITE_DATA | FILE_READ_DATA
        ),
        IOCTL_BUSENUM_REPORT_HARDWARE
    );
    assert_eq!(IOCTL_BUSENUM_REPORT_HARDWARE, 0x2A_E010);
}

#[test]
fn decode_reads_little_endian_fields() {
    let bytes = [9u8, 0x34, 0x12, 0x56, 0x78, 0xFE, 0xFF, 0xFF, 0x7F, 0x00, 0x80, 0x02, 0x01, 7];
    let g = XinputGamepad::decode(&bytes, 1);
    assert_eq!(g, sample());
}

#[test]
fn encode_writes_little_endian_fields() {
    assert_eq!(
        sample().encode(),
        [0x34, 0x12, 0x56, 0x78, 0xFE, 0xFF, 0xFF, 0x7F, 0x00, 0x80, 0x02, 0x01]
    );
}

#[test]
fn decode_after_encode_gives_gamepad_back() {
    let g = sample();
    let bytes = g.encode();
    assert_eq!(XinputGamepad::decode(&bytes, 0), g);
    let z = XinputGamepad::zeroed();
    assert_eq!(XinputGamepad::decode(&z.encode(), 0), z);
}

#[test]
fn encode_after_decode_gives_bytes_back() {
    let bytes = [0xFFu8, 0x00, 0x01, 0x80, 0x00, 0x80, 0xFF, 0x7F, 0x10, 0x20, 0x30, 0x40];
    assert_eq!(XinputGamepad::decode(&bytes, 0).encode(), bytes);
}

#[test]
fn zeroed_gamepad_is_at_rest() {
    assert_eq!(XinputGamepad::decode(&[0u8; 12], 0), XinputGamepad::zeroed());
}

#[test]
fn report_header_layout() {
    let h = report_header(0x0403_0201);
    let mut want = [0u8; 28];
    want[0] = 0x1C;
    want[4] = 1;
    want[5] = 2;
    want[6] = 3;
    want[7] = 4;
    want[9] = 0x14;
    assert_eq!(h, want);
}

#[test]
fn report_carries_gamepad_bytes() {
    let r = build_report(2, &sample());
    let mut want = [0u8; 28];
    want[0] = 0x1C;
    want[4] = 2;
    want[9] = 0x14;
    want[10..22].copy_from_slice(&sample().encode());
    assert_eq!(r, want);
    assert_eq!(XinputGamepad::decode(&r, 10), sample());
}

#[test]
fn fill_report_keeps_other_bytes() {
    let mut buf = [0xAAu8; 28];
    VBusDriver::fill_report(&sample(), &mut buf);
    assert_eq!(&buf[0..10], &[0xAAu8; 10]);
    assert_eq!(&buf[10..22], &sample().encode());
    assert_eq!(&buf[22..28], &[0xAAu8; 6]);
}

#[test]
fn plug_in_request_layout() {
    let b = VBusDriver::plug_in_request(3).unwrap();
    let mut want = [0u8; 16];
    want[0] = 0x10;
    want[4] = 3;
    assert_eq!(b, want);
}

#[test]
fn plug_in_request_refuses_bad_index() {
    assert!(VBusDriver::plug_in_request(0).is_none());
    assert!(VBusDriver::plug_in_request(5).is_none());
    assert!(VBusDriver::plug_in_request(1).is_some());
    assert!(VBusDriver::plug_in_request(4).is_some());
}

#[test]
fn unplug_request_layout() {
    let r = VBusDriver::unplug_request(4).unwrap();
    assert_eq!(r, BusenumUnplugHardware { size: 16, serial_no: 4, flags: 1, reserved: 0 });
    assert_eq!(r.to_bytes(), [16, 0, 0, 0, 4, 0, 0, 0, 1, 0, 0, 0, 0, 0, 0, 0]);
    assert!(VBusDriver::unplug_request(0).is_none());
    assert!(VBusDriver::unplug_request(9).is_none());
}

#[test]
fn unplug_bytes_are_little_endian_words() {
    let r = BusenumUnplugHardware { size: 0x0102_0304, serial_no: 0xA0B0_C0D0, flags: 5, reserved: 0xFF00_0000 };
    assert_eq!(
        r.to_bytes(),
        [4, 3, 2, 1, 0xD0, 0xC0, 0xB0, 0xA0, 5, 0, 0, 0, 0, 0, 0, 0xFF]
    );
}

#[test]
fn record_device_marks_on_success_only() {
    let mut devices = [false; 4];
    VBusDriver::record_device(&mut devices, 2, 0);
    assert_eq!(devices, [false; 4]);
    VBusDriver::record_device(&mut devices, 2, 1);
    assert_eq!(devices, [false, true, false, false]);
    VBusDriver::record_device(&mut devices, 4, -1);
    assert_eq!(devices, [false, true, false, true]);
}

#[test]
fn key_event_flags_values() {
    assert_eq!(VBusDriver::key_event_flags(false), 0x0008);
    assert_eq!(VBusDriver::key_event_flags(true), 0x000A);
    assert!(VBusDriver::is_valid_user_index(1));
    assert!(!VBusDriver::is_valid_user_index(0));
}

fn frame(g: &XinputGamepad, b12: u8, b13: u8, b14: u8, b15: u8, b16: u8) -> [u8; 17] {
    let mut f = [0u8; 17];
    f[0..12].copy_from_slice(&g.encode());
    f[12] = b12;
    f[13] = b13;
    f[14] = b14;
    f[15] = b15;
    f[16] = b16;
    f
}

#[test]
fn frame_with_high_tag_is_skipped() {
    let mut pads = [XinputGamepad::zeroed(); 4];
    let act = handle_frame(&mut pads, 1, &frame(&sample(), 1, 0, 0, 5, 0));
    assert!(matches!(act, FrameAction::Skip));
    assert_eq!(pads, [XinputGamepad::zeroed(); 4]);
}

#[test]
fn key_press_frame_only_presses_key() {
    let mut pads = [XinputGamepad::zeroed(); 4];
    let g = XinputGamepad { w_buttons: 0x41, ..XinputGamepad::zeroed() };
    let act = handle_frame(&mut pads, 2, &frame(&g, 1, 0, 0, 0, 1));
    match act {
        FrameAction::KeyDown { key } => assert_eq!(key, 0x41),
        _ => panic!("expected a key press"),
    }
    assert_eq!(pads, [XinputGamepad::zeroed(); 4]);
}

#[test]
fn key_release_frame_releases_then_reports() {
    let mut pads = [XinputGamepad::zeroed(); 4];
    pads[0].w_buttons = 0x0041;
    let g = XinputGamepad { w_buttons: 0x41, ..XinputGamepad::zeroed() };
    let act = handle_frame(&mut pads, 1, &frame(&g, 0, 0, 0, 0, 1));
    match act {
        FrameAction::Report { key_up, gamepad, header } => {
            assert_eq!(key_up, Some(0x41));
            assert_eq!(gamepad.w_buttons, 0);
            assert_eq!(header, report_header(1));
            let mut sent = header;
            VBusDriver::fill_report(&gamepad, &mut sent);
            assert_eq!(sent, build_report(1, &gamepad));
        }
        _ => panic!("expected a report"),
    }
    assert_eq!(pads[0].w_buttons, 0);
}

#[test]
fn button_press_and_release() {
    let mut pads = [XinputGamepad::zeroed(); 4];
    pads[2].w_buttons = 0x0100;
    let g = XinputGamepad { w_buttons: 0x1000, ..XinputGamepad::zeroed() };
    let act = handle_frame(&mut pads, 3, &frame(&g, 1, 0, 0, 0, 0));
    assert!(matches!(act, FrameAction::Report { key_up: None, .. }));
    assert_eq!(pads[2].w_buttons, 0x1100);
    handle_frame(&mut pads, 3, &frame(&g, 0, 0, 0, 0, 0));
    assert_eq!(pads[2].w_buttons, 0x0100);
}

#[test]
fn dpad_mode_keeps_high_bits_and_sets_low() {
    let mut pads = [XinputGamepad::zeroed(); 4];
    pads[0].w_buttons = 0x100F;
    let g = XinputGamepad { w_buttons: 0x0002, ..XinputGamepad::zeroed() };
    handle_frame(&mut pads, 1, &frame(&g, 0, 1, 0, 0, 0));
    assert_eq!(pads[0].w_buttons, 0x1002);
}

#[test]
fn trigger_modes_take_one_trigger() {
    let mut pads = [XinputGamepad::zeroed(); 4];
    let g = XinputGamepad { b_left_trigger: 200, b_right_trigger: 100, ..XinputGamepad::zeroed() };
    handle_frame(&mut pads, 4, &frame(&g, 0, 2, 0, 0, 0));
    assert_eq!((pads[3].b_left_trigger, pads[3].b_right_trigger), (200, 0));
    handle_frame(&mut pads, 4, &frame(&g, 0, 3, 0, 0, 0));
    assert_eq!((pads[3].b_left_trigger, pads[3].b_right_trigger), (200, 100));
}

#[test]
fn stick_frames_set_one_stick() {
    let mut pads = [XinputGamepad::zeroed(); 4];
    let g = XinputGamepad { s_thumb_lx: 10, s_thumb_ly: -20, s_thumb_rx: 30, s_thumb_ry: -40, ..XinputGamepad::zeroed() };
    handle_frame(&mut pads, 1, &frame(&g, 0, 0, 1, 0, 0));
    assert_eq!((pads[0].s_thumb_lx, pads[0].s_thumb_ly, pads[0].s_thumb_rx, pads[0].s_thumb_ry), (10, -20, 0, 0));
    handle_frame(&mut pads, 1, &frame(&g, 0, 0, 2, 0, 0));
    assert_eq!((pads[0].s_thumb_lx, pads[0].s_thumb_ly, pads[0].s_thumb_rx, pads[0].s_thumb_ry), (10, -20, 30, -40));
    assert_eq!(pads[1], XinputGamepad::zeroed());
}

#[test]
fn overflowing_button_product_is_detected() {
    let g = XinputGamepad { w_buttons: 0x8000, ..XinputGamepad::zeroed() };
    assert!(vbus_gamepad::client::frame_would_overflow(&frame(&g, 2, 0, 0, 0, 0)));
    assert!(!vbus_gamepad::client::frame_would_overflow(&frame(&g, 1, 0, 0, 0, 0)));
    assert!(!vbus_gamepad::client::frame_would_overflow(&frame(&g, 2, 1, 0, 0, 0)));
    assert!(!vbus_gamepad::client::frame_would_overflow(&frame(&g, 2, 0, 1, 0, 0)));
    assert!(!vbus_gamepad::client::frame_would_overflow(&frame(&g, 2, 0, 0, 9, 0)));
}

#[test]
fn bus_step_opens_once_and_fails_on_bad_index() {
    assert_eq!(VBusDriver::bus_step(0, true, false), BusStep::Fail);
    assert_eq!(VBusDriver::bus_step(5, false, false), BusStep::Fail);
    assert_eq!(VBusDriver::bus_step(1, true, false), BusStep::Send);
    assert_eq!(VBusDriver::bus_step(2, false, false), BusStep::Open);
    assert_eq!(VBusDriver::bus_step(2, false, true), BusStep::Fail);
    assert_eq!(VBusDriver::bus_step(4, true, true), BusStep::Send);
}

#[test]
fn frame_kind_queries() {
    let g = XinputGamepad { w_buttons: 0x20, ..XinputGamepad::zeroed() };
    assert!(!vbus_gamepad::client::frame_updates_state(&frame(&g, 1, 0, 0, 5, 0)));
    assert!(!vbus_gamepad::client::frame_updates_state(&frame(&g, 1, 0, 0, 0, 1)));
    assert!(vbus_gamepad::client::frame_updates_state(&frame(&g, 0, 0, 0, 0, 1)));
    assert_eq!(vbus_gamepad::client::frame_released_key(&frame(&g, 0, 0, 0, 0, 1)), Some(0x20));
    assert_eq!(vbus_gamepad::client::frame_released_key(&frame(&g, 1, 0, 0, 0, 1)), None);
    assert_eq!(vbus_gamepad::client::frame_released_key(&frame(&g, 0, 0, 0, 0, 0)), None);
}

#[test]
fn skipped_and_key_frames_accept_any_client_number() {
    let mut pads = [XinputGamepad::zeroed(); 4];
    let g = XinputGamepad { w_buttons: 0x41, ..XinputGamepad::zeroed() };
    assert!(matches!(handle_frame(&mut pads, 9, &frame(&g, 1, 0, 0, 7, 0)), FrameAction::Skip));
    assert!(matches!(handle_frame(&mut pads, 9, &frame(&g, 1, 0, 0, 0, 1)), FrameAction::KeyDown { key: 0x41 }));
    assert_eq!(pads, [XinputGamepad::zeroed(); 4]);
}

#[test]
fn held_keys_press_and_release() {
    let mut h = HeldKeys::new();
    assert!(!h.is_held(0x41));
    h.press(0x41);
    h.press(0x42);
    h.press(0x41);
    assert!(h.is_held(0x41) && h.is_held(0x42));
    h.release(0x41);
    assert!(!h.is_held(0x41));
    assert!(h.is_held(0x42));
    h.release(0x41);
    h.release(0x7);
    assert!(h.is_held(0x42));
    h.release(0x42);
    assert!(!h.is_held(0x42));
}

#[test]
fn report_frame_hands_out_header_without_state() {
    let mut pads = [XinputGamepad::zeroed(); 4];
    let g = XinputGamepad { w_buttons: 0x10, ..XinputGamepad::zeroed() };
    match handle_frame(&mut pads, 2, &frame(&g, 1, 0, 0, 0, 0)) {
        FrameAction::Report { header, gamepad, .. } => {
            assert_eq!(header, report_header(2));
            assert_eq!(&header[10..22], &[0u8; 12]);
            assert_eq!(gamepad.w_buttons, 0x10);
        }
        _ => panic!("expected a report"),
    }
}
