use vstd::prelude::*;
use crate::driver::{report_header, spec_report_header};
use crate::gamepad::{XinputGamepad, spec_decode, lemma_decode_fields};

verus! {

/// Length of a frame of the stream protocol.
pub const FRAME_LEN: usize = 17;

/// Most a frame's byte 15 may hold; frames above it are skipped.
pub const FRAME_MAX_TAG: u8 = 4;

/// What the application does after a frame of the stream protocol.
#[derive(Debug)]
pub enum FrameAction {
    /// Nothing: the frame is skipped.
    Skip,
    /// Press the keyboard key `key`.
    KeyDown { key: i32 },
    /// Release the keyboard key in `key_up` first, where there is one, then
    /// hand the new state `gamepad` of the controller to the bus, in a fresh
    /// copy of the controller's report buffer `header` (which holds no state
    /// yet).
    Report { key_up: Option<i32>, gamepad: XinputGamepad, header: [u8; 28] },
}

/// The gamepad state a frame carries in its first twelve bytes.
pub open spec fn frame_gamepad(f: Seq<u8>) -> XinputGamepad {
    spec_decode(f.subrange(0, 12))
}

/// A frame whose byte 15 is above 4 is skipped.
pub open spec fn frame_skipped(f: Seq<u8>) -> bool {
    f[15] > FRAME_MAX_TAG
}

/// A frame that presses a keyboard key: byte 16 is 1 and byte 12 is 1.
pub open spec fn frame_presses_key(f: Seq<u8>) -> bool {
    !frame_skipped(f) && f[16] == 1 && f[12] == 1
}

/// A frame that releases a keyboard key before updating the controller:
/// byte 16 is 1 and byte 12 is not.
pub open spec fn frame_releases_key(f: Seq<u8>) -> bool {
    !frame_skipped(f) && f[16] == 1 && f[12] != 1
}

/// A frame that updates the controller.
pub open spec fn frame_updates(f: Seq<u8>) -> bool {
    !frame_skipped(f) && !frame_presses_key(f)
}

/// The controller state `g` once frame `f` updates it.
///
/// With byte 14 at 0 the frame sets buttons and triggers. When byte 13 is
/// 1, the buttons outside the low four bits are kept and the frame's
/// buttons are added. Otherwise the frame's buttons are first cleared and
/// then added again times byte 12 (so byte 12 at 1 presses them, at 0
/// releases them); byte 13 at 2 also takes the frame's left trigger, at 3
/// its right trigger. With byte 14 at 1 the frame sets the left stick;
/// with any other value, the right stick.
pub open spec fn spec_apply_frame(g: XinputGamepad, f: Seq<u8>) -> XinputGamepad {
    let p = frame_gamepad(f);
    if f[14] == 0 {
        let mask: u16 = if f[13] != 1 { !p.w_buttons } else { 0xFFF0u16 };
        let set: u16 = if f[13] != 1 { (p.w_buttons * f[12]) as u16 } else { p.w_buttons };
        XinputGamepad {
            w_buttons: (g.w_buttons & mask) | set,
            b_left_trigger: if f[13] == 2 { p.b_left_trigger } else { g.b_left_trigger },
            b_right_trigger: if f[13] == 3 { p.b_right_trigger } else { g.b_right_trigger },
            ..g
        }
    } else if f[14] == 1 {
        XinputGamepad { s_thumb_lx: p.s_thumb_lx, s_thumb_ly: p.s_thumb_ly, ..g }
    } else {
        XinputGamepad { s_thumb_rx: p.s_thumb_rx, s_thumb_ry: p.s_thumb_ry, ..g }
    }
}

/// A frame whose button product (its buttons times byte 12) does not fit
/// in sixteen bits.
pub open spec fn frame_overflows(f: Seq<u8>) -> bool {
    frame_updates(f) && f[14] == 0 && f[13] != 1 && frame_gamepad(f).w_buttons * f[12] > u16::MAX
}

/// Whether a frame updates the controller state (it is neither skipped nor
/// a key press).
pub fn frame_updates_state(frame: &[u8; 17]) -> (b: bool)
    ensures
        b == frame_updates(frame@),
{
    !(frame[15] > FRAME_MAX_TAG) && !(frame[16] == 1 && frame[12] == 1)
}

/// The keyboard key a frame releases before it updates the controller, if
/// it releases one.
pub fn frame_released_key(frame: &[u8; 17]) -> (key: Option<i32>)
    ensures
        key == if frame_releases_key(frame@) {
            Some(frame_gamepad(frame@).w_buttons as i32)
        } else {
            None
        },
{
    if !(frame[15] > FRAME_MAX_TAG) && frame[16] == 1 && frame[12] != 1 {
        let p = XinputGamepad::decode(frame, 0);
        Some(p.w_buttons as i32)
    } else {
        None
    }
}

/// Whether the button product of a frame overflows sixteen bits, so that
/// `handle_frame` may not be called on it.
pub fn frame_would_overflow(frame: &[u8; 17]) -> (b: bool)
    ensures
        b == frame_overflows(frame@),
{
    let p = XinputGamepad::decode(frame, 0);
    let updates = !(frame[15] > FRAME_MAX_TAG) && !(frame[16] == 1 && frame[12] == 1);
    let w = p.w_buttons as u32;
    let k = frame[12] as u32;
    assert(w * k <= 0xFFFF * 0xFF) by (nonlinear_arith)
        requires
            w <= 0xFFFF,
            k <= 0xFF,
    ;
    updates && frame[14] == 0 && frame[13] != 1 && w * k > 0xFFFF
}

/// Handles one frame from the client numbered `client_id` (1 to 4) and
/// updates that client's controller state in `gamepads`.
pub fn handle_frame(gamepads: &mut [XinputGamepad; 4], client_id: usize, frame: &[u8; 17]) -> (act: FrameAction)
    requires
        1 <= client_id,
        frame_updates(frame@) ==> client_id <= 4,
        !frame_overflows(frame@),
    ensures
        frame_skipped(frame@) ==> final(gamepads)@ == old(gamepads)@ && act is Skip,
        act matches FrameAction::KeyDown { key } ==> key == frame@[0] + 256 * frame@[1],
        act matches FrameAction::Report { key_up: Some(key), .. } ==> key == frame@[0] + 256 * frame@[1],
        frame_presses_key(frame@) ==> final(gamepads)@ == old(gamepads)@ && act == (FrameAction::KeyDown {
            key: frame_gamepad(frame@).w_buttons as i32,
        }),
        frame_updates(frame@) ==> {
            &&& final(gamepads)@ == old(gamepads)@.update(
                client_id - 1,
                spec_apply_frame(old(gamepads)@[client_id - 1], frame@),
            )
            &&& act matches FrameAction::Report { key_up, gamepad, header }
            &&& key_up == if frame_releases_key(frame@) {
                Some(frame_gamepad(frame@).w_buttons as i32)
            } else {
                None
            }
            &&& gamepad == final(gamepads)@[client_id - 1]
            &&& header@ == spec_report_header(client_id as int)
        },
{
    let user_index = client_id - 1;
    let p = XinputGamepad::decode(frame, 0);
    if frame[15] > FRAME_MAX_TAG {
        return FrameAction::Skip;
    }
    let mut key_up: Option<i32> = None;
    if frame[16] == 1 {
        if frame[12] == 1 {
            return FrameAction::KeyDown { key: p.w_buttons as i32 };
        }
        key_up = Some(p.w_buttons as i32);
    }
    let mut g = gamepads[user_index];
    if frame[14] == 0 {
        let mask: u16 = if frame[13] != 1 { !p.w_buttons } else { 0xFFF0 };
        let set: u16 = if frame[13] != 1 { p.w_buttons * (frame[12] as u16) } else { p.w_buttons };
        g.w_buttons = (g.w_buttons & mask) | set;
        if frame[13] == 2 {
            g.b_left_trigger = p.b_left_trigger;
        }
        if frame[13] == 3 {
            g.b_right_trigger = p.b_right_trigger;
        }
    } else if frame[14] == 1 {
        g.s_thumb_lx = p.s_thumb_lx;
        g.s_thumb_ly = p.s_thumb_ly;
    } else {
        g.s_thumb_rx = p.s_thumb_rx;
        g.s_thumb_ry = p.s_thumb_ry;
    }
    gamepads[user_index] = g;
    let header = report_header(client_id);
    FrameAction::Report { key_up, gamepad: g, header }
}

/// What a button-and-trigger frame (byte 14 at 0) does to the controller,
/// in terms of the frame's bytes: its buttons are `b = f[0] + 256 * f[1]`.
/// In d-pad mode (byte 13 at 1) the new buttons are the old ones masked
/// with `0xFFF0`, so that every button above the low four is kept, with
/// `b` set. Otherwise a press (byte 12 at 1) sets the buttons of `b` and
/// keeps the others, and a release (byte 12 at 0) clears them and keeps
/// the others. Byte 13 at 2 takes the left trigger from byte 2, at 3 the
/// right trigger from byte 3; every other trigger and both sticks are kept.
pub proof fn lemma_frame_buttons(g: XinputGamepad, f: Seq<u8>)
    requires
        f.len() == FRAME_LEN,
        frame_updates(f),
        f[14] == 0,
    ensures
        f[13] == 1 ==> spec_apply_frame(g, f).w_buttons == (g.w_buttons & 0xFFF0u16) | ((f[0] + 256 * f[1]) as u16),
        f[13] == 1 ==> spec_apply_frame(g, f).w_buttons & 0xFFF0u16 == (g.w_buttons & 0xFFF0u16) | ((f[0] + 256 * f[1]) as u16 & 0xFFF0u16),
        f[13] == 1 ==> spec_apply_frame(g, f).w_buttons & 0x000Fu16 == ((f[0] + 256 * f[1]) as u16) & 0x000Fu16
            | (g.w_buttons & 0xFFF0u16 & 0x000Fu16),
        f[13] != 1 && f[12] == 1 ==> spec_apply_frame(g, f).w_buttons == g.w_buttons | ((f[0] + 256 * f[1]) as u16),
        f[13] != 1 && f[12] == 0 ==> spec_apply_frame(g, f).w_buttons == g.w_buttons & !((f[0] + 256 * f[1]) as u16),
        spec_apply_frame(g, f).b_left_trigger == if f[13] == 2 { f[2] } else { g.b_left_trigger },
        spec_apply_frame(g, f).b_right_trigger == if f[13] == 3 { f[3] } else { g.b_right_trigger },
        spec_apply_frame(g, f).s_thumb_lx == g.s_thumb_lx,
        spec_apply_frame(g, f).s_thumb_ly == g.s_thumb_ly,
        spec_apply_frame(g, f).s_thumb_rx == g.s_thumb_rx,
        spec_apply_frame(g, f).s_thumb_ry == g.s_thumb_ry,
{
    lemma_decode_fields(f.subrange(0, 12));
    let p: u16 = (f[0] + 256 * f[1]) as u16;
    let o: u16 = g.w_buttons;
    assert(frame_gamepad(f).w_buttons == p);
    assert((o & 0xFFF0u16) | p == (o & 0xFFF0u16) | p);
    assert(((o & 0xFFF0u16) | p) & 0xFFF0u16 == (o & 0xFFF0u16) | (p & 0xFFF0u16)) by (bit_vector);
    assert(((o & 0xFFF0u16) | p) & 0x000Fu16 == (p & 0x000Fu16) | (o & 0xFFF0u16 & 0x000Fu16)) by (bit_vector);
    assert((o & !p) | p == o | p) by (bit_vector);
    assert((o & !p) | 0u16 == o & !p) by (bit_vector);
    if f[12] == 1 {
        assert((p * f[12]) as u16 == p);
    }
    if f[12] == 0 {
        assert((p * f[12]) as u16 == 0);
    }
}

/// What a stick frame (byte 14 not 0) does to the controller, in terms of
/// the frame's bytes: with byte 14 at 1 the left stick takes the
/// two's-complement axes of bytes 4-5 and 6-7, otherwise the right stick
/// takes those of bytes 8-9 and 10-11; buttons, triggers and the other
/// stick are kept.
pub proof fn lemma_frame_sticks(g: XinputGamepad, f: Seq<u8>)
    requires
        f.len() == FRAME_LEN,
        frame_updates(f),
        f[14] != 0,
    ensures
        spec_apply_frame(g, f).w_buttons == g.w_buttons,
        spec_apply_frame(g, f).b_left_trigger == g.b_left_trigger,
        spec_apply_frame(g, f).b_right_trigger == g.b_right_trigger,
        f[14] == 1 ==> {
            &&& spec_apply_frame(g, f).s_thumb_lx == f[4] + 256 * f[5] - (if f[5] >= 128 { 0x1_0000int } else { 0 })
            &&& spec_apply_frame(g, f).s_thumb_ly == f[6] + 256 * f[7] - (if f[7] >= 128 { 0x1_0000int } else { 0 })
            &&& spec_apply_frame(g, f).s_thumb_rx == g.s_thumb_rx
            &&& spec_apply_frame(g, f).s_thumb_ry == g.s_thumb_ry
        },
        f[14] != 1 ==> {
            &&& spec_apply_frame(g, f).s_thumb_lx == g.s_thumb_lx
            &&& spec_apply_frame(g, f).s_thumb_ly == g.s_thumb_ly
            &&& spec_apply_frame(g, f).s_thumb_rx == f[8] + 256 * f[9] - (if f[9] >= 128 { 0x1_0000int } else { 0 })
            &&& spec_apply_frame(g, f).s_thumb_ry == f[10] + 256 * f[11] - (if f[11] >= 128 { 0x1_0000int } else { 0 })
        },
{
    lemma_decode_fields(f.subrange(0, 12));
}

} // verus!
