use vstd::prelude::*;
use crate::gamepad::{XinputGamepad, spec_encode, spec_decode, le_byte, lemma_decode_encode, lemma_le_bytes_read_back, GAMEPAD_LEN};

verus! {

/// Number of virtual controllers the bus serves, numbered 1 to 4.
pub const MAX_CLIENTS: usize = 4;

/// Length of a report buffer sent to the bus.
pub const REPORT_LEN: usize = 28;

/// Length of the feedback buffer the bus answers a report with.
pub const FEEDBACK_BUFFER_LENGTH: usize = 9;

/// Length of a plug-in request.
pub const PLUGIN_REQUEST_LEN: usize = 16;

/// Offset of the gamepad state inside a report.
pub const REPORT_GAMEPAD_OFFSET: usize = 10;

/// `KEYEVENTF_SCANCODE` of `winuser.h`.
pub const KEYEVENTF_SCANCODE: u32 = 0x0008;

/// `KEYEVENTF_KEYUP` of `winuser.h`.
pub const KEYEVENTF_KEYUP: u32 = 0x0002;

/// The ScpVBus virtual bus driver. The device calls themselves are made by
/// the application; this type holds what is decided around them.
pub struct VBusDriver;

/// The request that unplugs a controller: its size in bytes, the serial
/// number of the controller, flags and a reserved word.
#[derive(Debug, Copy, Clone, PartialEq, Eq, Structural)]
pub struct BusenumUnplugHardware {
    pub size: u32,
    pub serial_no: u32,
    pub flags: u32,
    pub reserved: u32,
}

/// A controller index the bus accepts: 1 to 4.
pub open spec fn valid_user_index(user_index: u32) -> bool {
    1 <= user_index <= MAX_CLIENTS
}

/// The sixteen bytes of a plug-in request for `user_index`: a length byte of
/// 16, then the index's bytes 0 to 2 at offsets 4 to 6 and its byte 3 at
/// offset 8.
pub open spec fn spec_plugin_request(user_index: u32) -> Seq<u8> {
    seq![
        0x10u8, 0, 0, 0,
        le_byte(user_index as int, 0), le_byte(user_index as int, 1), le_byte(user_index as int, 2), 0,
        le_byte(user_index as int, 3), 0, 0, 0,
        0, 0, 0, 0,
    ]
}

/// The first ten bytes of a report for controller `client_id`: a length
/// byte of 28, the controller's serial number (the low 32 bits of
/// `client_id`, little-endian) at offsets 4 to 7 and a payload length of 20
/// at offset 9.
pub open spec fn spec_report_prefix(client_id: int) -> Seq<u8> {
    seq![
        0x1Cu8, 0, 0, 0,
        le_byte(client_id, 0), le_byte(client_id, 1), le_byte(client_id, 2), le_byte(client_id, 3),
        0, 0x14,
    ]
}

/// The report buffer before any gamepad state is written into it.
pub open spec fn spec_report_header(client_id: int) -> Seq<u8> {
    spec_report_prefix(client_id) + Seq::new(18, |i: int| 0u8)
}

/// The full report of a gamepad state for controller `client_id`.
pub open spec fn spec_report(client_id: int, g: XinputGamepad) -> Seq<u8> {
    spec_report_prefix(client_id) + spec_encode(g) + Seq::new(6, |i: int| 0u8)
}

/// The sixteen little-endian bytes of an unplug request.
pub open spec fn spec_unplug_bytes(r: BusenumUnplugHardware) -> Seq<u8> {
    seq![
        le_byte(r.size as int, 0), le_byte(r.size as int, 1), le_byte(r.size as int, 2), le_byte(r.size as int, 3),
        le_byte(r.serial_no as int, 0), le_byte(r.serial_no as int, 1), le_byte(r.serial_no as int, 2), le_byte(r.serial_no as int, 3),
        le_byte(r.flags as int, 0), le_byte(r.flags as int, 1), le_byte(r.flags as int, 2), le_byte(r.flags as int, 3),
        le_byte(r.reserved as int, 0), le_byte(r.reserved as int, 1), le_byte(r.reserved as int, 2), le_byte(r.reserved as int, 3),
    ]
}

fn byte_of_u32(n: u32, k: u32) -> (b: u8)
    requires
        k < 4,
    ensures
        b == le_byte(n as int, k as int),
{
    if k == 0 {
        (n % 0x100) as u8
    } else if k == 1 {
        ((n / 0x100) % 0x100) as u8
    } else if k == 2 {
        ((n / 0x1_0000) % 0x100) as u8
    } else {
        ((n / 0x100_0000) % 0x100) as u8
    }
}

fn byte_of_usize(n: usize, k: u32) -> (b: u8)
    requires
        k < 4,
    ensures
        b == le_byte(n as int, k as int),
{
    if k == 0 {
        (n % 0x100) as u8
    } else if k == 1 {
        ((n / 0x100) % 0x100) as u8
    } else if k == 2 {
        ((n / 0x1_0000) % 0x100) as u8
    } else {
        ((n / 0x100_0000) % 0x100) as u8
    }
}

impl BusenumUnplugHardware {
    /// The sixteen bytes handed to the bus, each word little-endian.
    pub fn to_bytes(&self) -> (b: [u8; 16])
        ensures
            b@ == spec_unplug_bytes(*self),
    {
        let mut b = [0u8; 16];
        b[0] = byte_of_u32(self.size, 0);
        b[1] = byte_of_u32(self.size, 1);
        b[2] = byte_of_u32(self.size, 2);
        b[3] = byte_of_u32(self.size, 3);
        b[4] = byte_of_u32(self.serial_no, 0);
        b[5] = byte_of_u32(self.serial_no, 1);
        b[6] = byte_of_u32(self.serial_no, 2);
        b[7] = byte_of_u32(self.serial_no, 3);
        b[8] = byte_of_u32(self.flags, 0);
        b[9] = byte_of_u32(self.flags, 1);
        b[10] = byte_of_u32(self.flags, 2);
        b[11] = byte_of_u32(self.flags, 3);
        b[12] = byte_of_u32(self.reserved, 0);
        b[13] = byte_of_u32(self.reserved, 1);
        b[14] = byte_of_u32(self.reserved, 2);
        b[15] = byte_of_u32(self.reserved, 3);
        assert(b@ =~= spec_unplug_bytes(*self));
        b
    }
}

/// What a plug-in or unplug call does next.
#[derive(Debug, Copy, Clone, PartialEq, Eq, Structural)]
pub enum BusStep {
    /// Answer 0 without sending anything to the bus.
    Fail,
    /// Open the bus and keep its handle, then decide again.
    Open,
    /// Send the request on the open bus.
    Send,
}

impl VBusDriver {
    /// The next step of a plug-in or unplug call for controller
    /// `user_index`, given whether the bus is open and whether this call
    /// already tried to open it. An index the bus does not accept fails at
    /// once; a closed bus is opened once per call; a bus still closed after
    /// that fails.
    pub fn bus_step(user_index: u32, bus_open: bool, open_tried: bool) -> (step: BusStep)
        ensures
            step == if !valid_user_index(user_index) {
                BusStep::Fail
            } else if bus_open {
                BusStep::Send
            } else if open_tried {
                BusStep::Fail
            } else {
                BusStep::Open
            },
    {
        if !Self::is_valid_user_index(user_index) {
            BusStep::Fail
        } else if bus_open {
            BusStep::Send
        } else if open_tried {
            BusStep::Fail
        } else {
            BusStep::Open
        }
    }

    /// Whether the bus accepts `user_index` as a controller number.
    pub fn is_valid_user_index(user_index: u32) -> (ok: bool)
        ensures
            ok == valid_user_index(user_index),
    {
        1 <= user_index && user_index <= 4
    }

    /// The plug-in request for controller `user_index`, or `None` for an
    /// index the bus does not accept (no request is then sent).
    pub fn plug_in_request(user_index: u32) -> (req: Option<[u8; 16]>)
        ensures
            valid_user_index(user_index) <==> req is Some,
            req matches Some(b) ==> b@ == spec_plugin_request(user_index),
    {
        if !Self::is_valid_user_index(user_index) {
            return None;
        }
        let mut b = [0u8; 16];
        b[0] = 0x10;
        b[4] = byte_of_u32(user_index, 0);
        b[5] = byte_of_u32(user_index, 1);
        b[6] = byte_of_u32(user_index, 2);
        b[8] = byte_of_u32(user_index, 3);
        assert(b@ =~= spec_plugin_request(user_index));
        Some(b)
    }

    /// The unplug request for controller `user_index`, or `None` for an
    /// index the bus does not accept: its size is 16, its serial number the
    /// index and its flags 1.
    pub fn unplug_request(user_index: u32) -> (req: Option<BusenumUnplugHardware>)
        ensures
            valid_user_index(user_index) <==> req is Some,
            req matches Some(r) ==> r == (BusenumUnplugHardware {
                size: 16,
                serial_no: user_index,
                flags: 1,
                reserved: 0,
            }),
    {
        if !Self::is_valid_user_index(user_index) {
            return None;
        }
        Some(BusenumUnplugHardware { size: 16, serial_no: user_index, flags: 0x0001, reserved: 0 })
    }

    /// Records in the table of present controllers the outcome `out` of a
    /// plug-in or unplug call on controller `user_index`: a nonzero outcome
    /// marks the controller present; a zero one changes nothing.
    pub fn record_device(devices: &mut [bool; 4], user_index: u32, out: i32)
        requires
            valid_user_index(user_index),
        ensures
            out != 0 ==> final(devices)@ == old(devices)@.update(user_index - 1, true),
            out == 0 ==> final(devices)@ == old(devices)@,
    {
        if out != 0 {
            devices[(user_index - 1) as usize] = true;
        }
    }

    /// Writes a gamepad state into the state part (bytes 10 to 21) of a
    /// report buffer, leaving the other bytes as they were.
    pub fn fill_report(gamepad: &XinputGamepad, buffer: &mut [u8; 28])
        ensures
            final(buffer)@ == old(buffer)@.subrange(0, 10) + spec_encode(*gamepad)
                + old(buffer)@.subrange(22, 28),
    {
        let bytes = gamepad.encode();
        let mut i: usize = 0;
        while i < GAMEPAD_LEN
            invariant
                i <= GAMEPAD_LEN,
                bytes@ == spec_encode(*gamepad),
                buffer@.len() == 28,
                forall|j: int| 0 <= j < 10 ==> #[trigger] buffer@[j] == old(buffer)@[j],
                forall|j: int| 22 <= j < 28 ==> #[trigger] buffer@[j] == old(buffer)@[j],
                forall|j: int| 10 <= j < 10 + i ==> #[trigger] buffer@[j] == bytes@[j - 10],
                forall|j: int| 10 + i <= j < 22 ==> #[trigger] buffer@[j] == old(buffer)@[j],
            decreases GAMEPAD_LEN - i,
        {
            buffer[REPORT_GAMEPAD_OFFSET + i] = bytes[i];
            i = i + 1;
        }
        assert(buffer@ =~= old(buffer)@.subrange(0, 10) + spec_encode(*gamepad)
            + old(buffer)@.subrange(22, 28));
    }

    /// The flags of the keyboard event that presses (`release == false`) or
    /// releases a key given by its scan code.
    pub fn key_event_flags(release: bool) -> (flags: u32)
        ensures
            flags == if release { KEYEVENTF_SCANCODE | KEYEVENTF_KEYUP } else { KEYEVENTF_SCANCODE },
    {
        if release {
            KEYEVENTF_SCANCODE | KEYEVENTF_KEYUP
        } else {
            KEYEVENTF_SCANCODE
        }
    }
}

/// The report buffer of controller `client_id` before a state is written in.
pub fn report_header(client_id: usize) -> (b: [u8; 28])
    ensures
        b@ == spec_report_header(client_id as int),
{
    let mut b = [0u8; 28];
    b[0] = 0x1C;
    b[4] = byte_of_usize(client_id, 0);
    b[5] = byte_of_usize(client_id, 1);
    b[6] = byte_of_usize(client_id, 2);
    b[7] = byte_of_usize(client_id, 3);
    b[9] = 0x14;
    assert(b@ =~= spec_report_header(client_id as int));
    b
}

/// The report that hands gamepad state `gamepad` of controller `client_id`
/// to the bus.
pub fn build_report(client_id: usize, gamepad: &XinputGamepad) -> (b: [u8; 28])
    ensures
        b@ == spec_report(client_id as int, *gamepad),
{
    let mut b = report_header(client_id);
    VBusDriver::fill_report(gamepad, &mut b);
    assert(b@ =~= spec_report(client_id as int, *gamepad));
    b
}

/// The bus reads back, from bytes 10 to 21 of a report, exactly the
/// gamepad state the report was built from.
pub proof fn lemma_report_carries_state(client_id: int, g: XinputGamepad)
    ensures
        spec_report(client_id, g).len() == REPORT_LEN,
        spec_decode(spec_report(client_id, g).subrange(10, 22)) == g,
{
    assert(spec_report(client_id, g).subrange(10, 22) =~= spec_encode(g));
    lemma_decode_encode(g);
}

/// The keyboard keys the bridge holds down: a key is pressed with a
/// key-down event and stays held until a key-up event releases it.
pub struct HeldKeys {
    keys: Vec<i32>,
}

impl View for HeldKeys {
    type V = Set<i32>;

    closed spec fn view(&self) -> Set<i32> {
        Set::new(|k: i32| self.keys@.contains(k))
    }
}

impl HeldKeys {
    #[verifier::type_invariant]
    spec fn no_key_twice(self) -> bool {
        forall|i: int, j: int| 0 <= i < j < self.keys@.len() ==> self.keys@[i] != self.keys@[j]
    }

    /// No key held.
    pub fn new() -> (h: HeldKeys)
        ensures
            h@ == Set::<i32>::empty(),
    {
        let h = HeldKeys { keys: Vec::new() };
        assert(h@ =~= Set::<i32>::empty());
        h
    }

    /// Whether `key` is held.
    pub fn is_held(&self, key: i32) -> (b: bool)
        ensures
            b == self@.contains(key),
    {
        let mut i: usize = 0;
        while i < self.keys.len()
            invariant
                i <= self.keys@.len(),
                forall|j: int| 0 <= j < i ==> self.keys@[j] != key,
            decreases self.keys@.len() - i,
        {
            if self.keys[i] == key {
                return true;
            }
            i = i + 1;
        }
        false
    }

    fn position(&self, key: i32) -> (p: Option<usize>)
        ensures
            p matches Some(i) ==> i < self.keys@.len() && self.keys@[i as int] == key,
            p is None ==> !self.keys@.contains(key),
    {
        let mut i: usize = 0;
        while i < self.keys.len()
            invariant
                i <= self.keys@.len(),
                forall|j: int| 0 <= j < i ==> self.keys@[j] != key,
            decreases self.keys@.len() - i,
        {
            if self.keys[i] == key {
                return Some(i);
            }
            i = i + 1;
        }
        None
    }

    /// Records that `key` is pressed: it is held afterwards, and every other
    /// key stays as it was.
    pub fn press(&mut self, key: i32)
        ensures
            final(self)@ == old(self)@.insert(key),
    {
        proof {
            use_type_invariant(&*self);
        }
        let p = self.position(key);
        let ghost before = self.keys@;
        if p.is_none() {
            let mut keys: Vec<i32> = Vec::new();
            std::mem::swap(&mut keys, &mut self.keys);
            keys.push(key);
            self.keys = keys;
            assert forall|k: i32| self.keys@.contains(k) <==> before.contains(k) || k == key by {
                if before.contains(k) {
                    let j = choose|j: int| 0 <= j < before.len() && before[j] == k;
                    assert(self.keys@[j] == k);
                }
                if k == key {
                    assert(self.keys@[before.len() as int] == k);
                }
                if self.keys@.contains(k) && k != key {
                    let j = choose|j: int| 0 <= j < self.keys@.len() && self.keys@[j] == k;
                    assert(before[j] == k);
                }
            }
        }
        assert(self@ =~= old(self)@.insert(key));
    }

    /// Records that `key` is released: it is no longer held, and every other
    /// key stays as it was.
    pub fn release(&mut self, key: i32)
        ensures
            final(self)@ == old(self)@.remove(key),
    {
        proof {
            use_type_invariant(&*self);
        }
        match self.position(key) {
            Some(i) => {
                let ghost before = self.keys@;
                let mut keys: Vec<i32> = Vec::new();
                std::mem::swap(&mut keys, &mut self.keys);
                keys.remove(i);
                self.keys = keys;
                assert forall|k: i32| self.keys@.contains(k) <==> before.contains(k) && k != key by {
                    if before.contains(k) && k != key {
                        let j = choose|j: int| 0 <= j < before.len() && before[j] == k;
                        if j < i {
                            assert(self.keys@[j] == k);
                        } else {
                            assert(self.keys@[j - 1] == k);
                        }
                    }
                    if self.keys@.contains(k) {
                        let j = choose|j: int| 0 <= j < self.keys@.len() && self.keys@[j] == k;
                        if j < i {
                            assert(before[j] == k);
                        } else {
                            assert(before[j + 1] == k);
                        }
                    }
                }
            },
            None => {},
        }
        assert(self@ =~= old(self)@.remove(key));
    }
}

/// A plug-in request names the controller it plugs in: its length byte is
/// 16, its serial bytes (offsets 4, 5, 6 and 8) read back the controller
/// number, and every other byte is 0.
pub proof fn lemma_plugin_request_names_controller(u: u32)
    ensures
        spec_plugin_request(u).len() == PLUGIN_REQUEST_LEN,
        spec_plugin_request(u)[0] == 0x10,
        spec_plugin_request(u)[4] + 256 * spec_plugin_request(u)[5] + 65536 * spec_plugin_request(u)[6]
            + 16777216 * spec_plugin_request(u)[8] == u,
        forall|j: int|
            0 <= j < PLUGIN_REQUEST_LEN && j != 0 && j != 4 && j != 5 && j != 6 && j != 8
                ==> #[trigger] spec_plugin_request(u)[j] == 0,
{
    lemma_le_bytes_read_back(u as u64);
}

/// A report buffer names its controller: its length byte is 28, bytes 4
/// to 7 read back, little-endian, the controller number modulo 2^32, byte 9
/// is the payload length 20, and every other byte is 0.
pub proof fn lemma_report_header_names_controller(client_id: usize)
    ensures
        spec_report_header(client_id as int).len() == REPORT_LEN,
        spec_report_header(client_id as int)[0] == 0x1C,
        spec_report_header(client_id as int)[9] == 0x14,
        spec_report_header(client_id as int)[4] + 256 * spec_report_header(client_id as int)[5] + 65536
            * spec_report_header(client_id as int)[6] + 16777216 * spec_report_header(client_id as int)[7]
            == client_id as int % 0x1_0000_0000,
        forall|j: int|
            0 <= j < REPORT_LEN && j != 0 && !(4 <= j < 8) && j != 9 ==> #[trigger] spec_report_header(
                client_id as int,
            )[j] == 0,
{
    lemma_le_bytes_read_back(client_id as u64);
}

/// A full report is its controller's header with the gamepad state written
/// at bytes 10 to 21: the header bytes read back the controller number and
/// the state bytes read back the state.
pub proof fn lemma_report_names_controller(client_id: usize, g: XinputGamepad)
    ensures
        spec_report(client_id as int, g).len() == REPORT_LEN,
        forall|j: int|
            0 <= j < REPORT_LEN && !(10 <= j < 22) ==> #[trigger] spec_report(client_id as int, g)[j]
                == spec_report_header(client_id as int)[j],
        spec_report(client_id as int, g)[4] + 256 * spec_report(client_id as int, g)[5] + 65536 * spec_report(
            client_id as int,
            g,
        )[6] + 16777216 * spec_report(client_id as int, g)[7] == client_id as int % 0x1_0000_0000,
        spec_decode(spec_report(client_id as int, g).subrange(10, 22)) == g,
{
    lemma_le_bytes_read_back(client_id as u64);
    lemma_report_carries_state(client_id as int, g);
}

proof fn lemma_word_read_back(b: Seq<u8>, off: int, n: u32)
    requires
        0 <= off,
        off + 4 <= b.len(),
        b[off] == le_byte(n as int, 0),
        b[off + 1] == le_byte(n as int, 1),
        b[off + 2] == le_byte(n as int, 2),
        b[off + 3] == le_byte(n as int, 3),
    ensures
        b[off] + 256 * b[off + 1] + 65536 * b[off + 2] + 16777216 * b[off + 3] == n,
{
    lemma_le_bytes_read_back(n as u64);
}

/// The bytes of an unplug request read back its four words, each
/// little-endian.
pub proof fn lemma_unplug_bytes_read_back(r: BusenumUnplugHardware)
    ensures
        spec_unplug_bytes(r).len() == 16,
        spec_unplug_bytes(r)[0] + 256 * spec_unplug_bytes(r)[1] + 65536 * spec_unplug_bytes(r)[2] + 16777216
            * spec_unplug_bytes(r)[3] == r.size,
        spec_unplug_bytes(r)[4] + 256 * spec_unplug_bytes(r)[5] + 65536 * spec_unplug_bytes(r)[6] + 16777216
            * spec_unplug_bytes(r)[7] == r.serial_no,
        spec_unplug_bytes(r)[8] + 256 * spec_unplug_bytes(r)[9] + 65536 * spec_unplug_bytes(r)[10] + 16777216
            * spec_unplug_bytes(r)[11] == r.flags,
        spec_unplug_bytes(r)[12] + 256 * spec_unplug_bytes(r)[13] + 65536 * spec_unplug_bytes(r)[14]
            + 16777216 * spec_unplug_bytes(r)[15] == r.reserved,
{
    let b = spec_unplug_bytes(r);
    lemma_word_read_back(b, 0, r.size);
    lemma_word_read_back(b, 4, r.serial_no);
    lemma_word_read_back(b, 8, r.flags);
    lemma_word_read_back(b, 12, r.reserved);
}

} // verus!
