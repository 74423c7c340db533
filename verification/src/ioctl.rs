use vstd::prelude::*;

verus! {

/// `FILE_DEVICE_BUS_EXTENDER` of `winioctl.h`: the device type of the bus.
pub const FILE_DEVICE_BUSENUM: u32 = 0x2a;

/// First function number of the bus enumerator's private control codes.
pub const IOCTL_BUSENUM_BASE: u32 = 0x801;

/// `METHOD_BUFFERED` of `winioctl.h`.
pub const METHOD_BUFFERED: u32 = 0;

/// `FILE_READ_DATA` of `winnt.h`.
pub const FILE_READ_DATA: u32 = 0x1;

/// `FILE_WRITE_DATA` of `winnt.h`.
pub const FILE_WRITE_DATA: u32 = 0x2;

/// Control code that plugs a virtual controller into the bus.
pub const IOCTL_BUSENUM_PLUGIN_HARDWARE: u32 = 0x2a_a004;

/// Control code that unplugs a virtual controller from the bus.
pub const IOCTL_BUSENUM_UNPLUG_HARDWARE: u32 = 0x2a_a008;

/// Control code that reports a controller state to the bus.
pub const IOCTL_BUSENUM_REPORT_HARDWARE: u32 = 0x2a_e010;

/// The `CTL_CODE` macro of `winioctl.h`, on 32-bit words: the device type
/// in the high half, the access bits at 14, the function at 2 and the
/// transfer method in the low two bits.
pub open spec fn spec_ctl_code(device_type: u32, function: u32, method: u32, access: u32) -> u32 {
    ((device_type << 16u32) | (access << 14u32) | (function << 2u32) | method) as u32
}

/// Builds a device I/O-control code from its four fields.
pub fn ctl_code(device_type: u32, function: u32, method: u32, access: u32) -> (code: u32)
    ensures
        code == spec_ctl_code(device_type, function, method, access),
        device_type < 0x1_0000 && access < 4 && function < 0x1000 && method < 4 ==> code
            == device_type * 0x1_0000 + access * 0x4000 + function * 4 + method,
{
    let code = (device_type << 16u32) | (access << 14u32) | (function << 2u32) | method;
    assert(device_type < 0x1_0000 && access < 4 && function < 0x1000 && method < 4 ==> code
        == device_type * 0x1_0000 + access * 0x4000 + function * 4 + method) by (bit_vector)
        requires
            code == (device_type << 16u32) | (access << 14u32) | (function << 2u32) | method,
    ;
    code
}

/// The three control codes of the bus are `CTL_CODE` of the bus device
/// type, the functions `0x801`, `0x802` and `0x804`, buffered transfer, and
/// write access (read and write access for the state report).
pub proof fn lemma_bus_control_codes()
    ensures
        IOCTL_BUSENUM_PLUGIN_HARDWARE == spec_ctl_code(
            FILE_DEVICE_BUSENUM,
            (IOCTL_BUSENUM_BASE + 0) as u32,
            METHOD_BUFFERED,
            FILE_WRITE_DATA,
        ),
        IOCTL_BUSENUM_UNPLUG_HARDWARE == spec_ctl_code(
            FILE_DEVICE_BUSENUM,
            (IOCTL_BUSENUM_BASE + 1) as u32,
            METHOD_BUFFERED,
            FILE_WRITE_DATA,
        ),
        IOCTL_BUSENUM_REPORT_HARDWARE == spec_ctl_code(
            FILE_DEVICE_BUSENUM,
            (IOCTL_BUSENUM_BASE + 3) as u32,
            METHOD_BUFFERED,
            FILE_WRITE_DATA | FILE_READ_DATA,
        ),
{
    assert(0x2a_a004u32 == ((0x2au32 << 16u32) | (0x2u32 << 14u32) | (0x801u32 << 2u32) | 0u32)) by (bit_vector);
    assert(0x2a_a008u32 == ((0x2au32 << 16u32) | (0x2u32 << 14u32) | (0x802u32 << 2u32) | 0u32)) by (bit_vector);
    assert(0x2a_e010u32 == ((0x2au32 << 16u32) | ((0x2u32 | 0x1u32) << 14u32) | (0x804u32 << 2u32) | 0u32)) by (bit_vector);
}

} // verus!
