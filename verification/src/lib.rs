//! Decision logic of a network gamepad bridge that feeds a ScpVBus virtual
//! controller bus: the device I/O-control codes, the gamepad wire format,
//! the report buffers sent to the bus, the client slot table and the
//! per-datagram and per-frame state machines of the UDP and TCP servers.
pub mod ioctl;
pub mod gamepad;
pub mod driver;
pub mod server;
pub mod client;
