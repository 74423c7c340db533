# vbus_gamepad

A network gamepad bridge for the ScpVBus virtual controller bus, with its
decision logic verified in Verus.

- `src/` is the verified library:
  - `ioctl` — the bus's device I/O-control codes (`ctl_code`);
  - `gamepad` — the XInput gamepad state and its twelve-byte little-endian
    wire format, with the two round-trip laws;
  - `driver` — the requests and reports handed to the bus (plug-in, unplug,
    state report), the step that opens the bus, the table of present
    controllers, the set of held keyboard keys and keyboard flags;
  - `server` — the slot table and client list of the UDP server, and its
    state machine: one call per datagram, per inactivity check and per stop;
  - `client` — the per-frame state machine of the TCP stream protocol.
- `app/` is the application around it: global state, tokio sockets and
  tasks, the user-interface commands and the Windows device calls.
- `tests/` runs the library on concrete inputs.
