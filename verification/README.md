# ankerstatus

Monitor for Anker power stations over Bluetooth LE. The library holds the protocol and the rules
of the program, with contracts that Verus proves; `app/` is the program around it.

| Module | What it holds |
| --- | --- |
| `protocol` | TLV fields, inner payloads, frames and their checksum |
| `parser` | packets, status payloads, session keys and device information |
| `fragments` | reassembly of fragmented responses |
| `crypto` | AES-128-CBC with PKCS#7 padding, and the keys of a session |
| `session` | sending, receiving and routing |
| `session::handshake` | the handshake as a state machine |
| `session::telemetry` | probes, polling and keepalives |
| `session::commands`, `session::scan` | single commands, and trying every command ID |
| `state` | what is known of the device |
| `report`, `screen`, `trace` | the REST report, the dashboard and the protocol trace |
| `ble` | choosing devices and characteristics |
| `cli` | command IDs and modes of the command line |
| `clock`, `text` | timestamps, and numbers as text |

The state machines (`run_handshake`, `solicit_telemetry`, `run_telemetry`, `run_commands`,
`run_scan`) map a step and what happened to the next step and an action. `app/session.rs` performs
the actions.

Public proof functions whose names begin with `law_` state what holds across functions: that what
is built is read back, that fragments are reassembled in any order behind the first, that keys only
move forward, that a handshake ends, that every command ID is tried once.

AES and CBC come from `aes`, `cbc` and `cipher`, the time zone from `chrono`, UUIDs from `uuid`. The
functions that call them say in their doc comments what is claimed of those crates.
