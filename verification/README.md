# connection

Connections between a host and its robots, over the local network and over serial ports.

`src/` is the library. It does no input or output: it decides what packets hold, what received
bytes mean, and when a connection is made or lost. The clock is an argument wherever time matters.

Verus proves the contracts of the library, but for three functions that only call outside code: each
of them says in its comment what is believed of that code. A few functions have no contract of their
own. They implement a trait, whose contract they meet, or are conversions that a specification
function describes.

| Module | Contents |
| --- | --- |
| `protocol` | The packet format, datagrams and their retransmission |
| `packet`, `conn_core` | Commands and responses, and a protocol that sends them as whole packets |
| `driver`, `pool`, `periodic` | The connections to all robots, and sending at a fixed rate |
| `transceivers` | Robots on serial ports and in the network: discovery, timeouts, addresses |
| `framing` | Frames on a serial line |
| `bridge`, `mock` | Forwarding between the network and one robot, and a stand-in for a robot |
| `cache`, `conn_stats`, `utils` | What is known of each robot, statistics, and logs |
| `dual_map`, `interned_map`, `id_filter`, `time` | Data structures |

Properties that relate several functions are stated by the proof functions whose names start with
`law_`.

`app/` runs the library on real ports, sockets, threads and files. It also maps physical quantities
to the integers that packets carry, which is floating point.

`tests/` runs the library.
