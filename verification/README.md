# rust-can

A Controller Area Network library whose behaviour is stated in contracts and proved with
Verus.

| Module | What it holds |
|---|---|
| `frame`, `error` | frames, filters, the rules of each frame format |
| `bus`, `virtual_bus`, `mock` | subscriber queues, the in-process bus, a bus for tests |
| `socketcan` | raw frames, the steps of opening a socket, what is done with a read |
| `isotp` | messages of up to 4095 bytes over 8-byte frames |
| `j1939`, `uds`, `obdii` | protocols on top |
| `dbc`, `recorder` | DBC files and candump logs |
| `safety`, `crc` | end-to-end protection and its checksum, message authentication |
| `relay`, `adapt` | the message layer and the way between frames and messages |
| `cli`, `interop` | what the command line tool and the interop peer compute |
| `text`, `textmap`, `time`, `hexcodec`, `base64_serde` | what the others are built on |

Nothing in `src/` waits or does I/O. Where a protocol has to wait, a state machine says what
to do next and is told what came of it. `app/` holds the program around the library: the
command line, sockets, timers, tasks, JSON, and physical values as floating-point numbers.

Laws that span several functions are public proof functions at the end of their module.
