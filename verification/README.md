# ttd-gdbserver

Replays recorded WinDbg Time Travel Debugging traces over the GDB Remote Serial
Protocol. GDB, LLDB and Delve can attach, step and continue in both directions,
and restart at any position of the trace. Replay is read-only.

The logic is a Verus library: every verified function states what it returns or
changes, and Verus proves it. A few calls into outside crates and the standard
library stand in wrappers whose contracts Verus believes. The program around it holds the sockets, the threads, the
calls into the replay engine, and the traits of the GDB stub.

## Layout

- `src/ttd/`: positions, threads, registers and failures of the replay engine,
  the stages of opening a trace, and the callback slots of a cursor.
- `src/target/`: the debug target. Breakpoints and the physical watchpoints that
  they need, stop reasons, the positions of the two cursors, and `TtdProcess`.
- `src/gdb/`: the protocol. Checkpoints and `qRRCmd`, monitor commands, register
  file, stop replies, library list and memory map, resume actions, the replay
  worker, and `GdbTarget`, which maps all of it onto a debug target.
- `src/rsp.rs`, `src/client.rs`: packets on the wire, and a client.
- `src/text/`, `src/bytes.rs`, `src/order.rs`: text, numbers and byte order.
- `tests/`: the library on concrete values.
- `app/`: the server program.

Laws that relate several functions are public proof functions whose names start
with `law_`.
