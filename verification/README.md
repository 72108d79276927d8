# instrusim

Virtual measurement instruments that speak SCPI over the network like real
ones, so that any client (pyvisa, LabVIEW, netcat) can be tested without
hardware.

## Layout

- `src/` is the library, written in Verus and verified: the SCPI engine
  (message parsing, header patterns, command tables, the IEEE 488.2 status
  registers and error queue, the common and `SYSTem` commands), the ONC RPC
  and VXI-11 protocol logic, the portmapper, the trigger bus and simulated
  time, the profile and bench checks of Crucible, its formula grammar, its
  command templates and its command line. Every public function states its
  result in its contract; the `law_*` proof functions state the properties
  that span several calls.
- `app/` is the program around it: sockets, files, YAML loading, the async
  servers and the floating-point models of the instruments.
- `tests/` runs the library on concrete values.
