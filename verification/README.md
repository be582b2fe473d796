# zhuge-netdiag

Finds where on the way from this machine to the public network a connection is
slow, lossy or broken, and says so in Chinese: on the console, in a window and in
a Markdown report.

## Layout

- `src/` is the library. What it computes is verified with Verus. It rests on a few
  calls of the standard library whose contracts are trusted: the lossy decoding of
  UTF-8 in `http`, and the reading of the clock in `report`. Its modules:
  - `addr`, `text`: addresses and texts, read and written;
  - `rounding`, `binary64`: averages and percentages, rounded exactly as IEEE 754
    double precision rounds them, in integers;
  - `icmp`, `arp`, `dns`, `http`, `env`, `quality`, `trace`: what the measurements
    come to, from the bytes, codes and times that the network brings;
  - `route`, `diagnose`: where the bottleneck is;
  - `report`: the report;
  - `runner`: the course of a diagnosis, as a machine that asks for one job after
    another and takes the answers;
  - `cli`, `gui`: what the command line and the window ask for and show.
- `app/` is the program: sockets, system calls, the console and the window. It does
  the jobs that `runner` asks for. An executable whose name holds `gui` opens the
  window.
- `tests/` runs the library on concrete values.

The laws of each module, the public proof functions whose names start with `law_`,
say what holds of it for all inputs.
