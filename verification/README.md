# Display Studio

Control of external displays over DDC/CI: a daemon that owns the hardware, a
command line, a menu bar app and a diagnostics report.

- `src/` is the library, verified with Verus. `ddc` is the protocol, `model` the
  displays, profiles and rules, `daemon` what requests and rules do to the
  displays, `api` the wire types, `macos` the pairing of displays with their I2C
  channels, and `ctl`, `gui` and `probe` what the programs show and ask for.
- `tests/` runs the library.
- `app/` is the programs around it: sockets, files, the platform and the windows.
  One binary serves as `displayd`, `displayctl`, `display-gui` and `display-probe`,
  by the name it is started under.
