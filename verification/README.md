# msi_klc

Control of MSI SteelSeries "KLC" per-key RGB laptop keyboards over Linux
hidraw, as a Verus-verified library and a small program around it.

- `src/` is the library, verified by Verus. Every report the keyboard is
  sent is stated byte by byte (`protocol`), including the transform of a
  lighting effect into the device's 151-byte effect program; command-line
  arguments are validated and turned into logical frames (`command`), and
  frames into the reports that apply them (`render`). Parsing of colors,
  key names, absolute brightness values, device ids and sysfs `uevent`
  files is specified down to the bytes. The proof functions named `law_*` state the
  properties that relate several functions.
- `app/` is the `msi-klc` program: the command line, the hidraw and
  `uleds` I/O, the state file, the JSON data tables, and the
  floating-point arithmetic: color scaling and the reading of a brightness
  percentage. It reads `msi-layouts.json` and `msi-klc-models.json`
  from `$MSI_KLC_DATA_DIR` (default `/usr/share/msi-klc`).
- `tests/` runs the library on concrete values.
