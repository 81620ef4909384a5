# wrap

`wrap` runs commands and coding agents in a disposable Arch Linux microVM
built around the current directory, which is mounted at `/workspace`. The
VM image is built in cached layers shared by all projects; each project
gets its own VM, cloned from the newest base layout and reused until that
layout changes.

The crate has two parts.

- `src/` is the library, written in Verus and verified: the configuration
  (its defaults, overlay merge and validation, the resolution of host
  values), the layered image (stage scripts and snapshot names), project VM
  decisions (sizing, reuse, network and secret rules, the session command,
  the host-state and shim scripts), the in-VM file methods and their
  selectors, shell quoting, and the terminal status lines with their live
  region.
- `app/` is the program around it: command-line parsing, reading files and
  the environment, running host commands, YAML decoding, the microVM calls
  and the terminal. It makes each call the library decides on and writes
  what the library renders.

Modules of the library:

| module | contents |
|---|---|
| `text`, `ansi` | characters, trimming, numerals; escape stripping, cell widths, truncation |
| `shell` | quoting and script preambles |
| `yaml` | YAML values and the overlay merge |
| `config` | configuration types, defaults, validation, host values |
| `paths`, `digest` | path operations and SHA-256 (through `std` and `sha2`) |
| `stages` | base image stages, their scripts, snapshot names and the layer build steps |
| `session` | project VM decisions and guest scripts |
| `methods` | `ls`, `read`, `write`, `grep`, `find` and `bash` in a running VM |
| `ui`, `display_laws` | status lines, the live region, and what holds of them |
