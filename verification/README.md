# niri-bridge

Keyboard, pointer and touchpad sharing between two paired computers: the pointer leaves one desktop
through a screen edge and enters the other, and the keyboard follows it.

- `src/` is the library. It decides everything that can be decided from plain values. Its functions
  are verified with Verus against their contracts, except for the small functions marked
  `external_body`, which call other crates (`ring`, `rustls`, `rcgen`, `serde_json`, `toml_edit`,
  `evdev`, `time`): what those return is stated in their contracts and believed. The main parts are
  - `coordinator`: which computer is in control, as a state machine from events to actions;
  - `receiver` and `input`: injected input and its cleanup, so that no key or button stays down;
  - `touchpad`: descriptors, frames, contact state, clocks and the routing of native touchpads;
  - `capture_probe`: the capture of input at screen edges;
  - `protocol`, `control`, `edges`, `geometry`, `number`: messages, settings and their validity;
  - `manager`, `document` and `comments`: changes of the configuration file that can be undone and
    keep its comments;
  - `transport`, `identity`: the rules for keys, certificates and the handshake.
- `app/` is the program around it: sockets, devices, Wayland, D-Bus, files, and the little
  floating-point arithmetic that positions along an edge need.
- `tests/` run the library on concrete values.

Floating-point numbers are held in the library as the bits of their 64-bit representation
(`number::Binary64`); what is compared there is compared exactly.
