# veil

A nested Wayland compositor that shows its windows in a terminal or on bare
display hardware, a client that shows any program in a terminal, and a login
manager. The logic is a library verified with Verus; the programs around it
are ordinary Rust.

## Layout

`src/` is the library. Every function states in its contract what it returns or
changes, over the mathematical models in the same file; where another crate
decides, the contract names what that crate makes of the arguments. Public proof
functions named `law_...` state what holds across functions.

| Modules | What they hold |
| --- | --- |
| `layout`, `ratio` | dwindle tiling and focus |
| `server`, `scene`, `surface`, `canvas`, `overlay`, `font5x7` | windows, input, clipboard and composing a frame |
| `launcher`, `config`, `args`, `paths`, `lockfile` | applications, configuration, command line, the single instance |
| `input`, `keys`, `keycodes`, `btn`, `xkb_mod`, `virtual_input` | input from terminals and devices, and into nested compositors |
| `output`, `terminal`, `render`, `kitty`, `gpu` | choosing an output; pixels to characters and escape sequences |
| `windows`, `json`, `screencopy`, `capture`, `tui`, `cli` | finding and capturing other programs |
| `login`, `environment`, `session`, `state` | logging a user in |
| `text` | string operations on character sequences |

Calls into other crates and into the standard library stand behind trusted
functions whose doc comments say what is believed of them: `text` and
`launcher` (`String`), `server` (`char`), `login` (`str`, `char`, image), `render`
(image), `json` (serde_json) and `tui` (vt100).

`app/` holds the programs: protocol and device plumbing, threads, the run of a
configuration script, and the floating-point positions of the pointer.
`veil-host` is the compositor, `veil` the client and `velogin` the login manager;
the name it is started by selects one. `app/seat.rs` needs the system's libseat.

`tests/` runs the library, with the other crates linked.
