# woven_shell

The logic of a Wayland shell for Sway (bar, launcher, lock screen, control center,
settings panel), written in Verus and proved against its specifications.

- `src/` — the verified library. Parsers (`.desktop` files, calculator input, sway
  IPC frames, `/proc` and `sysfs` text, GTK settings), the state machines of the
  launcher, the lock screen, the control center and the settings panel, the bar's
  widget state and module grouping, icon lookup and caching, the box blur of the lock
  screen, the generated sway keybind file, and the string helpers they share. Each
  public function states its result in `ensures`; laws that relate several calls
  are public proof functions (`lemma_*`).
- `tests/` — tests of the library on concrete values.
- `app/` — the unverified rest: reading and writing files, running commands,
  floating-point work (calculator evaluation, scaling the bar's icons), and converting
  serde/JSON values into the library's types.

Outside crates called from the library, each behind a small trusted wrapper whose
contract is stated next to it: `png` (decoding the bar's icons), `image` (decoding
and scaling the lock screen's wallpaper, the launcher's icons and the profile
picture), `flate2` (`.svgz` icons), `toml` (theme files), and `format!("{:?}")` from
std for quoting TOML strings.

Maps and sets keyed by strings (the icon caches, the desktop-entry merge, the
keybind categories) are vectors of key/value pairs with the invariant that no key
occurs twice (`unique_keys`). vstd's specifications of std's `HashMap` and `HashSet`
hold only for key types that obey its key model (`obeys_key_model`), which vstd
grants to primitive integers and `bool` and leaves to an `assume` for any other key
type, `String` included; `assume` has no place in this library. With a vector the
contracts state, proved, which entry a lookup finds and what an insert or removal
changes.
