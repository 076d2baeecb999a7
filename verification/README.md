# clackd

A keyboard-configuration daemon for Linux, with VIA first and other vendors'
keyboards behind the same interface, and `clackctl`, its command-line client.

The library under `src/` decides everything that can be decided without touching
a device, a bus or a disk. Its functions are verified with Verus; trusted without
proof are `String::push` and `text::debug_text`, which formats a string with `{:?}`:

- `engine`: which devices are attached, how requests are routed, what a device
  worker does after each operation, and how reconnection backs off
- `hal`: the drivers. `via` speaks the VIA raw-HID protocol and holds the optional
  write-coalescing buffer; `legacy` keeps a shadow keymap for keyboards that cannot
  be read back, with `gmk67` and `logitech` on top of it; `epomaker` is the older
  EK68 driver; `hid` reads report descriptors
- `config`, `hotplug`: which driver a device gets, and what a udev event means
- `ipc`: how errors look on D-Bus
- `clackctl`: key names, colours, levels and everything that the client prints
- `text`, `input`, `sorted`, `color`: numerals and alignment, parsing, a sorted
  map, and colour conversion

A driver is a state machine here: a method either answers at once or names the
frames to be exchanged, and a second method takes what came back.

`app/` is the rest: hidraw, udev, D-Bus, files, signals and the tasks that run the
state machines. Started under the name `clackctl` the program is the client,
otherwise the daemon.
