# wshowkeys

Displays keypresses on screen on Wayland compositors that support
`wlr_layer_shell_v1`.

- `src/` is the verified library (Verus): the keymap configuration format
  (`config`), text primitives it is built on (`text`), the command line
  (`cli`), keypress bookkeeping and expiry (`input`), key labels, colours and
  the double-buffered SHM pool (`render`), the surface state machine with
  frame pacing (`wayland`), and the messages of the privileged device broker
  (`devmgr`).
- `app/` is the program around it: the device broker's fork and sockets,
  libinput and xkbcommon, cairo/pango drawing, the Wayland connection and
  the event loop.
- `tests/` exercises the library.
