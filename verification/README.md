# cosmic-applet-show-desktop

A panel button for the COSMIC desktop that shows the desktop: one press
minimizes every window on the active workspace, the next brings back exactly
those, and no others.

The decisions are a Verus library under `src/`, each function proved against
its contract:

- `show_desktop`: the remembered set and what a press does, over windows
  named by keys (integers, or the compositor's toplevel identifiers), with
  the laws of the feature (a second press brings back the first; a window the
  user minimized stays minimized; the trip back touches only what was put
  away).
- `state_file`: the one-identifier-per-line file shared by the button and the
  `--toggle` invocation, with the law that a written set reads back the same.
- `panel`: what the button does with each window list, press and lost
  connection, each decision taking the set last saved and leaving the set to
  save, with the law that the button and `--toggle` bring back what the other
  put away.
- `toggle`: aiming steps at the current window list by identifier, and when
  a `--toggle` run stops waiting for that list.
- `compositor`: which windows are in scope, when a window list is worth
  sending, and what a request asks of the toplevel manager.

`app/` holds the program around it: the libcosmic application, the Wayland
thread, and the file I/O.
