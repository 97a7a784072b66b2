# Beckon

Beckon binds selected Herdr agent panes to ten logical keys, `f1` through
`f10`, and shows their state on optional displays.

The library under `src/` holds the rules and is verified with Verus:

- `binding`, `ledger`, `status`, `service`: the binding ledger and the requests
  that change it, with the calls made to the store and to Herdr.
- `laws`: what holds of the ledger across requests.
- `histories`: what holds over any history of key presses, status writes,
  sidebar tokens, plugin snapshots and calls of the pane cache.
- `action`, `navigation`, `focus`: what a key press does.
- `input`: physical shortcuts, registered as one set or not at all.
- `render`, `brightness`: themes and the render plan.
- `hid`, `display`, `display_protocol`, `plugin`: the keyboard's status report,
  the fan-out to displays, and supervised display programs.
- `presentation`: what the daemon shows on every tick.
- `config`, `state`, `herdr`, `pane_cache`, `control`: configuration, the stored
  ledger, Herdr's events, and requests to the daemon.
- `text`, `name_map`: texts and maps by name.

A store, Herdr, the terminal, the shortcut registry, the keyboard and a display
each stand behind a trait. The ghost function `made` of the trait is the record
of the calls made so far, and the contract of each method says that its call
joins the record with its answer. The contracts of the library say which calls
an operation makes, in which order, and how its result follows from the
answers. They rest on that record being kept by the implementations, which
stand in `app/`.

`app/` is the program around the library: the command line, files, sockets,
processes and devices. `tests/` holds the tests of the library.
