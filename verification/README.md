# Siphon

A Twitch notifier: track streamers, get a toast the moment they go live (or get a new title while
they are offline).

- `src/` is the library, written in Verus. It holds the session with the Hermes service, the state
  behind the window, the settings and their migration, the reading of what the GQL endpoint
  answers, the log's rotation, and the text search, calendar and JSON layers below them. Its
  functions state in contracts what they return or change, and Verus proves it.
- `src/by_login/` is an edition of the same logic whose commands name channels by login: it keeps
  logins that no channel was found for, writes settings of layout 1, and serves a window that calls
  for one change at a time. No program in `app/` runs it; it is for callers of the library.
- `app/` is the program around it: sockets, HTTP, files, toasts, the tray icon and the window. It
  hands events to the library and carries out the effects that come back.
- `tests/` runs the library on concrete values.

## What is taken on trust

Three places rest on code that is not proved here, and each says in a doc comment what it relies on:

- `src/json.rs`: reading, holding and writing JSON is `serde_json`'s;
- `src/tray.rs`: decoding the icon is `image`'s;
- `src/text.rs`: `String::push` and `str::to_lowercase` of the standard library.

## Behaviour

Closing the window hides it to the tray where there is one, and ends the program where there is
none. A second launch wakes the running instance. Logs go to stderr and to a file that is rotated
to stay below a cap.
