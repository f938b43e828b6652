# Web Notes

A desktop browser for HTML notes kept in topic folders: each direct `.html`
or `.htm` file of a topic folder is a note, listed newest first and shown in
an embedded web view, with its relative assets served through an `app://`
protocol.

The library under `src/` is verified with Verus; `app/` is the program
around it (window, web view, dialogs, files, logging) and is not.

## Layout

- `src/domain.rs` – topics, notes, snapshots and the browsing state
  (selection, expansion, back/forward history, refresh).
- `src/state_laws.rs` – what every browsing operation keeps and undoes.
- `src/config.rs` – the topic registry: ids from folder names, unique
  suffixes, adding and re-pointing topics, first-run and missing-folder
  recovery.
- `src/config_laws.rs` – properties of the registry across operations.
- `src/notes.rs` – which files are notes, their ids and titles, the listing
  order, scanning a folder listing, the `<base href>` of a rendered note.
- `src/server.rs` – routes of the `app://` protocol, note routes, asset path
  checks, content types, the error page.
- `src/server_laws.rs` – properties of asset paths, note routes and
  escaping.
- `src/paths.rs` – where the config file and diagnostics log live.
- `src/window.rs` – the window's keyboard shortcuts.
- `src/path.rs`, `src/text.rs`, `src/order.rs` – paths read component by
  component, text helpers, and the orders used for sorting.
- `tests/` – tests run against the compiled library.
- `app/` – `main`, the event loop, the web view, the protocol handler, the
  config file and folder I/O, diagnostics. It bundles the web UI from
  `ui/index.html`, `ui/app.js` and `ui/styles.css`, which are not part of
  this crate.
