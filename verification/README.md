# souchy_tauri_specta

Export plumbing for typed Tauri bindings, verified with Verus.

- `src/export.rs` — `ExportFiles`: the files an exporter writes, one content per
  file name, listed in ascending name order (the order of `String`).
- `src/name_order.rs` — that order on names, its laws, and an executable comparison.
- `src/prefix.rs` — `apply_as_prefix`: `plugin:<plugin><:|><name>` for events and commands.
- `src/events.rs` — `EventNames`: the names of registered events, each taken at most once.
- `src/error_mode.rs` — `ErrorHandlingMode`, `Result` by default.
- `src/integrations/` — the transparent wrappers `SJson` and `SqlxJson`.
- `app/` — serde, specta and sqlx implementations of the wrappers, `ExportContext`
  and the `LanguageExt` exporter trait.

`Commands` and `internal::command` are not part of this crate: they are built
from tauri's invoke handler, and tauri is not among its dependencies. Nor is
the `Event` trait that supplies an event's name and type generator;
`app/`'s `internal::register_event` takes them as arguments.
