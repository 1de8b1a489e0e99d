# frext

**Fred Text** — a lightweight GUI text editor with tabs, session persistence
(per-tab swap files), a file-tree sidebar, find/replace, syntax highlighting
and file-type icons.

The editor's logic is a library verified with Verus; the window around it is
ordinary Rust.

## Layout

- `src/` — the verified library. Every public function carries a contract
  stated over mathematical models (`Seq`, `Set`, views), and the properties
  that relate several operations are proved as `law_*` proof functions.
  - `text` — characters, UTF-8 widths, byte offsets, string order.
  - `edit_ops` — character-indexed selection, cut, paste and replace.
  - `search` — query compilation and matching on top of the `regex` crate.
  - `path` — paths as text, compared and taken apart by component.
  - `path_order` — the component-wise order paths are kept in.
  - `highlight` — the language token of a file, the match highlights.
  - `tab`, `workspace`, `persistence` — buffers, the sidebar's expanded
    folders, the session index and its restoration from swap files.
  - `app` — the editor state and every decision it makes; changes that must
    reach the disk are recorded as effects for the shell to carry out.
  - `fs_ops` — where sidebar renames and creations put their entries.
  - `file_icon*` — the icon rules, tables and artwork.
  - `font` — the font fallback order and the emoji-face checks.
- `tests/` — tests of the library.
- `app/` — the `eframe` window: drawing, disk and clipboard I/O, and
  carrying out the library's effects.

## Persistence layout

State lives under the platform state directory (on Linux,
`$XDG_STATE_HOME/frext`):

```text
frext/
  session.json     # tab order, ids, paths, active tab, workspace
  swap/
    <id>.swp       # full text of each tab's buffer
```

On launch a tab's swap file is the source of truth for its content, so
unsaved edits always win over what is on disk.
