# bindr

A Herdr plugin for switching between named keybinding profiles. Profiles are
TOML snippets holding only the `[keys]` table; switching one in writes it into
Herdr's `config.toml` without touching anything else (theme, UI settings,
other plugins' `[[keys.command]]` bindings). A popup shows the bindings of
each profile as Herdr's `prefix+?` panel does, and edits them.

The logic is written in Verus and proved against its contracts; the program
around it only reads and writes files, talks to Herdr and drives the
terminal.

## Layout

- `src/` — the verified library.
  - `toml_doc.rs`: the `toml_edit` documents as plain values (root slots,
    `[keys]` slots, custom commands, text) and the calls into `toml_edit`.
  - `keys.rs`: edits of `[keys]`: reading and setting one binding, applying a
    profile to the live config, extracting a profile, the default profile.
  - `keybinds_data.rs`, `panel.rs`: Herdr's panel rows and the rows built
    from a profile's overrides and the custom commands.
  - `conflicts.rs`, `filter.rs`: duplicated shortcuts and fuzzy search.
  - `footer.rs`, `tabs.rs`, `render.rs`, `frame.rs`: the lines of the popup
    and the whole screen.
  - `key_input.rs`: key presses and their names in Herdr's binding syntax.
  - `view_state.rs`, `view_session.rs`, `dispatch.rs`: the popup's state, its
    transitions, and what a key press or a mouse event does.
  - `profiles.rs`, `undo_file.rs`: profile names, the switch target, saving,
    committing and undoing a change, and the record of the last change.
- `tests/` — tests of the library.
- `app/` — the `bindr` program: subcommands, files, Herdr, the terminal.
