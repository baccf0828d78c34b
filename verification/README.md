# dkb

The verified core of a daily kanban board: items are Markdown files with a
front matter block, kept in six columns (Backlog; Yesterday, Today, This Week
and Next Week on the active board; Done), with sub-items linked by
`[title](<uuid>.md)` or `[[<uuid>]]`.

`src/` is the library, written with Verus: every function carries a contract
and the laws of the library are proof functions beside the code they speak
of.

- `text`, `text_input`, `vi`: the editing state (selection, grapheme and word
  motions, undo/redo) and the vi-style modal keys.
- `item`, `storage`, `board`, `ids`: items, their documents and file paths,
  the board and moving items between its columns.
- `link`: links between items and the sub-item walk.
- `category`, `selection`, `listing`, `terminal`, `cli_state`, `commands`:
  the decisions of the `dk` command line.
- `i18n`, `config`, `viewer`, `theme`, `kanban`, `editor`: languages and
  interface texts, settings, the Markdown viewer, colours, and the decisions
  of the board window and of the item editor.

`app/` is the `dk` command line: files, processes, the environment and the
serde forms of the library's types.
