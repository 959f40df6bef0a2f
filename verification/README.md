# reclass

A live structure viewer for running processes: classes are laid over memory at an
address that an expression gives, their fields are shown and edited in place, and
an agent can do the same over MCP.

`src/` is the library, written in Verus. It holds the classes and their layout,
the edits with undo and redo, the clipboard, the rows' search, the selection, the
settings, the actions of the window and of the terminal, the MCP tools and the
JSON-RPC routing, the plugin manager, the updater, the pointer-scan job and the
state machine of the access tracker. Every function states what it returns or
changes; the functions named `law_*` state what holds across them:

- a guarded edit (changing a kind, adding an array, pasting, following a pointer)
  never closes a cycle of inline classes; pushing or inserting a field and adding
  a class are not guarded, and close none where the kind that they store does not;
  deleting a class leaves no reference to it behind (`cycles`, `layout`,
  `timeline`, `safety`);
- undo brings back what an edit changed and redo what undo took, within a bounded
  history (`history`, `timeline`);
- a filter keeps every match with the rows that lead to it (`rows`);
- what the user, an agent or a plugin edits can be undone, and a failed tool is
  answered (`safety`, `mcp`, `requests`, `rpc`);
- a library of another toolchain is never asked for plugins, and a plugin that
  panics is switched off (`plugin`);
- clones of an updater's handle read one status, the one that the last step left
  (`updater`);
- a watch detaches from the process it attached to and forwards the signals that
  are not its own (`tracker`).

What the library takes on trust is the texts that `serde_json` reads and writes
and the copy of its numbers, the messages of std's number parsers,
`str::to_lowercase` and `String::push`.

`app/` is the program around it: windows, terminal, sockets, files, processes. It
needs `vmem` for memory and `reclass_core` for rendering rows, address
expressions, code generation, project files and pointer scans.
