# file_explorer

The logic of a two-pane file manager for macOS, written and verified with
[Verus](https://github.com/verus-lang/verus), and the window around it.

`src/` is the verified library. It reads no disk and draws nothing: it takes what was read as plain
values, and says what is to be shown and done.

- `path`, `path_list`, `text`, `sort`, `input` — byte paths, texts, stable sorting, input events
- `model` — directory entries, tags, bookmarks, settings, the saved session, search, watched
  directories
- `terminal` — the screen of the embedded terminal and the escape sequences that change it
- `git` — status, branches, the commit graph, diffs, remote operations
- `platform` — drags out of the window, the clipboard, scripts for other programs
- `ui` — the file list, the git panel, the terminal panel, the sidebar, the search, preferences,
  notices
- `browser` — tabs, panes and the two of them together; moving and pasting files; the saving of the
  session; keyboard shortcuts

Contracts speak of views: a path is the sequence of its bytes, a text that of its characters, a
terminal a `Screen`. Public proof functions state what holds of several operations together.

`app/` is the program: the window (egui), the disk, git repositories (libgit2), the pseudo-terminal
and the parts of macOS that it calls. `tests/` runs the library on given values.
