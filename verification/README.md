# blazingjj

A terminal user interface for the [jj](https://github.com/jj-vcs/jj) version
control system: a log of changes with their details, the files a change
touched with their diffs, and the bookmarks of the repository, with the jj
operations (new, edit, squash, rebase, abandon, absorb, resolve, push, fetch,
bookmark management, ...) on single keys.

## Layout

- `src/` is the library, written in Verus. It holds what the program
  decides: how jj's output is read (heads, files, conflicts, bookmarks, the
  messages of `jj new`, `jj absorb` and `jj simplify-parents`), which
  arguments each jj operation runs with, the key bindings and their
  configuration, the search and the highlighting of its matches (with the
  text styles laid over one another), the help layout, what each key asks
  for in each tab and popup, which open prompt, popup or question takes a
  key first, the bookmarks tab's modes and settings as a step from key to
  new state and action, and the checks, questions and revisions of each
  operation. Each function carries a contract that Verus proves; the laws
  that relate several functions are public proof functions.
- `app/` is the program around the library: argument parsing, reading jj's
  configuration, running jj and carrying out the actions the library
  decides on, the prompts' text editing, the terminal and the drawing of
  each tab.
- `tests/` runs the library on concrete values.
