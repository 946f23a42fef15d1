# flow_state

The verified core of flow-state, a distraction-free writing application:
the paragraph you are writing stays in full colour, everything else is
dimmed. Every rule the application follows is a verified function with
a contract; the program around it only reads and writes files, runs tools
and prints.

## Layout

- `src/` — the library, every function verified against its contract:
  - `text` — paragraphs, paragraph navigation and counting, sentence starts
    (columns are UTF-8 byte offsets).
  - `undo` — the undo history with coalesced typing runs, and its laws.
  - `editing` — what each editor action does to the history and to the
    phantom of a "deleted" sentence; the dimming of inactive paragraphs.
  - `steps` — what the commands do to a document: the phantom made,
    accepted, trimmed and discarded, spelling corrections, undo and redo,
    saving, and creating a file from the sidebar.
  - `keymap` — the editor's bindings and the window shortcuts.
  - `spell` — which words are checked, byte-accurate issue spans, the caret
    helpers, dictionary search paths, loading a dictionary with the
    personal word list, and suggestions.
  - `document` — persistence through a pluggable storage, the unsaved
    marker, and the spelling state that drops stale scan results.
  - `selection`, `overlays` — the selection menu, the find bar, the spelling
    chooser.
  - `commands` — the ESC command bar: filtering, pickers, root commands,
    what ESC and CTRL+F do.
  - `sidebar` — the directory tree (order, hidden entries, expansion), the
    context panel and the keybind cheat-sheet.
  - `workspace` — open documents, panes, focus and closing rules, where an
    opened file goes, and the single preview pane.
  - `theme`, `config` — theme colours with fallbacks, theme names, the
    configuration directory and the files watched for changes.
  - `latex` — how a compile runs and how its log is read.
  - `kind` — which preview a file gets, and what a save does to it.
  - `paths`, `strings`, `status`, `center` — supporting pieces.
- `tests/` — behaviour tests of the library.
- `app/` — a command-line front end: `check`, `paragraphs`, `compile`,
  `learn`, `tree`, `theme`, `themes`, `fonts`.
