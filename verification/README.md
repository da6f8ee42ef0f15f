# floatnote

The verified core of FloatNote, a floating note window for macOS that saves
each note as a Markdown file.

- `src/` is the library, verified with Verus:
  - `text`: Unicode white space, trimming, lexicographic order;
  - `filename`: names of new note files (`{time stamp}-{title}.md`);
  - `shortcut`: shortcuts written as text, such as `Cmd+Shift+N`;
  - `settings`: the user's settings;
  - `paths`: the configuration and notes folders;
  - `notes`: the latest note, and which file a save writes;
  - `window`: what the shortcut, the tray icon and its menu do.
- `app/` is the Tauri application around it: commands, file I/O, the tray,
  shortcut registration and the macOS panel.
- `tests/` runs the library on concrete values.
