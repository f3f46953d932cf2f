# helix_fork

The logic of a personal fork of a modal text editor, written in Verus with
its behaviour stated as contracts and proved:

- a hex viewer/editor for binary files: the layout of the dump document
  (`hex_layout`), formatting and parsing dump lines (`hex_format`), cursor
  motion and scrolling (`hex_motion`), byte editing (`hex_edit`), hexyl-style
  colors (`color`) and the styled spans a dump view is drawn with
  (`hex_render`);
- diff buffers linked vimdiff-style (`diff_group`), with line mapping
  through diff hunks (`line_map`) and word-level highlight candidates
  (`inline_diff`);
- automatic reloading of files changed on disk (`file_watch`);
- debounced syntax reparsing and other debounced handlers (`debounce`), and
  the decisions of the editor's event hooks (`hooks`);
- the breadcrumb bar (`breadcrumb`, `symbols`), a buffer-local line picker
  (`local_search`, `text_lines`) and the version string (`version`).

`src/` is the verified library, `tests/` its tests, and `app/` the thin
layer that reads the environment, files and git output and hands plain
values to the library.
