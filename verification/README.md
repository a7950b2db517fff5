# ajemi

Ajemi is an input method for Windows that types Toki Pona in sitelen pona:
the user types Latin letters, and the input method suggests glyphs of the
Sitelen Pona block (and emoji) for them.

This crate is written in Verus. The library under `src/` holds what the input
method decides, each function with a contract that Verus proves:

- `engine`: the dictionaries (`schema`), the suggestions for a spelling
  (`suggest`), whole sentences (`sentence`), long glyphs (`long_glyph`), the
  choice of dictionaries (`dicts`) and the laws that tie them together
  (`laws`);
- `tsf`: the inputs that keys make, and the composing state, from key to
  state and to the actions the system has to carry out (`composition`);
- `ui`: the layout and the painting plan of the candidate list;
- `global`, `layout`, `install`, `extend`, `conf`, `text`: keyboard layouts,
  language identifiers, configuration values and text helpers;
- `dict`, `words`, `wide`, `ime`: the earlier dictionary engines and key
  handling, kept as a library.

`app/` is the DLL around the library: COM registration, the TSF interfaces,
edit sessions, the window of the candidate list, files, the registry and
logging. `tests/` runs the library on concrete values.
