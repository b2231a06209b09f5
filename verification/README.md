# velotype

The logic of Velotype, a block-based Markdown editor, as a library verified
with Verus, and a thin program around it.

`src/` is the verified library:

- `text`, `utf` — characters, white space, trimming, and UTF-8/UTF-16
  positions in a text.
- `graphemes` — grapheme-cluster boundaries: cursor steps, the longest
  prefix of whole graphemes that fits, and the fading tail of an overflowing
  field.
- `input` — the single-line text input: selection, composition (IME), key
  commands, mouse positions and edits.
- `jsonc`, `json_value`, `config` — configuration packs: JSON with comments,
  pruning and merging of values, accepted file names.
- `mermaid`, `mermaid_render` — Mermaid fenced blocks, diagram rendering and
  cache keys.
- `toml_value`, `preferences` — TOML documents, `config.toml` preferences,
  the language detected from the system locales, and the preferences window.
- `layout` — how the editor column groups rows into callout and footnote
  boxes and spaces them, menu label widths, overlays.
- `export`, `actions`, `switch`, `dialogs` — export formats and PDF
  conversion, key bindings, the toggle switch, the information dialogs.

`app/` holds what reads and writes files, the platform directories, the
serialised preferences file and pixel arithmetic.
