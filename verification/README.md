# Schematic viewer

A native viewer and editor for KiCad schematics. The library under `src/` holds what the viewer
knows and decides: it is written in Verus, and each of its functions states and proves what it
returns. The program under `app/` opens the window, reads and writes files, and draws what the
library tells it to.

## The library

| Part | Modules |
| --- | --- |
| Numbers and geometry | `double`, `finite`, `printing`, `geometry`, `plane`, `arcs`, `ordering`, `stl_sort` |
| Text and trees | `text`, `sexp`, `readers`, `kicad_font`, `text_box`, `ui_text` |
| The scene | `primitives`, `scene`, `scene_builder`, `symbol_drawing`, `label_drawing`, `text_drawing`, `worksheet`, `document_drawing` |
| Finding what lies at a place | `rtree_model`, `rtree` |
| Connections | `connectivity`, `attachment` |
| Edits | `source_edit`, `restoring`, `group_edit`, `edit_session`, `editor_history`, `editor_model`, `edit_control`, `sheet_facts`, `sheet_commit` |
| Projects | `hierarchy`, `reload`, `svg_cache`, `change_timeline`, `launch` |
| The window | `screen`, `theme`, `controls`, `input`, `pointer`, `dialogs`, `selection`, `search`, `text_select`, `font_tables`, `native_font`, `viewer`, `viewer_settings` |
| Drawing the window | `paint`, `icons`, `toolbar`, `panels`, `strip`, `window`, `encode`, `frame` |

Coordinates are binary floating-point numbers, kept as sign, mantissa and exponent (`double`), so
that sums, products, quotients and roots are exact statements about integers. What takes
trigonometry is asked of the program through a function that it hands in (`plane`).

The font of the interface shapes its texts with `rustybuzz`. The library makes that call itself
where the tables of the font are simple and the text is plain (`font_tables`, `native_font`): there
it cannot fail. For all other fonts and texts the program hands in a function that shapes them.

Five functions of other crates and of the standard library are believed and not proved: the
shaping of text (`rustybuzz`), the decoding of pictures (`png`), lower case, the appending of a
character to a string, and the character with a given number. The contract of each stands beside
it.

## The program

`app/documents.rs` holds every call of the S-expression crate, `app/edits.rs` the changes that a
reader makes, `app/viewer.rs` the window and its events, `app/run.rs` the command line.

## Tests

`tests/` runs the library on concrete values: the time line and settings, fonts, the spatial index,
words, edits, scenes, editing sessions and the viewer.
