# sprinkles_editor

The decision logic of three parts of the Sprinkles particle editor, verified with Verus,
and the Bevy code around it.

- `src/` — the verified library:
  - `hierarchy`: a snapshot of the entity hierarchy and the walk up to the nearest
    ancestor of a given set (how a clicked dialog button finds its dialog);
  - `dialog`: the requests that open dialogs, the layout of a dialog's panel, and which
    dialogs backdrop clicks, Escape, close requests and button clicks dismiss;
  - `dialog_visual`: the order and roles of the entities faded with a dialog;
  - `seekbar`: the drag state of the playback seekbar and which emitters set the timeline;
  - `flipbook_options`: the flipbook checkbox and fields of the material inspector;
  - `flipbook_textures`: the catalogue of bundled sprite sheets (display names, grid sizes
    from file names, ordering) and the Rust sources generated from it;
  - `text`: character-level helpers (decimal numbers, searching, ASCII case, ordering).
- `tests/` — tests of the library on concrete values.
- `app/` — the Bevy systems and observers, which read the ECS world, call the library and
  apply its answers, plus the file-system side of the sprite-sheet catalogue.
