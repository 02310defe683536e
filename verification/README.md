# wy-ui

The logic of a small retained-mode UI toolkit, verified with Verus.

`src/` is the verified library:

- `color`, `theme`: RGBA colours and their `0xRRGGBBAA` packing, the light and dark palettes;
- `event`: keys, modifier masks, input-method events;
- `text_field`, `rich_text`, `text_input`, `text_lines`, `text_util`, `value_sync`:
  what each key and input-method event does to an editor, line ranges,
  grapheme and word boundaries (through `unicode-segmentation`), and keeping
  an editor in step with the value it edits;
- `focus`, `dispatch`: Tab order, click focus, locating a focus chain in a
  rebuilt tree, pointer propagation along a hit path;
- `selection`: selection across several text nodes;
- `accessibility`: the accessibility node table and its text dump;
- `foreach`: keyed list reconciliation;
- `frame_subs`: the bookkeeping of animation frame subscriptions;
- `layout`: layout errors and the decisions of the flex and stack layouts;
- `signal_cache`, `clipboard`: a per-frame value cache and a clipboard host.

Laws that span several operations are public proof functions named `law_*`.

`app/` holds what works with floating-point lengths, the clock or callers'
closures (geometry, the scene, layouts, widgets, the frame source), built on
the library. `tests/` runs the library on concrete values.
