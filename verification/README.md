# slate_framework

The platform-independent core of a GPU UI framework, written in Verus and
proved against its contracts:

- `focus`: focus registry, Tab cycle, modal focus traps and modal focus
  reconciliation.
- `text_edit`: the editing core shared by single- and multi-line fields
  (UTF-8 byte positions, grapheme and word motion, selection, typing, IME
  commit, clipboard, undo/redo with coalescing, caret blink, shortcuts).
- `elements`: key, pointer and input handling of the text field and text area,
  the tree's visible-row flattening and keyboard navigation, tooltip timing,
  the toolbar strip.
- `hit_test`, `interaction`: pointer hit testing and hover/press chains.
- `paint_cache`, `font_cache`: the text-shaping cache (frame GC, memory cap,
  LRU eviction) and the font cache.
- `image_cache`: hit / re-upload / first-upload decisions for atlas images,
  pixels kept across device loss, out-of-memory reported once.
- `menu`: the native-menu model and the action registry.
- `persistence`: window geometry save/restore.
- `executor`: bounded foreground polling and the redraw requester.
- `ime`, `ime_registry`, `reactive_value`, `readback`, `time`.

Laws of the library are public proof functions named `law_*`.

`app/` holds what Verus does not take: async executors on `smol`, profiling
counters, float hashing of paint inputs, font-key construction from float
sizes, and the `Rc<RefCell<_>>` glue around the IME registry.
