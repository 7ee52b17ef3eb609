# Muote

Muote shows a quote on the desktop, below the other windows, and refreshes it on a
systemd timer. A settings window chooses the font, colors, background, stroke and
shadow, the authors and how often each is picked; a full-screen placement editor
moves and resizes the quote and author boxes.

## Layout

- `src/` is the library, verified with Verus: the text formats of the settings and
  cache files (the hashed JSON files, the cached quote, the timer unit), colors,
  paths, the weighted choice of an author and of a quote that fits, the placement
  editor's snapping and dragging, the display window's bounds, and the settings
  window's handling of each change.
- `tests/` runs the library on concrete values.
- `app/` is the rest of the programs: the GTK windows, drawing with cairo and pango,
  reading and writing files, fetching quotes from Wikiquote, and the arithmetic on
  floats that drawing needs.
