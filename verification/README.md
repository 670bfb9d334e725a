# dhammapada

The reading logic of a GTK/libadwaita reader for the Dhammapada (423 verses
in 26 chapters, translated through gettext), written in Verus.

- `src/text.rs` — Unicode white space, trimming, splitting into and joining
  lines, decimal rendering of integers.
- `src/chapters.rs` — the chapter layout, chapter and verse identifiers, the
  chapter reopened at start-up; proofs that the chapters split verses 1–423
  without gap or overlap and that identifiers are unique.
- `src/verse.rs` — the Pango markup of a verse, the clipboard text, and the
  markup rebuilt from a label when the font size changes; proof that
  resizing keeps the verse.
- `src/navigation.rs` — the navigator: selection, the chapter read last, and
  page turns by scrolling past either end of a chapter, with a debounce;
  proofs of its invariants and of forward-then-back page turns.
- `src/locale.rs` — language code from `LANG`, English fallback, catalog
  directory, colour scheme.
- `app/` — the window, settings file (TOML via serde) and gettext calls.
