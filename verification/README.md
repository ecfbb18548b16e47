# alexo-io

The logic of a personal resume site, verified with Verus, and the Dioxus
front end around it.

- `src/` is the verified library:
  - `theme`: the two colour themes, their CSS classes, icons and persisted
    form, and how the theme to apply is resolved from a saved choice and the
    OS colour-scheme preference.
  - `calendar`: Gregorian `(year, month)` from Unix time, the clock read that
    feeds it, and whole years elapsed since a start month.
  - `text`: character-level prefix/suffix trimming and the display form of a
    web address.
  - `links`: project descriptions with inline `[label](url)` links, and the
    choices made when contact and project links are laid out.
  - `nav`: the navigation toolbar's scroll spy, roving tab stop, arrow-key
    focus movement and scroll behaviour.
- `app/` is the Dioxus application: components, browser I/O (local storage,
  media queries, the DOM), and the floating-point page geometry of the scroll
  spy, which hands the library its outcomes.
- `tests/` runs the library on concrete values.
