# bevy_widgets

Verified logic of a few UI widgets and of system parameter access checking.

- `src/access.rs`, `src/query.rs`, `src/system.rs`, `src/world.rs`: what a system
  parameter reads and writes, queries built term by term (a term that clashes
  with an earlier one makes the query conflict with itself), when two parameters
  conflict (taking query filters into account), and systems that are
  initialized (conflicts refused) and run (parameters validated against the
  world): with a kept input value, piped into another system, or mapped.
- `src/list.rs`: keyboard navigation and click selection of a list box.
- `src/menu.rs`, `src/scrollbar.rs`, `src/theme.rs`: opening and closing menu
  popups, and the theme colors of menu items and scrollbar thumbs.
- `src/number_input.rs`: integer parsing and writing, the characters a number
  input accepts, when its text is committed, and which text field is refreshed
  when the value changes.
- `app/`: floating-point values of the number input, accessibility nodes, and the
  value change events built from the library's decisions.

Every function in `src/` carries a machine-checked contract; the `law_*` proof
functions state properties that span several functions.
