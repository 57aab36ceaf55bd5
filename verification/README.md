# metatorio

Planning data for Factorio factories: which technologies, recipes, items
and machines a project can use, and in what order they are shown.

- `src/` is the library, verified with Verus: version parsing, display
  order of prototypes, technology milestones and what they unlock, sorting
  of generic items, machine choice, mod version discovery, planet resources,
  and the plain data types of the planner.
- `tests/` runs the library on concrete values.
- `app/` is a command-line front end: it can have the game dump its data,
  reads that dump, the translations and the mod list with serde, and holds
  the floating-point parts (module effects, quality shares, productivity
  bonuses, recipe yields, number formatting).
