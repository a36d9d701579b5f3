# corrosive

The core of the Corrosive entity-component engine, with its behaviour
stated in contracts and proved by Verus.

- `src/build/`: the engine builder. It reads the builder macro's arguments
  (`grammar`, `package`), keeps the scheduling graphs (`dependency`,
  `merge`, `schedule`, `leaves`, `graph_checks`), walks the packages an
  application uses (`reach`), keeps the trees of paths, tasks and components
  of the source in line with the disk (`paths`, `directory`, `scanning`,
  `tasks_scan`, `components_scan`), decides what a source file declares
  (`declarations`, with `source` and `lexing` reading a file's text through
  `syn` and `proc_macro2`), finds the builder call among a file's macro calls
  (`builder`), works out the archetypes (`archetypes`) and the choices the
  generated engine rests on (`entities`, `wiring`, `numbering`,
  `task_plan`, `view_plan`).
- `src/ecs/`: the runtime handles of components, resources, states,
  references and hierarchies.
- `src/events.rs`, `src/inputs.rs`: input combinations, action tables, and
  the keyboard and mouse state of a frame.
- `src/assets/`: the asset and cache servers and their reference counts.
- `src/shaders.rs`, `src/hashing.rs`, `src/text.rs`, `src/assoc.rs`: shader
  bookkeeping, the asset hash, text order, and string-keyed tables.
- `app/`: what the library leaves to ordinary Rust: the file system, code
  templates, threads and locks, and the floating-point pointer state.
- `tests/`: tests of the library on concrete values.
