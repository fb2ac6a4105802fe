# gpuitop

The logic of a Linux process and system monitor, verified with Verus:
parsing of `/proc` texts, process records and process-tree queries
(descendants, ancestor chains, subtree sums), the filters, search and
ordering of the process table, Electron application detection, icon
inheritance, GPU memory totals, configuration defaults and edits, and
configuration merging.

- `src/` is the verified library. `src/laws.rs` states properties that
  span several operations (toggling a column twice restores the layout,
  a subtree sum is a process's own figure plus its children's, the pinned
  process heads the table, decimal text reads back, ...).
- `tests/` exercises the library on concrete values.
- `app/` is a small command-line front end: it reads `/proc` through
  procfs, probes NVML and `rocm-smi`, loads `config.ron`, computes the
  floating-point rates, and prints the table the library orders.
