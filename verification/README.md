# kubewatch_desktop

The logic behind the screens of the KubeWatch desktop client for
Kubernetes, written in Verus with its behaviour stated in contracts and
proved.

## Layout

- `src/text.rs`, `src/units.rs`: text handling (trimming, splitting,
  ordering, UTF-8), Kubernetes quantities and durations.
- `src/widgets/`: the reusable widgets' models: the terminal emulator (ANSI
  parsing, streamed UTF-8, scrollback, key translation, row drawing), the log
  view ring, the YAML editor, toasts, confirmation of destructive actions.
- `src/views/`: the screens' rules: resource tables (columns, filter, stable
  sort) and the step function of the resources screen (sorting, paging,
  selection, confirmation of destructive actions), the object graph (assembly and layered columns), the deployment
  form and wizard, update watchers, detail, settings and YAML views.
- `tests/`: scenarios on concrete values, run against the compiled library.
- `app/`: the egui shell around the library: drawing, the clock, the
  environment, JSON listings, and what computes with floating point.

## What stays outside the library

The screens themselves (drawing with egui), the positions of the graph's
nodes and the layouts that compute them (floating point), the sort of the
resources table by its Ready column (a floating-point ratio), and the size
profiles of the deployment wizard, whose rules belong to the hub's sizing
module, which this crate does not hold.
