# ade_workspaces

Workspaces whose sessions outlive the editor that opened them: a registry of the
workspaces a client uses, the lifecycle service that keeps it in step with the
daemons that hold the sessions, and the logic of the windows, sidebars and menus
around them.

The library under `src/` is verified with Verus. Everything it does to the world
goes through the `SessionBackend` trait. The service keeps, for its contracts
only, the history of its backends: each question it asked is a call of a
backend's method, with those arguments and that answer, on the value that the
last call left, and no call stands beside the history. The contract of every
operation is a replay of that history. What an operation may ask, in which order,
and what it then writes follows from the replay, whatever the backends answered.

- `registry`, `workspace`, `entry`, `daemon`, `paths`: the table, its rows, and
  how a row is matched to a daemon and to a checkout.
- `session_backend`, `calls`, `service`, `replay`: the backends, one call on one
  of them, and the record of what they were asked.
- `sessions`, `opening`, `reset`, `scope`, `listing`, `enrich`, `confirm`,
  `adopt`, `reconcile`, `cleanup`, `bulk`: the operations.
- `events`, `outlets`: the merged streams of pushed events, and what was put into
  them.
- `laws`, `confirm_laws`: what holds across operations.
- `store`, `workspace_sidebar`, `workspace_view`, `terminal_pane` and the other
  modules: what the windows show and decide.

`app/` holds the clock, the locks, the threads and the polling loop. `tests/`
runs the library against backends that record what they are asked.
