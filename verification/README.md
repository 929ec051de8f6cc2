# xla-pjrt

Drives the xla GPU plugin (the `jax-cuda12` build) over the PJRT C API: load
plugin, create client, compile, upload host buffers, execute, copy outputs
back. A session keeps the plugin and a client resident so several executables
share one client, and input buffers (e.g. a proving key) can be uploaded once
and reused across runs.

* `src/` is the library, verified with Verus. Its procedures make no call
  themselves: each stops with the call it wants made and goes on with the
  reply. What a procedure does is stated as a protocol, the tree of its calls
  and decisions, and every step is proved to follow it.
  * `laws.rs` holds what is proved of runs that come to their end: that a run
    on buffers which returns leaves no device memory behind, that transfers are
    waited for, and so on.
  * `discipline.rs` holds what is proved of all runs: which calls are made, and
    that one which ends, by returning or by failing, has destroyed its error
    objects.
  * `device.rs` models a device that keeps what it is given. `results.rs` holds
    what runs on such a device return: what was uploaded is read back, a run on
    host inputs returns what uploading them and running on the buffers returns,
    and so on.
  * `process.rs` is about threads that share the plugin.
* `app/` makes the calls: it opens the plugin and fills in the C structs.
* `tests/` run the sessions on a simulated plugin.

Point `XLA_PJRT_PLUGIN` at the plugin `.so` before use.
