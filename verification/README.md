# plugin_kernel

The plugin kernel of a music player, verified with Verus.

Plugins are discovered (compiled in, or found in plugin directories),
checked against the host, ordered by their dependencies, loaded, activated
and deactivated under a lifecycle state machine, and called behind per-plugin
circuit breakers. While active they contribute commands, menu entries, views
and audio processors, provide services to one another under visibility and
capability rules, and receive the host's events.

## Layout

- `src/` — the verified library.
  - `ids`, `text`, `error`: identifiers and versions, string helpers, errors.
  - `manifest`, `discovery`, `loader`: manifests and their validation, the
    settling of what discovery found, library file names.
  - `deps`: the dependency graph — activation and deactivation orders,
    missing dependencies, version conflicts, the impact of an unload.
  - `lifecycle`, `supervisor`: the lifecycle state machine and its history,
    circuit breakers and the log of supervised calls.
  - `service`, `container`, `contributions`, `event`: services and their
    leases, the service container, the contribution registry, events and
    subscriptions.
  - `runtime`, `kernel`: the plugin table and the kernel that ties the
    pieces together; every step of activation, deactivation, unloading,
    uninstalling and event dispatch.
  - `panel`: what the front end's plugin panel is shown: plugins,
    contributions, discovery issues and views, as text.
  - `abi`: the JSON envelope of answers across the C interface.
  - `plugins`, `lyrics`, `track`, `app_error`: the built-in plugins' rules,
    LRC parsing, audio file listings, and errors shown to the front end.
- `tests/` — tests of the library on concrete values.
- `app/` — the host around the library: worker threads for supervised calls,
  plugin directories on disk, shared libraries behind the C interface, the
  built-in plugins' calls into host services, reading audio tags, and the
  JSON shapes exchanged with the front end and with loaded plugins.
