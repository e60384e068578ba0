# sdwanlite

An SD-WAN control plane and edge agent whose logic is verified with Verus.

- `src/` — the verified library: device configuration and its validation,
  the controller's device store and alert bookkeeping, the agent's
  transactional apply, path labels and policies, the TCP/HTTP load balancer
  state (selection, limits, health, latency statistics, head rewriting and
  HTTP/2 translation), golden signals and the Prometheus page, configuration
  reload, the BGP wire format, RIB and session state machine, WireGuard
  configuration rendering and `wg` dump parsing, ACME helpers, certificate
  status, and the dashboard's pure helpers. Calls into outside crates
  (base64, sha2, rand, uuid, x25519-dalek, x509-parser, rcgen) go through small
  trusted wrappers whose contracts are stated next to them.
- `tests/` — tests run against the compiled library.
- `app/` — the executables around it: `app daemon [sdwanlite.toml]` runs the
  daemon (load balancers, BGP sessions, API); other arguments run the agent
  or, with `--mode controller`, the controller.

WireGuard is driven through the kernel's `wg` tool only: the userspace
WireGuard node (a boringtun tunnel bridged to a smoltcp network stack) is not
part of this project.
