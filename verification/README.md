# virtualfacility

Kubernetes-style lab networks on one Linux host: a bridge, node network
namespaces and pod network namespaces joined by veth pairs and routes. The
library plans everything as shell command plans and decides what the command
line does (networks are chosen with `--network`, nodes and pods are listed
and deleted by ID); every function of it is verified with Verus against its contract.

## Layout

- `src/` — the verified library.
  - `text`, `parse`: strings, decimal numbers, shell quoting, lines, words.
  - `error`: `FacilityError` and its message text.
  - `plan`: commands, plan steps, plans and their shell rendering.
  - `net`: IPv4 addresses.
  - `model`: the mathematical model of topologies, builders and the plans
    derived from them.
  - `topology`: `Topology` and `TopologyBuilder`.
  - `bootstrap`: the rootless bootstrap plan.
  - `support`: host readiness and applying a plan step by step.
  - `cli`, `commands`, `requests`: contexts, saved states, arguments and the
    decisions of each command.
  - `facility`: bridge addresses and the topology of a saved state.
  - `store`: the state file and the context file.
  - `status`: the status report.
  - `ids`: the IDs of nodes and pods, and resolving an ID back to a name.
  - `smoke`: the smoke run (setup, ping, cleanup).
  - `laws`: properties of topologies, plans, names and contexts.
- `tests/` — tests of the library.
- `app/` — the `virtualfacility` program: files, processes, `ip`, printing,
  and joining a network namespace.
