# vmm-sandboxer

A sandboxer runs pods in virtual machines. This crate holds the decisions of a
sandboxer for Cloud Hypervisor: what a pod asks for, what the hypervisor is told,
which steps starting, restoring, pausing and deleting take, what is undone where a
step fails, and what is answered to requests. All of it is verified with Verus.

## Layout

- `src/` is the library. Every function states in its contract what it returns.
  - `text`, `string_map`, `text_map`, `json`: texts, maps and JSON values.
  - `cloud_hypervisor`: the command line, the devices and the API of the hypervisor,
    and the configuration files inside a snapshot.
  - `guest_runtime`: how the host talks to what runs inside a guest.
  - `sandbox`: the life of a sandbox, from the annotations of its pod to its end.
  - `storage`: how the mounts of a container reach the guest.
  - `snapshot`: a store of snapshots by content, a pool of restored guests, metrics.
  - `service`: the requests that come in over the admin socket and the snapshot API.
  - `resolver`, `profile`, `template`, `vm`, `metrics_server`: what these share.
- `tests/` runs the library.
- `app/` is the program around it: arguments, the configuration file, processes,
  files and sockets. It is ordinary Rust and is not verified. It takes up the
  sandboxes of an earlier run, makes and keeps templates and snapshots, and answers
  on the admin socket, the management socket and the metrics port. It serves no
  sandbox API and does not speak that of the agent, so it starts no sandboxes and
  runs nothing inside a guest.

## How work on the host is described

The library performs no input or output. Where a task takes several steps on the
host, a function gives the steps in order, and another one says what a failure of a
step leads to. The program performs the steps. Public proof functions named
`lemma_..` state what holds of a whole task: that a failed restore leaves nothing
behind, that each lease is given back, or that a pool stays within its bounds.

## What is trusted

Parsing and printing of JSON is done by `serde_json`, digests by `sha2`, random ids
by `uuid` and random seeds by `rand`. What the proofs take for granted about them
stands in the contracts of the few functions marked `external_body` in `json.rs`,
`snapshot/store.rs`, `snapshot/warm_pool.rs` and `sandbox/restore.rs`, and of one
function of the standard library in `text.rs`.
