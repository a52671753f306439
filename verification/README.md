# accelrd

A vendor-neutral readiness toolkit for GPU nodes in a Kubernetes cluster. The
library holds every decision that the programs make, as Rust that Verus
verifies; the programs around it read files, talk to the cluster and export
telemetry.

- `src/sensors`: the accelerators of a node and what they measure, from the
  contents of sysfs and proc.
- `src/topology`: fabric domains, LLDP frames, RDMA devices, and the labels
  that a node gets.
- `src/preflight`, `src/telemetry`: the checks, the cycle that runs them, and
  the readiness they come to.
- `src/k8s`: the merge patch of a node, and when it is sent again.
- `src/prober`, `src/probe`: which nodes of a rack are probed, how a probe goes
  from its pods to the annotations, and what its program's output says.
- `src/admin`: the views that the console serves.
- `src/exporter.rs`, `src/config.rs`: where telemetry goes, and the settings.
- `src/text.rs`, `scan.rs`, `number.rs`, `paths.rs`, `sorting.rs`,
  `textmap.rs`, `time.rs`, `graph.rs`, `hashing.rs`, `json.rs`: what the others
  are built from.
- `app`: the programs `daemon`, `prober`, `probe` and `admin`.

Each function's contract says what it returns or changes. The public proof
functions whose names start with `law_` state what holds of several functions
together. Floating point stays in `app`: the library carries a measurement as a
fraction of integers, and a figure of the probe as the text it was printed in.
