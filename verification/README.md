# mviz

The verified core of a robot data visualizer, written in Verus.

- `src/` is the library. Every function in it has a contract that Verus
  proves: the parsers of recorded sensor messages (point clouds, IMU, GPS,
  transforms), the frame tree and transform buffer with their laws
  (`frame_laws`, `transform_laws`), the dataflow descriptions and the graph
  they make, the message protocol, the bridge's decisions for each input, the
  summary of a recorded bag, and the state of the displays and panels.
  Calls into the standard library and into `serde_yaml` stand behind small
  trusted wrappers whose doc comments say what is assumed of them.
- `tests/` runs the library on concrete inputs.
- `app/` is a small command-line front end: it reads files, converts the
  library's types for `serde`, and prints.
