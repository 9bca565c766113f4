# edgebot

Sensor buffers, path planning, deployment planning, licensing and runtime
bookkeeping for edge robotics, written in Verus with their contracts proved.

- `src/` is the verified library:
  - `buffer`, `camera`, `lidar`, `ros2`: fixed-capacity buffers, camera images
    and LiDAR point records, and their conversion from ROS2 messages.
  - `grid`, `table`, `task`: the occupancy grid, A* search (proved to return a
    shortest path, or to fail only when the goal is unreachable), and the
    integer side of decoding YOLO output.
  - `compile`, `deploy`, `cli`: cross-compilation targets and arguments,
    hardware detection from system information, deployment plans.
  - `licensing`: license key decoding, signature and expiry checks, and key
    assembly, over base64, ed25519-dalek and time.
  - `wasm`, `jobs`, `services`, `dashboard`, `webots`, `inference`: model
    stores of the WASM runtime, the simulation server's jobs and
    configuration, client endpoints, dashboard decisions, Webots codes and
    model-format selection.
- The simulation server's jobs (`jobs::JobStore`) are a `Vec` with distinct
  ids, viewed as a map from id to job: a `HashMap` keyed by `String` can be
  called from Verus, but nothing about its contents can be proved through
  such keys. A* keeps its open list in a `Vec` for a similar reason: std's
  `BinaryHeap` has an allocator parameter, so Verus cannot declare it.
- `app/` is the `edgebot` command line: it reads files and the environment,
  runs `cross` and SSH, and keeps the floating-point helpers.
- `tests/` exercises the library on concrete values.
