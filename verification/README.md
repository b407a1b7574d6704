# kizzasi

Streaming inference and signal I/O, with the logic verified by Verus.

- `src/` is the library. Its functions state what they return or change, and
  Verus proves it.
  - `inference/`: the engine with its context and states, batches by priority,
    speculative decoding, streaming chunks, model versions and hot swaps,
    adapters of low rank, compression of weights, reduced precision, buffers
    that are used again, and the requests and answers of the four adapters
    (gRPC, MQTT, REST, WebSocket).
  - `io/`: ring buffers, recordings, compressed signals, WAV and CSV files,
    audio frames, video frames with filters and optical flow, messages of MQTT,
    OSC, ROS 2, WebSocket and ZeroMQ, and the signal processing in `io/signal/`.
  - `number`, `arith`, `samples`, `matrix`, `names`, `text`, `wire`, `time`:
    what the two share.
- `tests/` runs the library, with the arithmetic of the machine.
- `app/` connects it to devices, files, sockets and brokers, and supplies the
  arithmetic.

## Numbers

A sample is held as its IEEE-754 bit pattern (`number::Single`,
`number::Double`). Comparing, clamping, negating and taking the absolute value
are defined on the pattern and proved. A sum, a product or a sine comes from an
implementation of a trait such as `arith::Arithmetic`; the traits promise
nothing of their results, and the contracts say which operation was applied to
which numbers and in which order.

## Trusted items

The calls into `hound`, `csv`, `bytes`, `chrono`, `rosc`, `scirs2_core` (for
its `ndarray`) and the few functions of the standard library that Verus has no
specification for stand behind functions marked `external_body`, in
`io/file.rs`, `io/osc.rs`, `io/zeromq.rs`, `io/ros2.rs`, `matrix.rs`, `text.rs`
and `time.rs`. The comment above each says what is taken for granted. Of the
clock nothing is, and of error texts only those about the shape of a table.
