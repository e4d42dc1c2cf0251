# rdmatop

`htop` for RDMA traffic: a terminal monitor for RDMA ports, NVLink and XGMI,
with a CSV recorder and a Perfetto trace recorder.

- `src/` is the library, proved with Verus: netlink messages and what they say,
  counter rates, GPU link readings, recording and capture, and the state, the
  keys and the content of the terminal interface. Rates are kept as exact
  fractions and times as nanoseconds.
- `app/` is the program: sockets, `/proc` and `/sys`, the GPU libraries, threads,
  the C interface, the terminal, and every figure that floating point writes.
- `tests/` runs the library.

## Usage

```
rdmatop
rdmatop --format csv --output PATH --device NAME [--port N]
        [--interval MS] [--duration SECONDS]
```

Press `h` for the keys and `r` to start or stop a Perfetto recording.
