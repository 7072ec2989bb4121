# pit_box

The core of a local WebAssembly execution engine, verified with Verus.

An artifact is prepared once and executed many times. Each execution has a guest
of its own, with its own arguments, environment, outputs and limits. Independent
executions are scheduled over a fixed number of lanes; HTTP components are
compiled once and restored from a cache.

## Layout

- `src/` is the library. Every function in it is verified, but for those that
  call other crates (see below).
  - `scheduler`, `lanes`: batches, the workers of their lanes, and the pool that
    single executions share.
  - `artifact`, `request`, `outcome`: what is executed, what is asked, and how
    an execution ends.
  - `guest`, `runtime`, `node`: the engine, prepared artifacts and executions.
  - `cache`, `preparation`: the cache of compiled artifacts and the way of an
    HTTP component through it.
  - `http`, `paddock`, `signature`: what HTTP guests are asked, what they may
    reach, and whether a request is signed.
  - `garage`, `bench`: remote executions, and measurements.
  - `text`, `order`, `names`, `path`, `number`, `calendar`, `clock`, `digest`,
    `failure`: what the rest is built on.
- `tests/` runs the library, guests included.
- `app/` is the host around it: threads, files, sockets and the command line.

## What is trusted

The contracts of the functions that call `wasmtime`, `wasmtime-wasi`,
`wasmparser`, `sha2`, `time`, `http`, `serde_json` and `anyhow`, and of a few
functions of the standard library. Each says in its comment what it claims of the
function that it calls.
