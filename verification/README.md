# spark-host

SPARK is a component runtime: domain logic ships as WebAssembly components that fulfil
a WIT contract (`spark:runtime`, `spark:ui`, `spark:capability`, `spark:store`), and a
host loads and calls them in a sandbox.

This crate is the verified core of that host, written in Verus:

- `plugin`, `luhn`, `idcard`, `rmb`, `samples`: the plugin contract's records and the
  logic of the sample plugins (bank-card Luhn check and brand, Chinese ID-card check,
  Renminbi amounts in capital numerals, upper-case, reverse, the resource-bomb sample),
  each with the exact result it returns, declared errors included.
- `pipeline`: the plugin files of a plugin directory (`.wasm`, sorted), plugins by
  registered name, and the plugin pipeline as a state machine
  (each output feeds the next step; the first failure stops it, naming the step).
- `agent`, `agent_loop`: the agent loop's vocabulary, the local keyword predictor and
  the loop itself as a state machine (tool registration, call numbering, truncation of
  tool output, the step limit).
- `deepseek`: what the DeepSeek predictor sends (messages, function-calling tools,
  endpoint, header) and how it reads a reply.
- `store`, `kv`: the storage capability, the host's backend with its namespace policy,
  delegating providers and the store-backed counter.
- `text`, `decimal`, `json`: character-level text operations, decimal numbers and the
  calls into `serde_json`.

Laws that span functions are public proof functions named `law_*`.

`app/` is the command-line host around the library: wasmtime sandboxing (epoch CPU
budget, memory limits), plugin discovery on disk, the HTTP exchange with DeepSeek and
the drivers of the agent loop and the capability.
