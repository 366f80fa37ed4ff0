# ic_replica_core

Verified decision logic of several Internet Computer replica components,
written in Verus.

- `src/` is the verified library, one module per component: the Thrift
  schema of an ingress message (`thrift_ingress`), block making
  (`block_maker`), interactive DKG transcript checks (`idkg_transcript`),
  registry crypto invariants (`registry_crypto`), system API charging
  (`system_api_meter`), the Bitcoin agent's upgrade state
  (`btc_agent_state`), and a few endpoint and configuration rules.
- `tests/` runs the library on concrete values.
- `app/` drives what the library cannot: a Thrift protocol, and the serde
  and clap forms of the configuration types.
