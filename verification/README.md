# sn2_validator

The logic of a subnet validator, verified with Verus, and the program around it.

The validator hands proof requests to miners, checks their proofs, keeps scores and
capacities, and runs sliced models for customers who reach it over a relay.

- `src/` is the library. Every function states what it returns or changes; what is
  promised of several functions together stands beside them as a `pub proof fn`.
- `tests/` runs the library on given values.
- `app/` is the program: command line, chain, transports, files, and the numeric
  formulas, which are floating point.

Where the library starts:

| Subject | Modules |
| --- | --- |
| Who gets which request | `dispatch`, `dispatch_pass`, `work`, `rounds`, `request_pipeline` |
| What became of a request | `response`, `verification`, `results`, `response_processor` |
| Runs of sliced models | `incremental_runner`, `planning`, `dslice`, `staging`, `stepwise`, `completion`, `submission`, `consistency` |
| What is known of miners | `performance`, `restoring`, `capacity`, `units`, `delivery`, `scoring`, `rsv`, `rotation`, `address` |
| Talking to others | `relay`, `wire`, `miner_client`, `dsperse_events`, `stats_reporter`, `proof_uploader` |
| Keeping going | `startup`, `maintenance`, `meminfo`, `simulator`, `pow_manager` |
| Groundwork | `keyed`, `timed`, `fifo`, `seqs`, `text`, `json`, `digest`, `tensor`, `chance`, `types` |

Times are counted in ticks of a clock that only goes forward. Numbers with a fraction
are carried as the bits of an `f64`; where they are only compared they are not negative,
so that their bits are in the same order.
