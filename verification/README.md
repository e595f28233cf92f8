# contract_deployer

Deterministic deployment of the Uniswap V2, V3 and V4 contract suites through
the CREATE2 deployment proxy at `0x4e59b44847b379578588920cA78FbF26c0B4956C`.

`src/` is a Verus-verified library:

- `create2` — CREATE2 address derivation, the deployment transaction's input,
  and the idempotent deployment as a state machine (`Create2Deployment::step`),
  with proofs that a deployment sends at most one transaction, reports
  success only with its computed address after seeing code there, and, run
  again on a chain unchanged since it succeeded, reports that address at once
  without a transaction (`lemma_create2_rerun_on_unchanged_chain`, and per suite
  in `plan` and the `uniswap_*` modules).
- `helpers` — library linking of bytecode text (`link_libraries`), deployment
  salts (`get_salt`, `generate_random_salt`), with proofs about linking.
- `uniswap_v2`, `uniswap_v3`, `uniswap_v4` — each suite's deployment, one
  contract at a time: which contract comes next, with which salt and init code.
- `config` — the endpoint and key read from the environment.
- `keccak`, `hex`, `abi`, `bytes`, `plan` — the hashing, hexadecimal and ABI
  encodings used above (the first three call `alloy`), and shared pieces.

`app/` is the program: it reads the environment and the contract artifacts
(`ARTIFACTS_DIR`, default `artifacts/`), talks to the node and prints the
addresses. `tests/` exercises the library.
