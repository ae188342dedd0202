# seaf-loop

The verified core of a loop runner's evaluation and inspection library. Each function
states in its contract what it returns, and Verus proves the code against it.

- `src/` — the library: names and paths of evaluation attempts and their
  inventory (`evaluation_attempt`), storage commitments (`evaluation_storage`), the
  evaluation engine's command planning and log sanitizing (`eval_engine`), evaluation
  plans and the identity checks made before each spawn (`eval_plan`), evaluation
  reports (`eval_report`), final evaluation authority checks, run inspection (`inspect`,
  `inspect_steps`, `inspect_run`, `provider_attempts`), migration planning, tree
  digests and source binding (`migration`), the changed-artifact check of a migrated tree
  (`migrated_artifacts`), the migration transaction as a state machine
  (`migration_transaction`), the byte and digest bindings of run authentication
  (`run_authentication`), the assembled run inspection (`loop_inspection`), schema upgrades and digest rewrites of JSON
  artifacts (`schema_upgrade`, `digest_rewrite`), the artifact path rule
  (`immutable_artifact`), patch parsing and path policy (`patch`, `policy`), operator
  evidence screening, and text, number and digest helpers.
- `tests/` — tests of the library on concrete values.
- `app/` — filesystem reads, command execution and serde copies of the report types,
  outside Verus.
