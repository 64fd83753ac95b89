# periodic

A user-space scheduler for recurring jobs: jobs are declared in a YAML file, fire at wall-clock
times in their own time zones, and are run with timeouts, retries and captured output.

The rules live in `src/`, a library whose functions state what they do in contracts that Verus
proves. `app/` is the program around it: the command line, files, sockets, signals, processes
and the SQLite database. It hands the library plain values and carries out what comes back.

| Module | What it settles |
| --- | --- |
| `config`, `parse`, `validation`, `diagnostics` | the schema, defaults, what is wrong with a config |
| `config_hash`, `escape` | the fingerprint of what a job does |
| `config_edit`, `config_blocks`, `config_lines`, `config_mutation`, `job_block`, `jobs_edit`, `lines` | changes of the config text that keep the rest of it |
| `config_toggle`, `block_reading` | what a changed text, and a new job's block, hold when they are read again |
| `calendar`, `zone`, `cron`, `scheduler`, `firing`, `occurrence` | when a schedule fires next |
| `schedule_table`, `missed`, `daemon` | what is due and what was missed, how long to sleep, how requests are answered |
| `executor`, `events`, `logs` | attempts and retries, what is recorded of them |
| `ipc`, `json` | messages and their framing |
| `output`, `run_report`, `doctor`, `commands`, `error` | what the commands print and end with |
| `service`, `self_update`, `cli`, `paths`, `state`, `text` | the rest of the surroundings |

Functions marked `#[verifier::external_body]`, and the few `assume_specification` items in
`text`, call other crates or the standard library; their contracts are believed, and each says
what it claims. Statements about several functions at once are the public proof functions whose
names begin with `lemma_`.

The tests under `tests/` run the library with the real crates behind it.
