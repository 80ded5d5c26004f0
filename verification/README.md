# agent-vpn

The logic of `vpn`, a command-line tool that gives an agent deterministic,
JSON-first control over WireGuard tunnels: bring them up and down, measure and
compare locations, run commands through them, and keep the host's network
working whatever is interrupted. The logic is written in Rust and verified with
Verus.

## How it is laid out

- `src/` is the library. Nothing in it touches the machine: an operation asks a
  `Session` for what it needs (a command run, a file read, the time) and is a
  function of the replies given so far. Where the replies run out it stops; with
  the next reply it is run again from the start and gets further. Every contract
  says exactly what is asked for and what comes of each reply.
- `app/` is the program: it parses the command line, performs the actions that
  the library asks for, writes and reads JSON, and prints the outcome.
- `tests/` runs the library against a machine held in memory.

The modules of the library:

| module | what it holds |
|--------|---------------|
| `text`, `order` | texts as sequences of characters; sorting, sets and maps of texts |
| `session`, `runner` | the dialogue with the machine |
| `cidr` | IPv4 networks and what is left of the address space without some of them |
| `config`, `settings`, `lint` | tunnel configs, `config.toml`, static checks |
| `status`, `probe`, `diff` | reading `wg show all dump` and `curl`; comparing locations |
| `state`, `lock`, `dns` | journals, the advisory lock, capturing and restoring DNS |
| `backend` | the operations: `up`, `down`, `status`, `probe`, `exec`, `diff`, `lint`, `add`, `split`, `doctor`, `recover`, `verify` |
| `output`, `json`, `error` | reports and errors as text |
| `cli`, the crate root | commands, effective settings, running a command line |
| `trace`, `backend::trace`, `backend::trace_commands` | what each operation may ask for, and that it asks for the same again |
| `laws`, `backend::laws`, `backend::safety`, `backend::up_laws`, `backend::split_laws` | what holds of the tool as a whole |
| `state_laws`, `dns_laws`, `diff_laws` | what holds of journals on a disk, of DNS settings, of comparisons |

## What is proved

Besides what each function returns:

- commands that may change something take the lock before anything else, and
  roll back what was interrupted before they start; the others change nothing;
- a tunnel is brought up only after the journal records it as pending (a probe
  goes on without the record where it cannot be written), a teardown is marked in
  the journal first, and a journal is only ever replaced as a whole;
- whatever was interrupted, reconciling leaves the journal of a tunnel only where
  it is active, live and within its lease; from every other one it takes the tunnel
  down where it is live, sets DNS back to the journal's snapshot and reports it;
- `up` and `down` are idempotent: a second `up` runs nothing but `wg show all dump`;
  `probe`, `diff` and `exec` take down what they brought up, once `wg-quick up` has
  exited with 0;
- a lease is recorded whether or not the tunnel was up already;
- a journal that was written is read back, where decoding gives back what was
  encoded; writing or removing it leaves the journals of other tunnels alone; and
  removing it twice is removing it once;
- restoring DNS never sets a service to one of the tunnel's own servers, and what is
  reported as cleared is exactly what was set;
- `list`, `status` and `current` agree; the lock is exclusive on a machine that
  grants it so;
- the differences between locations depend neither on their order nor on those that
  failed;
- privileged commands never prompt, and only `wg` and `wg-quick` run privileged;
- a generated split tunnel routes exactly what is not kept out, never its own
  endpoint, and holds no shell hooks.

Two things are believed: that `String::push` appends a character, and that what
`serde_json` writes for an object depends on its fields alone.
