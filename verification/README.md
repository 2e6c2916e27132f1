# meridian

The command line for bringing a Meridian deployment up where there is a
terminal, and for working with one that is already running.

```
meridian doctor              # can this machine and this cluster run a deployment?
meridian up                  # install the chart, then open the wizard
meridian up --params f.yaml  # the same, answered from a file
meridian connect <address>   # sign in to a deployment, and keep the session
meridian plugin upload       # build a plugin and put it in the catalogue
```

What the commands decide is a library verified with Verus, in `src/`: how what
was typed is read, what each check means, what an install is told, how the
wizard is answered, how an image is found and pushed, and what is asked for
next at every step. Where a command goes back and forth with the world, it is a
state machine: `ask` says what is needed, `told` takes what came of it, and both
are proved against a specification of every step. What must hold of every
course, such as that an enrolment code never reaches an argument or that a
manifest is named only after its blobs are there, stands beside it as a proof.

`app/` is ordinary Rust around the library: it runs the programs, reads and
writes the files, and sends the requests that the library asks for.

| Module | What it holds |
| --- | --- |
| `arguments`, `commands` | what was typed, and each command step by step |
| `doctor`, `machine` | the checks, and what a program or a server's date says |
| `up` | the install, the params file, the wizard and its cookies |
| `connect`, `sessions` | signing in, and where sessions are kept |
| `catalogue`, `plugin` | a plugin's metadata, image and push, and a new plugin |
| `tree`, `yaml`, `digest` | documents, digests and randomness, from outside crates |
| `text`, `order`, `number`, `percent`, `label`, `path`, `request` | what the rest is made of |

Parsing JSON, TOML and YAML, hashing, base64 and randomness come from
`serde_json`, `toml`, `serde_yaml`, `sha2`, `base64` and `rand`. Each call stands
behind a small function whose contract says what is taken from that crate
without proof.
