# zsnap

Policy-driven ZFS snapshots, verified with [Verus](https://github.com/verus-lang/verus).

A TOML configuration names datasets and how many snapshots of each class to keep.
From it, and from the state of the pools, zsnap plans which snapshots to take and
which to destroy, carries the plan out pool by pool, keeps a summary of the pools
for reporting, and tells webhooks how a run went. It can also turn a `sanoid.conf`
into a configuration of its own.

## Layout

`src/` is the library. It computes and decides; it does no input or output. Every
function states what it returns, and Verus proves it.

| Modules | What they hold |
|---|---|
| `text`, `integer`, `names`, `sort`, `error` | Strings as sequences of characters, numbers in them, maps and sets in the order of their names, stable sorting, errors with their causes |
| `document`, `shorthand`, `schema`, `complaint`, `config`, `policy`, `webhook`, `validity`, `strictness` | Configuration: parsing, friendly headers, settings and policies, what makes a configuration valid |
| `calendar`, `schedule`, `timing` | Civil time, and when a class of snapshots is due in a time zone |
| `model`, `naming`, `zfs`, `listing` | Classes of snapshots, their names, and the inventory of the pools |
| `planner`, `safety`, `recognition` | Which snapshots to take and to destroy, what no plan does, and that its names are recognised again |
| `executor`, `conduct` | From a plan to the commands of a pool, and what every run keeps |
| `status` | The status cache |
| `environment`, `notification`, `payload`, `discretion` | Webhook messages, retries, and keeping URLs out of what is shown |
| `sanoid`, `rendering`, `migration`, `fidelity` | Reading `sanoid.conf` and writing the configuration that it amounts to |
| `command` | What each subcommand decides and prints |

Proof functions whose names start with `law_` state properties of the library as a
whole: that a plan destroys only what retention lets go, that a failed snapshot
stops the pruning of its pool, that a valid configuration can always be planned.

`app/` is the program around the library: arguments, files, locks, processes,
threads and HTTP. It runs the commands that the library asks for and hands the
outcomes back.

`tests/` runs the library on concrete values.

## What is taken on trust

The library calls `chrono`, `toml`, `serde_json`, the `http` of `ureq`, and a few
functions of the standard library for their wording, through small wrappers marked
`external_body`, and says above each what it claims of the call. The time zone of the machine is the one thing with no fixed answer: planning
records each answer that it gives, and is proved right for every time zone that
gives those answers.
