# m0untain

A host firewall whose decisions are proved. The library under `src/` is written in
Verus: what it decides is stated in contracts over mathematical models, and Verus
checks that the code keeps them.

## The library

| Module | What it holds |
| --- | --- |
| `detect` | flood and port-scan detection, temporary blocks, the whitelist, and one verdict per event |
| `metrics`, `pipeline` | time series, top talkers, and what the dashboard shows each second |
| `guard` | the engine at work against a packet filter: enforcement, expiry, manual blocks |
| `programs` | application control: prompts, decisions, rules, the quarantine list |
| `settings` | persistent settings and rules, and the normalisation of state files |
| `service` | the filters that hold from boot on, with default-deny |
| `wfp` | what a packet filter is asked to install, what it reports, and a simulator |
| `active_connections`, `feed` | connection snapshots and what the user sees of connections |
| `ip`, `parse`, `roundtrip` | IP addresses, their text, and reading them back |
| `text`, `apps`, `book`, `ipmap`, `window`, `history`, `rank` | the building blocks |

Laws that span several functions stand as public proof functions, next to the code
they are about or in a `laws` module.

Where the packet filter has a say, a decision is split in two: the first step says
what to ask of it, the second settles the state with its reply. A function that does
both against the `Firewall` trait stands beside them. The trait keeps a ghost log of
all that was asked of it, with its replies, and the contracts say what is added to it.

What is believed without proof is small: `String::push`, `str::to_lowercase`,
`char::is_whitespace` and `String::from_utf16_lossy`, each with a comment that says
what is claimed of it.

## The program

`app/` is ordinary Rust: the state file and the interface as JSON, threads, the
Windows Filtering Platform, the service, and the desktop shell. On other platforms it
runs the simulator and prints events as JSON lines.
