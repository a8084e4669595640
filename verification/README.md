# rsched

Watches the Linux scheduler: how long tasks wait for a CPU, how long they run and
sleep, how often they migrate, and what the hardware counters say meanwhile. Programs on
the kernel side fill tables; this program empties them and prints what they hold.

`src/` is the library, written and proved in Verus. What each function does is stated in
its contract, and the laws that hold across functions are the public proof functions
whose names start with `law_`.

| module | what it holds |
|---|---|
| `hist` | histograms of delays, and the slot of a delay |
| `records` | the records of the kernel side |
| `collector` | emptying a table, key by key, into a map of plain values |
| `groups` | the metric groups that a list of names stands for |
| `events` | the counters that a list of events needs |
| `pattern` | name patterns |
| `cgroup` | the control groups that a list of patterns stands for |
| `perf` | opening counters and handing them to the kernel side, step by step |
| `trace` | the points that are traced, and the programs that trace them |
| `listing` | the list of hardware events |
| `session` | the options of a run, and what follows from them |
| `run_loop` | when to sleep, collect, show and stop |
| `text` | plain text |

Where a course of actions depends on what the system answers, the library is a state
machine: it says what to do next and is told what came of it. `app/` does what it is told:
system calls, eBPF, the clock, the command line, and printing.

The answers of the `regex` crate, of `num_cpus` and of `String::from_utf8_lossy` come in
through small functions; what their contracts claim of those answers is believed, not
proved.
