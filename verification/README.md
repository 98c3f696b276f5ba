# basset_hound

A hidden-process detector for Linux: it compares what several sources say
about running processes (the `/proc` listing, `ps`, direct `/proc/<pid>`
probes, a syscall brute force, a kernel module over netlink and an eBPF task
iterator) and reports the PIDs that low-level sources see but userland
listings miss.

- `src/` is the verified library.
  - `text`: whitespace, `trim`, line and word splitting, `i32` parsing.
  - `listing`: the `PID<TAB>NAME` listings, `ps` output, `/proc` entry
    names and `pid_max`.
  - `detector`: the scan results, the discrepancy analysis and the report,
    with the laws the analysis obeys.
  - `audit`: syscall probes of a PID and the deep audit of a flagged PID.
  - `netlink`: how replies from the kernel module are read.
- `app/` is the command-line program: argument handling, file and process
  I/O, the netlink socket and the eBPF loader.
- `tests/` runs the library on concrete inputs.
