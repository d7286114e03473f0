# roxy

The decision logic of a small TCP/UDP forwarding proxy, verified with Verus.

- `src/text.rs`: decimal numbers and separated fields, on characters.
- `src/addr.rs`: IPv4 and socket addresses, their dotted-decimal form.
- `src/rules.rs`: forwarding rules and how they print.
- `src/cli.rs`: reading rules from the command line; host names are resolved
  by the caller, one lookup at a time, as parsing asks for them.
- `src/forwarding.rs`: rule matching, the TCP relay and UDP routing steps, and
  what a worker answers.
- `src/pool.rs`: choosing an idle worker.
- `app/`: the program around the library: sockets, threads, DNS, the clock.
