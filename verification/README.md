# neals

An orchestrator for development environments: the `neals` command talks to the
`nealsd` daemon, which starts each registered project in a network namespace of
its own, leases ports on the host for its services and serves them under
`<service>.<project>.localhost`.

- `src/` is the library. All of its logic is verified with Verus: the reading
  of `devenv.nix`, the registry, the messages between the command and the
  daemon, the leasing and binding of ports, the steps by which a project comes
  up and goes down, and the configuration of the reverse proxy. Calls into
  other crates stand behind small trusted functions in `nix`, `json`, `style`
  and `text`.
- `tests/` runs the library on concrete values.
- `app/` is the program around it: arguments, files, sockets, processes and
  the terminal.

What holds of the library as a whole is stated by public proof functions beside
the code they speak of; those on ports are gathered in `ledger`.
