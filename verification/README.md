# devbind

A local development reverse proxy for `.test` domains: it maps each domain to
a local port, answers DNS for every `.test` name, terminates TLS with
certificates signed by a machine-local root CA, and installs that CA into the
system and browser trust stores.

- `src/` is the library, written in Verus: route configuration, the DNS wire
  format, hosts-file rewriting, request routing, framework detection,
  certificate management (rcgen, rustls and dashmap behind trusted wrappers),
  trust-store scripts, systemd service units and the CLI's text output. Each
  public function carries a contract; the `law_*` proof functions state
  properties that relate several operations.
- `tests/` exercises the library on concrete values.
- `app/` is the `devbind` command: argument parsing, files, sockets,
  processes and privilege escalation.
