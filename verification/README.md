# choruz-api-gateway

The decisions of the Choruz API gateway, written in Verus and proved
against their contracts: request validation, SSH configuration and
tunnels, attachments, cron schedules, remote control keys, runtime
hosts and bindings, workspace session imports, browser automation,
evaluation, learning reviews and decision programs.

## Layout

- `src/` is the verified library. Each module holds one area of the
  gateway; its public functions state in `ensures` what they return,
  and its `law_*` proof functions state what holds across calls.
  Work that alternates with the outside world (the SSH include walk,
  a one-click connect, an import, a learning review, a program trial)
  is a step function from state and event to the next state and
  action, so that every decision is verified and only the I/O is left
  to the caller.
- Calls into outside crates (base64, infer, chrono, url, sha2, hmac,
  hkdf, aes-gcm, rand, hex, uuid) stand behind small trusted wrappers
  whose doc comments say what is believed of them.
- `tests/` runs the library on concrete values.
- `app/` is the thin layer around it: environment and file access,
  serde conversions, the processes of an SSH connect, and the one
  floating-point quota check.
