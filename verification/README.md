# jampgame_proxy

A game-module proxy for the 2003 Jedi Academy dedicated server: the engine
loads it in place of `jampgamei386.so`, it loads the pristine module
(`jampgame_original.so`), forwards everything to it, and adds security
hardening and optional features (net status table, end-of-game statistics,
anti HP teller, minimum jump time, round-start team lock, per-team-size limit
rules, parallel TFFA matches).

## Layout

- `src/` — the verified library (Verus). Every decision the proxy takes is
  here, with its contract: the name and string sanitisers (`utils`, `text`),
  the client command and userinfo filters (`shared_api`), the engine request
  filters and download checks (`hooks::engine_sv`, `hooks::compat`), the
  statistics accounting (`hooks::game`), the net-status accounting and table
  (`hooks::netstatus`), the i386 instruction-length decoder and detour byte
  layouts (`patch`), the team lock (`teamlock`), the limit rules (`rules`),
  the TFFA match bookkeeping and per-viewer rewrites (`tffa`), and the
  engine/game address tables (`engine`, `jampgame`, `sdk`).
- `app/` — the shared object around it: the exported `dllEntry`/`vmMain`,
  the syscall trap forwarder, loading the pristine module, engine and game
  memory access, page protection and detour installation, and the few
  floating-point computations (stats ratios, the timenudge estimate).
- `tests/` — the library's tests.

Laws the library proves are public proof functions named `law_*`.
