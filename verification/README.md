# LocalDocks core

The decision-making core of LocalDocks, a Windows dashboard of the services,
processes and listening ports on a developer's machine, written in Verus: every
function in `src/` carries a contract that Verus proves.

## Layout

- `src/` — the verified library.
  - `logic/` — the pure rules: process rows and CPU shares (`process`, `cpu`),
    port rows and address rendering (`ports`), the service join (`service`),
    the Developer classifier and its registry (`classify`, `registry`), process
    identities (`identity`), URL validation (`url`), the update policy
    (`release`) and machine-wide load (`telemetry`).
  - `platform/windows/` — the decisions and buffer decoding around the Win32
    calls: identity verification and what a refused action answers, wide-string
    and `FILETIME` decoding, GPU counter instance names.
  - `sampler` — one tick: state in, scan in, snapshot out.
  - `updates` — what an update check comes to, whatever the feed answered.
  - `time`, `timestamps`, `text`, `order`, `assoc` — calendar arithmetic and
    ISO-8601, the order of rendered timestamps, character and UTF-16 handling,
    a verified stable sort, a small map keyed by text.
- `tests/` — the library exercised from outside on concrete values.
- `app/` — the Tauri shell: the sampling thread, the Win32 calls, serialisable
  copies of the records, IPC commands and the update channel. It targets
  Windows and is not verified.

The laws the library states about itself are public proof functions named
`law_*`, beside the functions they speak of.
