# halo_api

An unofficial Halo Infinite API library whose decoding and decision logic is
specified and proved with Verus.

## Layout

- `src/` — the verified library.
  - `theater/` — offline Theater film decoding: bounded bit reads (`bits`), packet
    framing (`packets`), the component registry, roster and player indices, version-41
    footer highlights (`summary`) and their comparison with match statistics
    (`validation`), combat, motion, input, appearance, velocity and projectile record
    readers, and the film assembly (`decode`).
  - `clients/hi/` — response models and their pure helpers (asset URLs, emblem
    resolution, CSR rank icons, service-record filters, CSR season selection), film
    chunk framing and decompression, match-history paging and per-origin request pacing.
  - `constants/`, `endpoints/`, `models/` — playlist ids, service base URLs and CSR models.
  - `text.rs` — text helpers with their specifications (UTF-16, trimming, decimal
    formatting and parsing, URL joining).
- `tests/` — tests of the library on concrete inputs.
- `app/` — the HTTP client (`reqwest`, `tokio`), JSON wire formats (`serde`, `chrono`)
  converted to and from the library's types, and the floating-point conversions of
  velocities and map coordinates.
