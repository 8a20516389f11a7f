# polymarket_arb

Paper-trading monitor for Polymarket's five-minute BTC "Up or Down"
markets. It buys the Up side on a sharp one-minute BTC drop inside the
T-4:00 to T-1:30 window, then the Down side on the bounce while the pair
still costs at most 0.90 USDC, so that a completed pair pays out more than
it cost.

- `src/` is the verified library (Verus): the entry strategy and its
  positions (`strategy`), market snapshots and trades (`types`), the CLOB
  best-price table (`clob_ws`), the BTC price history (`websocket`), Gamma
  market listings and slugs (`gamma_api`), report arithmetic (`database`),
  decimal text (`decimal`, `text`), and the calls into chrono, uuid and
  serde_json (`adapters`).
- `app/` is the program around it: HTTP, websockets, SQLite, logging,
  and the conversion of floating-point feed values to the library's
  fixed-point millionths.
- `tests/` runs the library on concrete values.

Amounts are integers in millionths (0.25 USDC is `250_000`); instants are
microseconds since the Unix epoch.
