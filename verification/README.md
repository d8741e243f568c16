# tui_bot

A long-only desk on Binance USDT-M futures (TestNet by default): five strategies, risk
gates, order sizing, the order sequences of a live session, a simulator, reports and the
screens of a terminal program. The logic is a Verus library: every executable function
carries a contract, and the laws of the desk are proved beside the functions they are
about.

## Layout

- `src/` is the library. It works on plain values; instants are milliseconds, amounts are
  decimals (`dec`), and a `None` around a result says that a figure left the range of
  decimals or is too long to be shown.
  - `dec`, `text`, `symbols`, `json`, `sessions`, `money`: numbers, texts, maps keyed by a
    symbol, documents, hours and windows.
  - `indicators`, `ranking`, `regime`, `setup_score`: what is read off the market.
  - `momentum`, `scalp`, `trend`, `continuation`: the strategies.
  - `engine`, `desk_schedule`, `desk_orchestrator`, `dayrisk`: one tick of the desk.
  - `exchange`, `wire`, `live`, `flatten`, `snapshot`: the exchange. A composite call is
    stated for every way in which the exchange may answer.
  - `journal`, `openmeta`, `errorlog`, `report`: what is written down, and read back.
  - `render`, `view`, `monitor`, `telegram`, `signals`: what is shown, sent and sounded.
  - `sim`, `backtest`: walks over past candles.
  - `config`, `keys`, `pidlock`, `poll`, `tui`, `app`: a session and its settings.
- `tests/` run the library with the outside crates linked.
- `app/` is the program: the command line, files, HTTP, threads, the terminal, and what is
  computed in floating point.

Outside crates are called through wrappers whose contracts are trusted: `rust_decimal` in
`dec`, `chrono` in `sessions`, `serde_json` in `json`, `regex` in `errors`, `hmac`, `sha2` and
`hex` in `signing`.
