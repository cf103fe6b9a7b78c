# hades_kat_bot

A trading bot for pump.fun tokens on Solana whose decisions are verified with Verus.

The bot watches up to four feeds (Birdeye and GeckoTerminal trending lists, the buys of chosen
wallets, new launches), enriches what it finds with DexScreener's figures, lets seven strategies
decide what to buy, and watches every open position until an exit applies. PumpPortal builds the
transactions; the bot signs them locally and sends them through its own RPC endpoint.

## Layout

- `src/` is the library. Everything that decides or computes stands here, with a contract:
  prices, pool discovery, filters, strategies, position and exit rules, slippage, scores, metrics,
  the watchlist, transaction signing. It makes no request of its own. It takes what the chain and
  the web answered as plain values and says what to do next.
- `app/` is the program around it: command line, files, HTTP, WebSockets, the event loop, and the
  formatting and reading of floating-point text.
- `tests/` runs the library on concrete values, with the outside crates linked.

## How the library is stated

- Prices, percentages and scores are IEEE 754 binary64 numbers. The library holds them by their
  bits (`binary64::Binary64`) and computes on the bits; each operation is specified as the exact
  result rounded to the nearest number, ties to even (`rounding`). A program converts with
  `f64::to_bits` and `f64::from_bits`.
- A sequence of requests and decisions is a chain of functions: each takes the last reply and
  gives the next request or the outcome (`pricing`, `pools`, `trading`, `tokens`, `rounds`).
- Types have views over `Seq`, `Map` and `Set`, and `ensures` clauses are equations over them.
- Public proof functions named `law_..` state what holds of the library as a whole: that a dry run
  trades nothing, that the stop loss always holds, that slippage never goes beyond 99 and up to
  there rises by ten points with each failure (where binary64 holds the sums exactly, as it does
  for whole bases), that the first failed buy ends its round while failed sales stop nothing,
  that a token is handed on once while it is watched, that a restart keeps the positions, and more.

## What is trusted

Twelve calls into `solana_sdk`, `bincode` and `serde_json` stand behind wrappers whose contracts are
not proved: reading and displaying addresses, program addresses, signatures as text, key pairs and
their signatures, taking transactions apart and putting them together, and looking into JSON
documents. Each wrapper says in its doc comment what is claimed of the outside function.

## The program

`--dry-run` runs everything and trades nothing, `--debug` logs more, `--config` names another
settings file than `config.toml`. The environment, or `.env`, gives `SOLANA_RPC_URL`,
`BIRDEYE_API_KEY`, `DISCORD_WEBHOOK_URL`, `TARGET_WALLETS` and `PUMPPORTAL_API_URL`. The bot takes
custody of the key pair at `wallet_path` and trades real funds: try `--dry-run` first.
