# corsair

The core of a broker daemon for market making in futures options, written and
proved in Verus.

- `src/` is the library. It holds the daemon's decisions, its data structures
  and its wire formats, with contracts that Verus proves. (Reading the clock
  has none: any time can come back.)
  - `requests`, `place_template`, `codec`, `client`, `messages`, `types`:
    the gateway's protocol.
  - `broker`, `broker_calls`, `convert`, `table`: the broker's state, what each
    message does to it, and what each call sends and returns.
  - `market_data`, `subscriptions`, `vol_surface`: the option book, which
    market data to subscribe to, which quotes a surface is fitted to.
  - `hedge`, `portfolio`, `tasks`, `runtime`, `config`: hedging, positions,
    what happens on each event and timer, starting up, settings.
  - `ipc`, `ring`, `jsonl`, `notify`, `latency`, `cpu_affinity`: what passes to
    and from the trader, and the daemon's own records.
  - `double`, `decimal_text`, `rounding`, `money`, `dates`, `text`, `time`:
    numbers, dates and texts.
- `app/` is the daemon around it: sockets, files, shared memory, threads,
  timers, and floating point.
- `tests/` runs the library.

Prices and deltas are in billionths; a number that only travels is kept as the
bit pattern of a double. Times come in as arguments.
