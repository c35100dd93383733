# gateway

A small AI API gateway: it sits between applications and upstream model
providers (OpenAI, Anthropic) and adds gateway keys, rate limits, budgets,
a response cache, retries and fallback.

The library in `src/` holds the gateway's rules, each with a contract proved
by Verus:

- `config` — the configuration, its defaults, and the checks made on load.
- `flow` — the steps of one proxied request: budget, rate limits, cache read,
  forwarding, relaying, and what each step's outcome leads to.
- `executor`, `fallback`, `retry` — the provider chain: retries with backoff,
  fallback triggers, which result ends a request.
- `proxy`, `headers`, `providers` — upstream URL and headers, provider auth,
  what is kept of bodies for the logs and the cache.
- `cache`, `fingerprint`, `json` — cache directives, the canonical request
  fingerprint, stored responses.
- `ratelimit`, `budget`, `pricing`, `tokens` — limit scopes and verdicts,
  budget targets, price lookup, token usage in responses.
- `security`, `auth`, `seed`, `admin`, `reload`, `runtime` — gateway keys,
  credentials, admin sessions, seeded keys, admin requests, reload warnings,
  start-up checks.
- `preview`, `text`, `error` — log previews, text helpers, error kinds.

`app/` is the program around it: the command line, the YAML file, JSON
parsing, money arithmetic (floating point), the clock and the backoff jitter,
and the driver that performs the actions the library decides. The library
itself draws the random gateway keys, nonces and request ids, through calls
whose contracts say only what holds of every outcome. `tests/` exercises the
library with concrete values.
