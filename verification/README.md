# panopticon

The backstage server of Panopticon: it serves the single-page front end
(read at run time from the front-end build, `frontend/dist`, and the
example cards from `example/`),
forwards LLM API calls to the upstream that the `x-upstream-base-url` header
names (with SSRF protection and a check that an untrusted upstream really is
an LLM API), and hosts GatCHPT, a fake upstream that thinks at length and
then refuses every request.

## Layout

- `src/` — the library, verified with Verus:
  - `text` — string helpers and their specifications (trimming, case,
    substrings, joining);
  - `ip` — IP address text (the standard library's grammar), loopback and
    non-public address ranges;
  - `config` — the configuration, its defaults, its normal form, trusted
    upstreams and header rules;
  - `json` — parsed JSON documents and the lookups the library makes in them;
  - `proxy` — traversal checks, header filtering, the static screening of an
    upstream URL, the check of resolved addresses and of a `/v1/models` body;
  - `cache` — the memory of verified upstreams with its time to live;
  - `upstream` — the order of the checks of an upstream (screening, memory,
    name resolution, the `/v1/models` probe) as a step function from state
    and event to next state and action;
  - `gatchpt` — GatCHPT's reading of a request, its tokenizer, the last
    user message, the text of its thoughts, the refusal, and the exact
    events of a complete or streamed answer;
  - `cli` — the command line, port numbers and the start-up banner;
  - `assets` — the security headers of every response.
- `app/` — the server around it: HTTP routing (axum), the upstream client
  (reqwest), name resolution, TLS, TOML files, random choices and timing.
- `tests/` — tests of the library on concrete values.
