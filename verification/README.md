# aibroker

A broker for LLM APIs. It spreads requests over several API keys, keeps each key
inside its quota of requests per minute, and rests a key that its provider has
refused: for the configured cooldown after the first failure, five times as long
after the second, twenty-five times from the third on. A success does not shorten
the next rest; only the clearing of a cooldown makes the next failure a first one.

A request is counted against the key that it is sent with, and against no other. A
window of a minute begins when a request first looks at the key after the last window
is over. The strategies choose among the keys that may serve a request: in rotation, by
a weighted draw, the one used least often, or the one whose last response was fastest (a
key that has not been measured goes first).

The decisions stand in the library, `src/`, and are verified with Verus. The
program around it, `app/`, reads the configuration, speaks HTTP, and does what the
library decides.

| Module | What it holds |
|--------|---------------|
| `clock` | time as plain numbers, and the pseudo-random draw |
| `text` | small functions on text |
| `error` | the errors and their messages |
| `config` | the configuration, and the load balancer that follows from it |
| `load_balancer::key_info` | one key: quota, cooldown, backoff, response time |
| `load_balancer::key_pool` | the keys of one provider, and the strategies |
| `load_balancer` | the pools of all providers |
| `proxy::upstream` | endpoints, credentials, the reading of a status |
| `proxy::dns_cache` | resolved addresses |
| `proxy::pingora_backend` | the phases of the Pingora proxy |
| `proxy::reqwest_backend` | the Reqwest proxy |
| `*_laws` | what holds of all keys, pools, balancers and proxies |

## Time

A function that needs the clock comes in two forms. The one whose name ends in
`_at` takes the readings as arguments, and its contract says exactly what it does.
The other reads the clock, and its contract says that the outcome is the exact one
for some reading. Times are nanoseconds since the clock in question was started;
every key has a clock of its own, and keeps it. Response times are measured by the
program and handed in.

## Sharing

Nothing in the library is shared between threads: what changes state takes
`&mut self`. The program keeps each proxy behind one lock. A key that is handed out is
the pool's own: what is done to it is done to the pool.

## What is trusted

The standard library's clocks (`clock`), `str::to_lowercase` (`text`) and the `url`
crate's parser (`proxy::upstream`) are used through declarations whose contracts
are not proved; their doc comments say what is claimed.
