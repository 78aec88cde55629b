# dwara_core

The core of the dwara API gateway: the decisions a gateway makes, written in
Verus and proved against their contracts.

- `src/` is the verified library. Each module states what it computes over
  mathematical models (sequences, maps, sets, integers) and proves its code
  against them. Functions named `law_*` state what holds across functions.
- `app/` connects the library to sockets, clocks, files, Redis, Vault,
  Kubernetes, QUIC and Prometheus.
- `tests/` runs the library on concrete values.

| Module | What it decides |
| --- | --- |
| `k8s_gateway` | Gateway API and Ingress resources into a gateway configuration; reconciliation and statuses |
| `extensions::rate_limiter` | GCRA buckets over several windows, bounded keyed state, the policy engine |
| `extensions::redis_*` | the decisions around the Redis scripts: limits, quotas, two-tier cache |
| `extensions` | caches, nonces, secrets, Vault leases, licences, config convergence, analytics |
| `dataplane` | WAF rules, WebSocket policing, version negotiation, the HTTP/3 connection pool |
| `events` | event bus, webhook delivery, analytics stream |
| `health` | passive health and ejection |
| `openapi` | response validation |
| `mcp` | tools, permissions, argument checks |
| `lifecycle` | journeys, developer portal, profiles |
| `mesh` | SPIFFE identities, sidecar configuration |
| `observability` | request identifiers, access sampling, metric families |

Calls into other crates stand behind small trusted functions. Each of them
names the function it calls and says what its contract claims of it.
