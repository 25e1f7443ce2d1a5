# nylon

The decision-making core of the Nylon proxy, written in Verus and proved
against its contracts: configuration merging and validation, route tables,
load-balancer plans, the template language of plugin payloads, the plugin
session protocol (methods, WebSocket frames, messaging), WebSocket rooms, TLS
certificate bookkeeping and the ACME client's pacing and file layout.

## Layout

- `src/` — the verified library.
  - `config/` — runtime and proxy configuration: merging the files of a
    configuration directory and the checks a configuration must pass.
  - `types/` — the data the proxy passes around: JSON values, template
    expressions and their evaluation, request context, routes, services.
  - `store/` — the shared stores: a keyed store, the route table (paths
    matched by `matchit`), upstream plans with an LRU lookup cache (`lru`),
    TLS certificates by domain, WebSocket connections and rooms.
  - `plugin/` — what each method a plugin invokes calls for, the WebSocket
    frames of a session, header modifiers, messaging plugins and the cache of
    encoded header lists (a `dashmap` map).
  - `messaging/` — options, retry policy and wire messages of the messaging
    (NATS) client.
  - `tls/` — ACME request pacing, certificate files and chains, expiry, metrics.
  - `text.rs`, `text_map.rs`, `assoc.rs` — text helpers and maps kept as lists
    of pairs, with their lemmas.
- `tests/` — tests that run the compiled library.
- `app/` — what surrounds the library: the command line (clap), YAML
  configuration files (serde), MessagePack messages (rmp-serde), the flatbuffers
  encoding of header lists, certificate files on disk, and the loops that carry out the library's decisions.

Calls into outside crates (`regex`, `matchit`, `lru`, `dashmap`, `uuid`, `chrono`, `sha1`,
`base64`, `num_cpus`) stand behind small trusted functions whose contracts
say what the crate documents; everything else in `src/` is proved.
