# fastetcd

The logic of a key-value server that speaks the etcd v3 protocol, verified
with Verus, and the program around it.

`src/` is the library. Everything in it is verified: what each function
returns or changes stands in its contract, and what holds across functions
stands in public proof functions named `law_..`. What comes from other
crates (bincode, openraft, argon2, SHA-256, random bytes) stands behind small wrappers
whose doc comments say what is taken on trust.

| Modules | What they hold |
|---|---|
| `lex`, `text`, `parse`, `utf8`, `names`, `keymap`, `idmap` | orders, texts, tables |
| `codec`, `stored`, `crypto`, `status` | encodings, hashes, errors |
| `model`, `types`, `conv`, `keyrange`, `batch` | commands, requests and responses |
| `log_store`, `kv_log_store`, `membership` | the replicated log |
| `snapshot_store`, `snapshot_data`, `state_machine`, `network` | snapshots, applying entries, peers |
| `space`, `compaction`, `sizing` | what the store may take up, and when it is compacted |
| `auth`, `authz` | users, roles, tokens, and who may do what |
| `state`, `kv`, `watch`, `lease`, `cluster`, `maintenance`, `metrics` | the services |
| `config`, `admin`, `fsck`, `cluster_id`, `migrate`, `ctl` | setting up, repairing, importing, the command line |

`app/` is ordinary Rust: the processes, the network, the disk, and the
conversions between wire messages and the library's types. A storage engine
is linked in through the traits of `app/store.rs`.

`tests/` run the library.
