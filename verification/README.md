# ecs_core

The core of an entity component system, verified with Verus: entities and their allocation,
command queues and the frames in which worlds run them, queries, queries by the value of a
component, observers, systems, and two queues for executors.

- `src/` is the library. Each module states what it does in contracts. What holds over
  several operations is stated by the proof functions of the `laws` modules, of
  `entity::allocator_laws` and `entity::history`, and of `world::queue_laws`.
- `tests/` runs the library on concrete values.
- `app/` is what a program puts around the library: text forms and serialization, logging,
  panics, guards that act when they are dropped, and forms that threads can share.

| Module | Contents |
| --- | --- |
| `identifier`, `entity` | identifiers, the allocator of entities, their metadata |
| `component`, `storage`, `archetype`, `world::storages` | where the values of components are kept |
| `query` | what queries access, match and fetch |
| `index` | queries by the value of a component |
| `observer` | which observers an event, or a move between archetypes, triggers |
| `system` | systems and how they are run |
| `world` | command queues, command frames and the world |
| `executor` | a queue that gathers from many threads, and a mutex that can be notified |

What the library takes from other crates stands behind functions marked
`#[verifier::external_body]` in `entity/allocator.rs`: the queue of `concurrent_queue`, the
storage of `thread_local`, and the vector of `smallvec`. Their contracts are assumed. From the
standard library, `Formatter::write_str` in `text.rs` and the hashing of `u64` in `entity.rs` are
called, and nothing is assumed of what they do.
