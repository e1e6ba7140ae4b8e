# Survival Realms

A voxel survival world: chunked terrain generated from a seed, player edits
that survive unloading, chunk streaming around the player, grass that spreads
and decays, and greedy meshing of chunk faces.

## Layout

- `src/` is the library, written in Verus; every function carries a contract
  and is proved against it.
  - `geometry`, `coordinates`, `chunk`, `flags`, `blocks`: positions, the
    split of world positions into chunk and cell, chunk storage and flags.
  - `world`: loaded chunks, recorded edits, fluid states and the queues other
    systems read; edits survive unloading and regeneration.
  - `generator`, `generation`, `terrain`, and the feature samplers (`lakes`,
    `big_lakes`, `rivers`, `sediment`, `caves`, `underground`, `trees`,
    `biomes`, `hashing`): which features a generator version has, where they
    are placed, and the blocks and skylight of a generated chunk given the
    samples of its noise fields.
  - `streaming`, `streamer`: which chunks are wanted around a center, in what
    order they are generated, loaded and dropped.
  - `grass`: timers that spread grass to lit dirt and decay covered grass.
  - `meshing`: merging visible faces of a slice into rectangles.
  - `settings`, `launch`, `seeds`: player settings, the command line and
    world seeds.
  - `collections`: the hash maps and sets of the world, keyed by integers.
- `tests/` runs the library on concrete worlds.
- `app/` is the program: the command line, settings files, logging, the
  floating-point noise fields that feed chunk generation, and the thread pool
  that generates chunks in the background.
