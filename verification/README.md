# rusty_crawler

The game logic of a small roguelike dungeon crawler, written in Verus with its behaviour
stated in contracts and proved.

- `src/` is the verified library: the map and its geometry, the map builders (cellular
  automaton caves, drunkard's walks, prefabricated vaults), spawning from code and from
  templates, the world of entities with its command buffer, the inventory grouping, and the
  systems that run each turn (input, movement, items, combat, monsters, the end of the turn,
  and what is drawn).
- `tests/` runs the library on concrete values.
- `app/` is the terminal front end: the window and keyboard through `bracket-lib`, the
  pathfinding and field of view that `bracket-lib` computes over the map, loading templates
  with `ron`, and the game loop.

Random numbers come from `bracket-lib`'s generator; a function that draws them states what
holds for every draw. Pathing distances and exits are computed by the front end and handed
to the library as plain vectors.
