# Nox Futura core

The verified core of the Nox Futura colony game: the logic that decides what
happens to the map, the message queues between game systems, and the layout
decisions of the renderer, each with a Verus contract.

* `src/` is the library, checked by Verus:
  * `spatial` — tile indexing in a region and its inverse.
  * `chunks` — the render chunk grid: chunk indexing, each chunk's tiles,
    what a rebuild plans for every tile, how many mesh elements are shown
    for a camera height, and the draw order of the chunks in view.
  * `region`, `components` — the per-tile map state and the parts of entity
    components that the logic reads (jobs and their paths, mining modes,
    tools, points).
  * `distance` — nearest-point search on tile coordinates.
  * `messaging` — the first messaging layer: render flags and a queue of
    world changes.
  * `playgame` — the state shared with the renderer, background loading, the
    message queues of a game in progress, applying each drained message to
    the world's entities (held as plain records): jobs, walking paths,
    carrying, deleting, digging, tree cutting, hiring and firing, buildings,
    hauls and reactions; and the drain of the whole queue at the end of a
    tick.
  * `render` — terrain atlas layout and texture names, material texture
    lists, model instance groups, draw ranges and index buffers, design
    cursors.
  * `main_menu` — the menu box, selections, the background's redraw on a
    resize or a timeout, and the tagline.
* `app/` is the process around it: global locks holding the queues and the
  entity records, the thread-parallel chunk rebuild, the terrain texture
  listing, the vox palette, and the decisions that work on floating-point
  values.
* `tests/` exercises the library on concrete values.
