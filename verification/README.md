# ashiojin_extensions

glTF extensions for Bevy (animation graphs with mask groups, effect meshes
and trails) and a previewer that loads a glTF file and drives its animation
graph from a web API.

Layout:

- `src/` is the verified library.
  - `graph_desc`, `mask`, `graph_plan`: the animation graph description of
    a scene, the bits of mask groups, and the plan that decides which nodes
    the graph gets, in which order, under which parent and with which mask.
  - `animation`: the maps from node and clip names to graph nodes, commands
    resolved against them, and the bone targets of mask groups.
  - `trail`: trail emitters and their timings, and the history of a trail
    (when a burst cuts it, which points expire, what to do with the entity
    that draws it).
  - `meshes`: vertex counts and triangle indices of the effect meshes.
  - `previewer`, `scene`, `api`, `text`: what the previewer reports, scene
    labels, the messages of the front ends, and text building.
  - `laws`: properties that relate several operations.
  - `bevy_types`: the Bevy types and calls the library works with, and what
    it takes as given about them.
- `app/` is the previewer and the Bevy plumbing: systems, components, the
  web API, and the floating-point geometry of meshes and trails.
- `tests/` runs the library on concrete values.
