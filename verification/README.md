# ldraw

LDraw files (the open standard for virtual LEGO models) as a Verus library:
colours, documents and their elements, a parser from LDraw text and a writer
back to it, the part cache and the resolution of a model's dependencies, the
back-face culling decisions of a model walk, the internal model of objects
and groups, and the renderer's display list (which instances of which part
are drawn, and what each upload of their rows must write). Each function
states what it does in its contract and Verus proves it.

Layout:

- `src/` — the verified library: `color`, `document`, `elements`, `number`,
  `text`, `parser`, `writer`, `round_trip` (what the parser reads back of
  what the writer writes), `library` (caches, dependency resolution),
  `resolvers` (where files are looked for, on disk and over HTTP),
  `culling` (the culling decisions of a model walk, feature capture and the
  colour stack), `mesh` (mesh group keys and where their faces go), `mesh_upload` (the index list a baked part is drawn
  from, one index per distinct corner), `model`, `part`, `buffers` (the index buffers of a
  baked part), `display`, `instances` (the rows of one group of the display
  list), `display_list`, `instancing` (the part instances a model draws),
  `registry` (baked parts by name), `selection` (the instance ids read back
  from a window of the selection framebuffer), `entity`, `error`.
- `tests/` — tests run against the compiled library.
- `app/` — the unverified rim: asynchronous reading and writing, loading from
  disk and over HTTP, serde forms of the library types, and the
  floating-point geometry of a model walk and of its display lists.
