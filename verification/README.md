# localgpt_md

Open a Markdown file and walk through it as a 3D world: every `##` section
becomes a place on a path, with a tour that stops at each section in order.
A rule-based draft plans each place from the section's content hash; a
recipe cached per section hash (`<doc>.world.json`) restyles just that place.

## Layout

- `src/` — the verified library (Verus).
  - `markdown.rs`: the Markdown event stream (`pulldown_cmark`, trusted).
  - `doc.rs`: events → title, front matter, sections with BLAKE3 hashes
    (one per `##` heading, or one per `---`-separated slide in a deck).
  - `hash.rs`: section hashes (`blake3`, trusted) and their 64-bit seeds.
  - `text.rs`: white space, trimming, words, excerpts, decimal numbers.
  - `recipe.rs`: region recipes, clamping, and finding the JSON object in a
    model reply.
  - `sidecar.rs`: the recipe cache keyed by section-hash hex; what loads
    from the sidecar file and what is written back.
  - `draft.rs`: the world plan — regions, entity ids and names, landmark and
    prop choices, tour stops, meta.
  - `llm.rs`: the prompt for one section's recipe; which files make a model.
  - `generation.rs`: which sections to send to the model, what to make of
    the replies, and when the worker loads the model.
  - `tour.rs`, `watch.rs`: navigation and captions; hot-reload decisions.
  - `smoke.rs`: the frame-by-frame decisions of the offscreen smoke shot.
  - `laws.rs`: properties of the library as a whole, proved.
- `tests/` — tests of the library on concrete inputs.
- `app/` — the command-line program: file I/O, JSON and RON, and the
  geometry of the world manifest (floating point).
