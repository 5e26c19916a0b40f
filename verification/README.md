# asterism

Operational logics for small games, verified with Verus. A game configures the logics and
calls out to them from its loop: state machines (`graph`), entity states (`entity_state`),
links between places (`linking`), a registry of which reactions follow which events (`data`), resource pools (`resources`), keyboard control (`control`),
a tile-map collision logic (`boxsy`), rooms drawn as text (`bitsy`), sprite animation (`animation`), and pieces of the games
built on them (`maze`, `jumper`, `paddles`, `omnipaddles`, `framebuffer`).

Layout:

- `src/` is the verified library. Every public function states what it returns or changes;
  the `law_*` proof functions state properties that relate several calls.
- `tests/` runs the library on concrete values.
- `app/` holds what the library cannot: the input wrappers for macroquad and winit, the
  floating-point physics and bounding-box collision, the drawing side of animation, and the
  condition tables whose query outputs have types known only at run time.
