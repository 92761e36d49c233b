# shadereye

Shader perception tools for language models: render shaders to images, compare
renders, run them in a real browser, fetch Shadertoy shaders, and look up a
curated GLSL reference.

## Layout

- `src/` is the verified library (Verus). Each public function states its
  behaviour in `requires`/`ensures` over spec functions, and the modules hold
  proof functions for the properties that span calls:
  - `text`: character-level search, trimming and splitting used everywhere.
  - `compile`: shader languages, detection from source, name parsing, and the
    Shadertoy-to-GLSL wrapper.
  - `shadertoy`: shader ids from URLs, request URLs, query encoding, and the
    interpretation of API answers.
  - `diff`: per-channel comparison of RGBA images and the difference image.
  - `render`: fragment source selection, readback row layout and unpadding,
    frame encoding, pixel access, and the animation montage (frames laid left
    to right with `image::imageops::overlay`, then encoded).
  - `browser`: the WebGL2 harness page, its `data:` URL, and the transcript
    collector for console events.
  - `reference`: case-insensitive reference lookup.
  - `image_io`: PNG encoding through the `image` crate.
  - `encoding`: JSON string literals and standard Base64, stated character by
    character and produced by `serde_json` and `base64`.
- `app/` is the MCP server binary and everything that needs a GPU, a browser,
  the network, the environment, files, or floating point (the frame times of
  an animation, the mean difference and its pass threshold). The curated
  reference data is compiled into the binary there and parsed with `serde_json`.
- The MCP server offers the render, animation, diff, browser, Shadertoy and
  reference tools. The validate, translate, visualize and probe tools of the
  design are not offered: the compiler and probing functions they call are not
  part of this code base.
- `tests/` exercises the library.
