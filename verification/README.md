# raytracer

A ray tracer whose integer and text logic is a Verus-verified library
(`src/`), and whose floating-point rendering, file and network I/O and
threads form the program around it (`app/`).

The library:

- `text` — whitespace, words, trimming, lines, and decimal numbers, each
  proved against a statement of what the standard library computes;
- `args` — the command line;
- `scene` — the names of light and object kinds and attributes, and the
  checks a scene must pass (its frame, at most one ambient light);
- `obj` — reading OBJ meshes (vertices, colours, triangles);
- `menger` — the sub-cubes that a Menger sponge keeps;
- `render` — cutting rows into tiles for worker threads and putting the
  rendered tiles back together;
- `sharing` — sharing an image's rows between a render server and its
  clients;
- `server` — the decisions of the render server's console session;
- `protocol` — the lines that the server and its clients exchange;
- `image` — the PPM text of an image and the raw pixel bytes clients send.
