# wilson

A verified library for an engine that plays the Johnny Castaway screensaver from its
original data files, with a small window program around it.

- `src/dgds` reads the data: the resource index and archive, the chunked resource
  formats (`.ADS`, `.TTM`, `.BMP`, `.SCR`, `.PAL`), their RLE and LZW decompression,
  the installer's compressed files and the sound effects embedded in the executable.
- `src/engine` runs it: the TTM and ADS interpreters, the island scenery, the story
  director that plans each run, the routes between the island's spots over a route
  stream, the tiled dissolve, the pixel-art upscaler, and the runtime that strings runs
  into frames.
- `src/host` holds the settings, how a session starts and saves its story day, the
  clocks, the frame pacing and the scaling into a window.
- `app` is the program: it finds and loads the data, opens the window and shows the
  runtime's frames.

Every function in `src` carries a contract that Verus checks. `tests` runs the library
on concrete inputs.
