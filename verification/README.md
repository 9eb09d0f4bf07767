# silicone

A browser in the terminal: a headless Chrome renders the page, and its
screenshots are drawn with the kitty graphics protocol.

- `src/` is the library, verified with Verus: the registry of handlers per
  event (`state`), the translation of keys and clicks for the browser and the
  capture loop (`browser`), the input handler (`input`), the render handler and
  loop (`ui`), and the framing of images as graphics commands (`image`).
- `app/` is the program around it: the terminal, the headless browser, threads
  and channels, and the writing of the commands to standard output.
- `tests/` runs the library on concrete values.
