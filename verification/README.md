# cosmic_bg

The logic of a wallpaper service for Wayland outputs, verified with Verus.

- `src/order.rs`: the alphanumeric order of image paths, a verified sort, and
  the shuffle of a random slideshow.
- `src/paths.rs`: when two paths name the same file (equal components).
- `src/queue.rs`: the image queue of a slideshow (resume, advance, add and
  remove files) and its laws.
- `src/wallpaper.rs`: the wallpaper of one output: loading its images, the
  rotation timer, activation, and what to draw on each layer.
- `src/state.rs`: the per-output state saved between sessions.
- `src/events.rs`: changes in a watched directory.
- `src/scaler.rs`: the integer geometry of the scaling modes.
- `app/`: the service around the library: event loop, file watching, image
  decoding and scaling, drawing, configuration.
