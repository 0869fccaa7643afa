# core_video_editor

The core of a small video editor, verified with Verus.

- `src/` is the library. `frame`, `interface`, `item`, `layer` and `scene`
  hold the timeline model: frames, processors, items with children, layers
  of items over frame ranges, and scenes of layers. `cache` keeps frames in an
  LRU cache and sets up the frames after the requested one for computing
  ahead. `decode` holds the bookkeeping of the FFmpeg backend (which streams
  get a decoder, when to seek, which decoded or cached frames a read hands
  out, where to cut audio samples). `pixels` converts between the byte
  layouts of OpenCV captures and writers and RGBA frames. `timeline` places
  items on layers and frame ranges, `io` holds the plugin interfaces, and
  `manager` registers plugins.
- `app/` is the program: FFmpeg and OpenCV calls, threads, floating-point
  time conversions and blending, around the library.
- `tests/` exercises the library.
