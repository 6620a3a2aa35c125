# mstu

Media handling for a streaming engine, with its behaviour stated in
`requires`/`ensures` contracts and proved with Verus.

- `src/` is the verified library: the MP4 box parser and sample index
  (`mp4`), the MP4 file a source plays from (`mp4::file`), NAL unit framing
  (`nalu`), codec descriptions (`codec`), FourCC codes and fixed-point fields,
  the engine's arena allocator, field mapper, pipeline graph and event
  subscriptions (`runtime`), the decisions of the file source and the
  dumper as they play and write (`source`, `dumper`), and the reading of a
  control request into a command (`rpc`).
- `app/` is the program around it: logging, reading files from disk, pacing
  samples against the wall clock, writing dumps, and the text forms of values.
- `tests/` runs the library on concrete inputs, MP4 files among them, built
  in memory.

Laws the library keeps are stated as public proof functions named `law_*`,
next to the functions they speak of.
