# martin (verified core)

The integer, string and byte-level logic of the martin Gaussian-splat demo engine, written in
Verus with its behaviour stated as `requires`/`ensures` contracts and proved.

- `src/` — the verified library:
  - `morton`: Morton (Z-order) codes and the Morton resampling plan;
  - `splats`, `ply`: the splitmix64 PRNG and the L-system rewriter of the procedural splats,
    and the binary PLY layout they are written in;
  - `text`, `split`: character helpers, integer parsing and printing, splitting into pieces
    and words;
  - `modes`, `cli`, `envvar`, `post`: knob names, run-mode decisions, the command line compiled
    into `MARTIN_*` settings, knob reading and the post-effect knob;
  - `bytes`, `archive`, `bundle`: little-endian framing, the lz4 asset archive, and the bundled
    show's settings file, show choice, asset list, root splat and seeding;
  - `stream`, `wav`: the streamed-audio buffer and decoder, and the WAV container;
  - `capture`: the render size, shot and frame file names, and the recording and screenshot
    state machines;
  - `mcp`, `bench`, `hash`: the MCP server's decisions, the benchmark bookkeeping and the
    integer hashes.
- `tests/` — the test suite, run against the compiled library.
- `app/` — the command-line front (clap, the stdio MCP server with serde_json, process and file
  I/O) and the floating-point splat generator, calling the library for every decision.
