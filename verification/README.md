# Clipsta

Instant replay for PC: the last minutes of the screen are kept in memory as
encoded video, and a hotkey saves a clip of them without encoding it again.

`src/` is the core of the program as a Verus library: every function has a
contract. Verus proves these contracts, except for five items that it believes:
`String::push` of std, and four small functions that call other crates. Those are
`naming::local_time` and `clips::local_rfc3339` (chrono), `mp4::guid_name`
(windows-core) and `trim::random_uuid` (uuid). A comment above each says what is
claimed of it. `app/` connects the library to files, processes, Direct3D and Media
Foundation, and is not verified. `tests/` runs the library.

| Module | Subject |
|--------|---------|
| `ring`, `session` | the replay buffer, and clips that are cut out of it |
| `nal`, `encoder`, `nv12`, `pipeline`, `clock`, `media_type` | the capture pipeline: keyframes, encoder setup, pictures, times |
| `mux`, `pcm` | how a clip is written |
| `recording`, `source` | what is recorded |
| `clips`, `naming`, `path` | the clip library, and the names of clips |
| `export`, `segments` | exporting and recording with FFmpeg |
| `mp4`, `trim` | inspecting clips and trimming them without encoding |
| `commands` | small requests of the user interface |
| `text`, `number` | text and decimal numbers |

Times are counted in units of 100 ns unless a module says otherwise. Functions
that are called from unverified code have conditions on their arguments where the
arithmetic could overflow; the callers in `app/` test them.
