# yo

A rule-based voice command assistant: spoken sentences are matched against
declared command patterns, exactly first and then fuzzily, their parameters
are resolved to canonical values, and the matching script runs.

## Layout

- `src/` — the library, verified with Verus:
  - `text`, `regex_ops`, `levenshtein`, `scoring`, `align` — text helpers,
    the regular expressions used by the matcher, edit distance, similarity
    scores and word alignment.
  - `expand`, `pattern`, `intent`, `memory` — sentence variant expansion,
    compiled sentence patterns, the intent data and the memory of past
    commands.
  - `exact`, `fuzzy`, `resolve`, `order`, `matcher`, `session` — the
    matcher: processing order, exact and fuzzy matching, entity
    resolution, and the handling of a whole (possibly chained) request.
  - `config`, `compile`, `template`, `scripts` — the TOML configuration,
    what the configuration compiler derives from it (intent data, fuzzy
    index, shell matchers, statistics) and the generated executables.
  - `runner` — the sentence test runner and its statistics.
  - `server`, `voice` — the decisions of the voice server (client registry,
    connection plans, wake word, push-to-talk and ESP32 sessions) and what
    happens to a transcription.
  - `cli`, `flags` — command line parsing of every program.
- `app/` — the programs around the library: files, processes, sockets,
  audio and speech recognition.
- `tests/` — tests of the library.
