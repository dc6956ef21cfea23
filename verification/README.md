# text_researcher

A tool for studying texts word by word: it looks words up in an OpenCorpora
dictionary (SQLite or PostgreSQL), runs UDPipe 2 for morphological analysis,
and shows the results in a terminal interface or writes them in batch.

## Layout

- `src/` — the library, verified with Verus:
  - `conllu` — the CoNLL-U parser and its feature lists;
  - `analyzer`, `model`, `pipeline` — the analysis cache, the model files
    by language, the settings of a pipeline;
  - `dictionary` — dictionary entries, word cleaning, grammeme resolution,
    batch results, backend selection;
  - `config` — global and session configuration and their precedence;
  - `panels`, `keys` — the state of the interface's panes, where a key
    goes and what it does, the prefetch window and the lookup cache;
  - `feature_map`, `sorting`, `text`, `morphology`, `error`, `cli` —
    support: an ordered map, string sorting, character helpers, the
    reference tables, the error types, the command-line options.
- `app/` — the program: argument parsing, files, the database backends,
  the UDPipe subprocess and the terminal drawing, calling the library for
  every decision.
- `tests/` — tests of the library.

Each module states its behaviour in `requires`/`ensures` contracts; the
properties that span several calls are public proof functions whose names
begin with `law_`.
