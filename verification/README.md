# cortana

Cortana is a terminal-first assistant: a TUI with a holographic face, zero-token extractive
summaries, session memory, speech and an optional LLM.

The crate is a Verus library with a thin program around it.

- `src/` is verified with Verus:
  - `text` — chars, trimming, lines, runs, ordering, UTF-8 byte lengths;
  - `rank` — the ranking of keywords by count, then alphabetically;
  - `summary` — text, code and diff summaries, the JSON output contract;
  - `session` — sessions, recaps, Markdown export, timestamps;
  - `tui` — what keys do to the input line, what commands and chat are answered;
  - `cli` — what the command line asks for and what the commands print;
  - `agent`, `config`, `speech`, `renderer`, `presence`, `avatar`, `visual` — the LLM
    request and reply, settings, speech timing, graphics protocol framing, expression
    modes, the avatar's pixel frame, and the splash screens.
- `app/` holds the program: the terminal loop, drawing, files, HTTP, audio and the
  floating-point face animation.
- `tests/` runs the library on concrete inputs.
