# docs_orchestrator

A terminal orchestrator for agents that work on Google Doc tabs. A tab whose
title carries `[agent]` is claimed by renaming it to `[agent,working]`, and an
agent process is started for it; the agent's output is captured and shown per
tab, and `[human]` marks finished work.

Layout:

- `src/` — the verified library (Verus):
  - `text` — character-level search, ANSI escape removal, padding,
    truncation, replacement, trimming and decimal numerals;
  - `document` — reading the title and the tabs out of the Docs API's JSON
    reply, and a tab's status from its title;
  - `state` — the shared state, its invariant, the activity log, captured
    output and running commands;
  - `poll` — what one polling round changes, which tabs it claims, and what
    each step logs and which agent it starts;
  - `input` — SGR mouse reports, integer parsing and key/click handling;
  - `render` — the frame that is drawn, line by line;
  - `agent` — the API requests, the agent's command line and log messages;
  - `state_laws` — what every operation keeps;
  - `config` — the watched document, polling period and working directory.
- `app/` — the program: processes, threads, the terminal and the loops.
- `tests/` — tests of the library on concrete values.
