# supabar

A launcher for the desktop: it lists the installed applications, hints their
names while a command is typed, opens applications and files, and indexes the
documents in the user's home directory.

The library under `src/` is written in Verus and verified: the contracts state
what the functions return, except for what comes from the machine (the user's
and the host's names), of which only what holds of every answer is stated; the
properties that span several functions are proved as lemmas next to them.

- `text`: character-level string helpers and UTF-8 facts.
- `hints`: command-line hints and their completion.
- `runtime`: commands, queries and responses, and how each is answered.
- `engine`, `desktop`: the vocabulary of the two front ends.
- `local_info`, `user_settings`, `user`, `user_state`: where the user's data
  lives, who the user is, and the state kept between runs.
- `indexers`, `contracts`: which files are indexed and what is extracted.
- `apps`: application bundles and their icons.
- `gui`, `logging`: the window's greeting and the logging layer.

`app/` is the command-line program around the library: the terminal, the
runtime's channels, the file system, and the desktop's list of applications.
