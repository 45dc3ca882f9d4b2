# man_tui

A keyboard-driven man page browser. `src/` is a Verus-verified library that holds
every decision the browser takes: which files name commands, fuzzy filtering and
ranking, the key bindings of each focus, the page cache, in-page search, history,
favorites and themes. `app/` is the terminal front end (crossterm and ratatui),
which reads the man directories, runs `man ... | col -b`, stores the config as
TOML and draws the screen.

- `src/app.rs` — the browser state, its plain-value view and the transition for each key
- `src/cache.rs` — pages loaded during a session
- `src/colorize.rs` — section header and code line heuristics
- `src/config.rs` — history and favorites
- `src/man.rs` — command names from page files, the `man` command line
- `src/search.rs` — fuzzy filtering and ranking
- `src/text.rs` — character sequence helpers, line splitting
