# zhist

Query the zsh history database, on the command line or in an interactive browser.

The logic lives in a library that is verified with Verus; the program around it
talks to the terminal, the database and the threads.

- `src/`: the library.
  - `text`, `format`: strings as characters and bytes, line editing, numbers.
  - `db`: history entries, the environment, streaming rows in chunks.
  - `tui::matching`, `tui::search`, `tui::filter`, `tui::heap`: matching a query,
    searching batch by batch, ranking results.
  - `tui::app`, `tui::results`, `tui::loading`, `tui::keys`, `tui::overlay`: the
    state of the browser and everything that changes it.
  - `tui::draw`, `tui::highlight`, `tui::render`, `tui::panes`, `tui::time`,
    `tui::date_text`: what is shown.
  - `tui::laws`: what holds of the browser as a whole.
- `app/`: the program.
- `tests/`: tests of the library.
