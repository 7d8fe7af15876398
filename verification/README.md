# dedup-gui

The logic of a desktop program for file deduplication, written and proved in
Verus: the state of each tab, the plans it makes, the words it shows and what it
asks to be done. Drawing, disk, dialogs, threads and sound stand around it.

## Layout

- `src/` is the verified library.
  - `text`, `order`, `lists`, `naming`, `recent`: texts, their order, lists of
    names, free names and remembered values.
  - `filter_expr`, `filter_ui`, `file_filter`: filter expressions, and the two
    editors for them with their presets and histories.
  - `files_view`: the transfer tab. `grooming_plan`, `grooming_view`: the grooming
    tab, its plans and its runs. `sync_view`: the backup groups' tab.
  - `row_keys`, `board`, `review`: the boards a plan is reviewed on.
  - `notes`, `run_result`: what a run reports.
  - `align`, `hexdiff`, `textdiff`: two files compared by their bytes and lines.
  - `media_cell`, `lightbox`, `imgedit`, `id3tags`, `player`: what is shown of a
    file, and what is done to it.
  - `theme`, `icon`, `repo_chip`, `help_content`, `settings`: colours, glyphs and
    fixed texts.
  - `locks`, `status`, `menu_entry`: which repositories are protected, where they
    lie, and the entry in the desktop's menu.
- `tests/` holds the tests, by subject.
- `app/` is the window: a program supplies an engine that knows the repositories,
  and calls `run`.

## How it is stated

Each tab is a struct with a view: a model made of sequences of characters, plain
values and models. A click is an `Act`; `apply` says what the tab becomes and
which `Effect` it asks for, and a worker's answer comes back as a `Msg`. Contracts
relate the models before and after.

Functions whose names begin with `law_` are the properties that hold across
functions. Items marked `#[verifier::external_body]` are trusted; each says in its
comment which function it stands for and what it claims of it.
