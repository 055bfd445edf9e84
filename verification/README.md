# grok

A pager for log files, in the manner of `less`, whose logic is a library verified with
Verus.

## Layout

- `src/`: the verified library.
  - `waypoint`, `sane_index`: the index of a log's lines, kept as waypoints (lines found, and
    gaps not yet explored) that tile every offset; `sane_lines` walks a log's lines forwards
    and backwards through it, indexing as it goes. `cursor_log_file` holds a log in memory.
  - `index`, `eventual_index`: the older index of explored stretches and their line starts.
  - `keyboard`: key and mouse bindings and the commands they give.
  - `display`, `viewer`, `search_prompt`, `switch_prompt`: how commands move the view, what a
    repaint must show, and the prompts.
  - `styled_line`, `style_rules`, `screen_buffer`: styling the parts of a line, regular
    expression rules for styles, and the rows of a screen update.
  - `index_filter`: which lines a search keeps, and the index of the lines kept so far.
  - `filtered_log`: the `&pattern` filter: walking a log's lines forwards or backwards and
    giving only those the filter keeps (or, with `!`, those it drops).
  - `patterns`: regular expressions, through the `regex` crate.
  - `line_view_mode`, `stylist`, `sub_line_iterator`: cutting lines into the chunks a view
    shows.
  - `config`, `text`, `read_buffer`, `timeout`, `indexed_log`: command-line settings, string
    helpers, a sliding read buffer, a deadline, and the records lines are read into.
- `app/`: the program around the library: the terminal, files and standard input, and the
  main loop.
- `tests/`: tests of the library.
