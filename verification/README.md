# read

A terminal reader for txt files, with its logic verified by Verus.

- `src/file_read.rs`: `FileRead`, paging through the lines of a file, with
  the laws that paging keeps the page the run of lines before
  `current_line_no`, that reading from the first line page by page shows
  every line once and in order, that going back shows the lines just
  before the page, that paging forward reaches the end within a bounded
  number of turns, and when the reader is marked as ended.
- `src/config/config.rs`: `Config`, the stored reading position of each
  file, and the laws that a saved position and saved arguments are read
  back.
- `src/input/cli.rs`: the command-line arguments and their checks.
- `src/input/event.rs`: the keys the reader reacts to and the key listener's
  decisions.
- `src/display/terminal_display.rs`: cutting lines into rows of the
  terminal's width without cutting a character, and what each key does.
- `src/context.rs`: the streaming reader's page buffer, with the law that
  its pages show the file from the start line on, each line once.
- `app/`: the program: arguments, terminal, files, threads and logging.
