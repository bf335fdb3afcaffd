# win-make-ro, verified core

`win-make-ro` makes files and folders read only from the Explorer context
menu: a helper executable does the work, and a COM extension adds the menu
items and starts the helper.

This crate holds the decisions and encodings behind both, proved with Verus:

| module       | what                                                                  |
|--------------|-----------------------------------------------------------------------|
| `units`      | UTF-16 paths and arguments as `u16` sequences                          |
| `command`    | the helper's sub-commands                                             |
| `args`       | parsing the command line and re-encoding it for an elevated child     |
| `quote`      | quoting per the `CommandLineToArgvW` rules; the elevation parameters  |
| `paths_list` | the path-list file format for selections too large for a command line |
| `launch`     | how the extension starts the helper                                   |
| `menu`       | which items a selection gets, their ids, verbs and help texts         |
| `com`        | the DLL's lifetime counters and per-object menu state                 |
| `order`      | the order targets are worked on: parents first, each once             |
| `report`     | exit codes, `status` lines, error summaries                           |
| `reinstall`  | binary names, what a sweep removes, where an installation lives       |
| `swap`       | exchanging the installed binaries, with rollback, against a file model |
| `flow`       | the order of a `reinstall`                                            |
| `explorer`   | closing Explorer and starting it again                                |

Where the work needs Windows, the file system or the registry, the library
says what to do next and is told what happened (`swap`, `flow`, `explorer`);
`app/` carries those steps out, and holds the COM and Win32 plumbing.
