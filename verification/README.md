# hypr-recall

Save and restore Hyprland window sessions: which windows are on which workspace, in
which order their columns stand, and how wide they are.

The library under `src/` decides what is saved, launched, moved, resized and told,
and Verus proves what it says of that. The program under `app/` does what the library
decides: it runs `hyprctl`, reads and writes files, starts programs and prints. Three
things are decided there and not proved: whether a measured width is close enough to
the wanted one (floating point), whether a file is well-formed JSON or TOML, and that a
session file which is missing or cannot be read is told and not restored.

## The library

| Module | What it holds |
| --- | --- |
| `session` | saved sessions, their versions, merging one workspace in |
| `save` | which windows are saved, and in which order |
| `restore` | restoring a session, see below |
| `hyprland` | windows, events, dispatch expressions, waiting for windows |
| `config` | the configuration |
| `desktop_entry` | finding the command that launches an app |
| `lock` | the lock of a restore |
| `list`, `status`, `edit`, `delete` | the smaller commands |
| `paths`, `log`, `color` | where files are, how much is said, in which colors |
| `text`, `order`, `collections` | text, stable sorting, maps and sets of text |

A restore asks and is answered. `restore::run` and `Restore::follow` give a turn:
commands to carry out in order until one fails, and a query to put once they are
done. The answer leads to the next turn.

| Module of `restore` | What it holds |
| --- | --- |
| `plan` | what has to be launched for a workspace |
| `columns` | the order of columns, and their widths |
| `live` | what is open |
| `stray` | windows on the wrong workspace |
| `protocol` | commands, queries and answers |
| `reorder` | bringing the columns of a workspace into order |
| `sweep` | moving stray windows |
| `run` | the restore as a whole |
| `dry` | showing what a restore would do |
| `laws` | what holds of a restore as a whole |

Widths are fractions of a monitor, in floating point. The library is generic in them
and only carries them from the session to the windows; the program computes and
compares them.

What holds of several functions together stands in proof functions whose names begin
with `law_`.

## The program

`app/main.rs` is the command line, `app/driver.rs` carries out the turns of a
restore, and `app/bin/overlay.rs` is the overlay that is shown meanwhile.
