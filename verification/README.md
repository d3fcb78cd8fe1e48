# kiwami

The `kiwami` command manages a NixOS machine built from a flake: it installs
it (choosing and partitioning disks, writing `disk.nix` and `hardware.nix`,
fixing the firmware boot order), checks it for drift (`doctor`), updates it,
rotates wallpapers and keeps host configurations in step with the repository.

## Layout

- `src/` is the library, verified with Verus. Every decision the command
  makes is here as a function from plain values to plain values, with a
  contract over spec functions:
  - `text`, `order`: the string and ordering toolkit the rest is built on;
  - `nixtext`: writing Nix expressions as text, and reading a string back;
  - `layout`: the disk layout and the `disk.nix` rendered from it;
  - `install`: disks, boot entries, host names, refusals and target paths;
  - `flow`: the order an install goes in, as a step function from what
    the last step found to the next action - the program performs the
    actions and reports back;
  - `doctor`: findings and their verdicts;
  - `host`, `update`, `wallpaper`, `persist`: the other subcommands' rules,
    the steps of a host push among them;
  - `json`: the few places where JSON is read, through `serde_json`.
- `app/` is the program around it: argument parsing, running commands,
  reading and writing files, and printing.
- `tests/` runs the library on concrete inputs.

The public proof functions whose names begin with `law_` state what holds
across calls: that a quoted Nix string reads back as itself, that a shell
quote round-trips, that a rotation of wallpapers comes back to its start,
that a boot order fix only removes dead entries and puts the new entry
first, that nothing is written - no clone, no layout, no format - before
the erase is confirmed, and so on.
