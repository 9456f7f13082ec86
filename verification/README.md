# nixpkgs2flatpak

Finds the nixpkgs packages that ship a `.desktop` file, derives a Flatpak
application ID and runtime for each, and drives a continuous builder that
turns them into Flatpak bundles.

- `src/` is the verified library:
  - `text`: strings as character sequences (splitting, joining, lines,
    white space, substrings) with their specifications;
  - `desktop_parser`: application IDs from desktop file names;
  - `runtime_detector`: the runtime chosen for a package;
  - `types`: the package record and a keyed set of records;
  - `discover`: reading a `nix-locate` listing and the desktop files it
    points to;
  - `discover_unfree`: records from an evaluation and from `pkgs/by-name`,
    merged into what is already known;
  - `ci_builder`: build order, runner shares, resuming, time budget and the
    build loop's state;
  - `stats`: packages per runtime.
- `app/` is the command-line program: argument parsing, running `nix`,
  `grep`, `rclone`, `flatpak` and friends, JSON files, and the clock.
- `tests/` runs the library on concrete values.
