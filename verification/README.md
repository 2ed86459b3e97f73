# xargo_sysroot

Builds the sysroot of a target in stages, and rebuilds it only when something that it depends on has
changed.

- `src/` is the library. It decides; it does not touch the disk. It is verified with
  [Verus](https://github.com/verus-lang/verus).
  - `document`, `text`: TOML values and tables, the order of keys, numbers in decimal.
  - `listing`, `draft`, `blueprint`: from an `Xargo.toml` to the stages of a sysroot. A draft asks for
    what stands on disk, one question at a time.
  - `meaning`: which blueprint an `Xargo.toml` stands for, and that every draft leads to it.
  - `hash`, `update`: the hash that tells whether a sysroot is up to date, and what is done if not.
  - `plan`: the steps of a build.
- `app/` reads the files, answers the questions of a draft and performs the steps.
- `tests/` runs the library on examples.

The text of a TOML value is printed by the `toml` crate, and whether a path is absolute is told by the
platform. What the library takes for granted of both stands in the doc comments of the functions that
call them, in `document` and `draft`.
