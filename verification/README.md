# Buddy changer

A verified library for the buddy (a small ASCII companion) that a command-line
program derives from a user id and a salt, and for a tool that searches salts,
previews buddies and patches the chosen salt into that program's binary.

- `src/` is the library, verified with Verus: the Mulberry32 generator and the
  FNV-1a hash (`rng`), rolling and rendering buddies (`buddy`, `render`),
  salt search (`search`), finding and replacing salts in binary bytes
  (`binary_patch`), the original-salt record (`state`), request heads (`http`),
  command-line arguments (`cli`) and the API's routing and rules (`web`).
- `app/` is the program around it: file, process and network I/O, JSON, and
  reading the stat threshold as a floating-point number. `serve` starts the
  web server; any other arguments go to the `buddy-lab` command line.

The asset tables are read at run time from `fixtures/buddy-assets.json`. The
patched program is named by `BUDDY_TARGET_COMMAND` (its command, also the stem
of its config files) and `BUDDY_TARGET_PRODUCT` (its display name), or by
`fixtures/target.json` with the keys `command` and `product`.
