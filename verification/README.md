# mod_manager

The verified core of a local mod manager for a BepInEx-based game: the
rules that decide what the manager lists, names, downloads and extracts,
with their contracts proved by Verus.

- `src/text.rs`: character-level string helpers (search, split, decimal
  numbers, `str::parse::<u64>` semantics, lower-casing).
- `src/sorting.rs`: the stable sort by (rank, text) keys used for listings.
- `src/mods.rs`: the trash naming scheme (`<seconds>__<name>`), reading it
  back, the order of mod listings, and reading the mod descriptions.
- `src/config.rs`: which config files are listed, and in which order.
- `src/bepinex.rs`: the framework's required files, what removal deletes,
  the builds offered on the download page, and the installed version.
- `src/progress.rs`: download and extraction progress reporting.
- `src/game.rs`: the game process decisions and its bounded log.
- `src/resource.rs`: remote resources: download address, archive stem,
  where each archive entry is extracted.
- `src/archive.rs`: reading zip archives through the zip crate.

`app/` holds the commands themselves: file system, network and process
work that calls into the library. `tests/` exercises the library on
concrete values.
