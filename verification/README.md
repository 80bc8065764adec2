# BMS Resource Toolbox

Tools for managing BMS chart collections: naming work folders after their
charts, splitting and merging packs, numbering and unpacking pack files,
cleaning redundant media, converting video, and opening event pages.

## Layout

- `src/` — the library, verified with Verus. Each operation of the toolbox
  is a function from what was read on disk (names, flags, sizes, bytes) to
  what should be done (renames, moves, removals, texts), with a contract
  that states the result exactly. The laws that relate operations (undoing
  a rename, a split undone, decoding modes that agree, …)
  are proof functions beside them.
  - `text`, `fs_name`: character helpers and file-name sanitising.
  - `encoding`, `info`: decoding chart files by encoding priority.
  - `event`: event pages, numbered work folders, the work table rows.
  - `rename`, `scan`: naming work folders and finding similar ones.
  - `pack`: splitting, merging and moving packs.
  - `media`, `video`, `probe`, `transfer`, `generate`: media cleanup,
    conversion presets and pipelines.
  - `unzip`: numbering pack files and placing unpacked contents.
  - `port`, `cli`, `error`: the values exchanged with the program.
- `app/` — the command-line program: argument parsing, the file system,
  the console, the browser, spreadsheets and external converters.
- `tests/` — tests of the library on concrete values.

## Not available in the program

The library plans these operations, but the program has no implementation
of the following parts, so the commands that need them stop with an error:

- reading chart files for their title and artist: naming a work folder
  after its charts and generating the work table fail;
- extracting archives: unpacking numbered pack files fails, and so do the
  raw and HQ pack pipelines that unpack;
- synchronising folders;
- converting audio;
- measuring how similar two folders' charts are: renaming onto an existing
  folder never merges the two, it keeps both.

Moving elements across directories always replaces what is in the way;
there is no option to skip or to compare before replacing. Video files are
converted one after another.
