# discord_cache_explorer

A browser for Discord's media cache: it lists the files of the cache
directory, tells images from videos by their first bytes, sorts and filters
them, and previews the selected one.

`src/` is the library, verified with Verus:

- `cache` — the kind of a cache file from its first bytes, cache entries,
  and image decoding through the `image` crate.
- `text_order` — the order of file names: case-insensitive first, then exact.
- `sorting` — the table's columns and directions, and a stable sort of
  entries whose result is proved unique.
- `explorer` — the state of the explorer window: listing, selection, sort,
  type filter and preview, with the labels it shows.
- `cli` — the commands and the text that `list` and `inspect` print.
- `text` — decimal numerals and right alignment.
- `video` — the file name of a video's thumbnail.

`app/` is the program around it: argument parsing with `figue`, logging,
reading the directory and files, running `ffprobe`/`ffmpeg`, and the egui window.
