# media_sorter

Sorts and renames images and videos by the date they were taken:
`IMG_YYYYMMDD_HHMMSS.ext` / `VID_YYYYMMDD_HHMMSS.ext`, with `_0001`,
`_0002`, ... on collisions, optionally into a folder per year, and removes
files whose contents (XXH3 hash) repeat.

- `src/` is the verified library: decimal formatting, ASCII lower case,
  lines and trimming of text, and path joining (`text`), reading paths (`paths`), reading dates from exiftool's output
  (`date`), media files, their new names and content hashes (`file`),
  gathering, de-duplicating, comparing with the destination by hash and
  planning moves that never overwrite (`sorter`), and the options
  of a run (`cli`).
- `app/` is the command-line program: argument parsing, walking folders,
  reading files, running exiftool, moving and deleting files.
