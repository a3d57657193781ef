# Mausiker

A terminal music-library manager: it browses a library by album metadata or by
folder, searches and filters it, edits tags, renames files, converts tracks to
M4A with FFmpeg and plays them.

`src/` is the library. Everything it decides and computes is stated in contracts
and proved with Verus: grouping and sorting, which rows are shown, what each key
does, previews, the conversion steps, release dates, artist credits, and what
the screen says. What it takes from `lofty`, `ratatui` and the standard library
without proof stands behind small functions whose doc comments say what is
claimed of them.

- `path`, `time`, `text`, `order`: paths, lengths of time, texts, stable sorting
- `library`, `albums`, `grouping`: tracks, tags, exclusions, albums and groups
- `conversion`, `preview`, `queue`: converting and renaming
- `browser`, `rescan`, `editing`, `editor`, `actions`, `keys`: the state of the
  browser and what changes it
- `totals`, `format`, `popups`, `screen`: what is shown
- `musicbrainz`: looking an album up
- `laws`: what holds of the browser as a whole

`app/` is the program around it: it walks and writes files, runs `ffmpeg` and
`ffplay`, reads keys and draws.
