# cosmic_media_applet

The logic of a COSMIC panel applet that controls the active media player
(MPRIS over D-Bus, or its own local player) and keeps statistics of the
local music folder, written in Verus with its contracts proved.

- `src/` — the verified library:
  - `music_db`, `albums`, `order`, `pattern`: the statistics store (tracks,
    favorites, play counts, scan statistics, last playback position) and its
    listings: sort orders, `LIKE` search, album grouping;
  - `store_laws`: what the store's operations undo, keep and leave alone;
  - `scan`, `paths`: the music-folder walk, file names, and the applet's
    file locations;
  - `mpris`, `manager`, `player`, `panel`, `message`, `error`: what players
    report, which source is active, where commands go, the local player's
    playlist and progress, and what the panel shows.
- `tests/` — tests of the library on concrete values.
- `app/` — the program around the library: D-Bus, audio output, the SQLite
  file, the folder walk on disk and the COSMIC user interface.
