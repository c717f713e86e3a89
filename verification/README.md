# voxfont

A console MIDI / SoundFont player with a two-panel interface: MIDI files on the
left, SoundFonts on the right. Pick a font, play files through it, and keep what
you liked: a history of what was heard through which font, starred pairs, and
`.m3u` playlists whose items can be pinned to a font of their own.

The player's state and rules are a library whose behaviour is stated in
`requires` / `ensures` contracts and proved by Verus. The program around it only
carries out what the library asks for.

## Layout

- `src/` — the library.
  - `text`, `ascii`, `paths`, `raw`, `sorting`, `cursor`, `calendar` — texts, paths,
    orderings, dates.
  - `vfs` — locations on disk and in zip archives, and directory listings.
  - `midi` — reading the length and time signature of a MIDI file.
  - `conf`, `state`, `history`, `favourites`, `playlist` — what is kept, and the
    files it is kept in.
  - `browser` — a file panel.
  - `app` — the application's state, and the outside work (`Effect`) that its
    operations ask for; `player`, `queue`, `overlay`, `lists`, `prompt` and
    `keys` are its operations.
  - `ui`, `lines` — what the screen says.
  - `cli`, `host`, `synth` — starting up.
  - `*_laws` — what holds of several operations together.
- `tests/` — the library on concrete values, with a disk and a synth that stand
  on paper.
- `app/` — the program: libfluidsynth, files and archives, the terminal.

## How the program drives the library

Every operation of `App` changes the state and returns a list of effects. The
program carries them out in order; where an effect has an outcome (a font was
loaded, a playlist was read), it reports back through the method that the
effect's documentation names, before it goes on to the next. What an operation
needs to know of the world (the time, which files are there, what a directory
holds) it is handed as a value.

Paths are texts. Bytes in a path that are not UTF-8 are kept between NUL
characters (`raw`), so such a file can still be found and such a directory
entered; on the screen and in the files that are written they show as the
replacement character.
