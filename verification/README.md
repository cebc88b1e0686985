# terminal_hacking

The terminal-hacking minigame of Fallout 4, in the terminal: find the
password among the words hidden in a grid of symbols, with four attempts and
the likeness of each wrong guess as a hint.

## Layout

- `src/` is the library, verified with Verus: the grid and the placement of
  the words, the cursor and what a click gives, the widgets, the menus, the
  game, and how input events and scene changes act on the program's state.
- `app/` is the program around it: it reads the word lists, runs the event
  loop on the terminal and draws what the library holds.
- `tests/` holds the tests of the library.

## Word lists

The program reads its word lists at start-up from a directory, given as
its first argument (by default `wordlists`). The directory holds one file
per word length, named `words<N>.txt` (for example `words4.txt`), with one
word of `N` characters per line. The lengths 4, 6, 8 and 10 are needed,
each with at least 20 different ASCII words; the program checks this before
it starts.
