# kz

A fast `wc`: line, word, byte, character and display-column counts, plus
blank lines, unique words, pattern occurrences, line-length statistics and a
histogram, with filters that keep only the code of a source file or only the
prose of a Markdown file.

## Layout

- `src/` is the counting library, written in Verus. Each count is defined by a
  spec function over the input bytes (`byte_count`, `char_count`,
  `word_count`, `lines`, `display_width`, ...) and every executable function
  is proved to compute it, including the versions that cut large buffers into
  pieces. Proof functions state the laws that make piecewise counting sound
  (counts add up over a cut at a line or character boundary, words are
  corrected by one where a cut splits a word) and properties of the results
  (the median lies between the shortest and the longest line, the code filter
  leaves no blank line, the Markdown filter leaves no backtick).
- Calls into `memchr`, `encoding_rs`, `globset` and `rayon` (which counts the
  pieces of a large buffer in parallel), and a few std calls, go through small
  wrappers whose contracts restate the documented behaviour.
- `app/` is the command-line program: argument parsing (clap), reading files,
  memory maps and standard input, directory walks, parallelism over files,
  JSON output (serde), and the mean and standard deviation, which are floating
  point.
- `tests/` runs the library on concrete inputs.
