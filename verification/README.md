# audio_converter

A converter that brings audio files into the formats that business telephones and
answering machines take, by way of `ffmpeg`.

- `src/` is a library verified with Verus: the list of files (`session`), the formats
  (`preset`), the length of recordings (`duration`), paths and names (`native`, `paths`,
  `output`, `timestamp`), the choice of `ffmpeg` (`ffmpeg`) and of a font (`fonts`), the course of a
  conversion (`conversion`) and what is shown of it (`board`).
- `app/` is the program: the window, the worker thread, files, processes, the clock, and
  what is floating point, such as the sum of hours, minutes and seconds.
- `tests/` runs the library.
