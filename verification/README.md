# singing_sand

The verified core of Singing Sand, a music library that scans folders of
audio files, draws frequency-band waveforms and plays tracks.

- `src/` is the library, verified with Verus: stored setting names and
  numbers, path rules and the audio-file test, the sidebar directory tree,
  track selection and tag toggling, search planning and SQL text, waveform
  blob framing, frame-to-bucket accounting of the analysis, the waveform
  pixel buffer, the decisions of the audio engine thread, debounced note
  saving, the album-art cache, and the image work done through the `image`
  crate (thumbnails, PNG encoding).
- `tests/` exercises the library from outside.
- `app/` is the program around it: the SQLite store, folder scanning and
  watching, tag reading, audio decoding and playback, floating-point signal
  analysis and the float side of waveform rendering, settings persistence,
  and the request handlers of the desktop front-end.
