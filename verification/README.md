# voice

Decision logic of a live dictation tool for Linux/Wayland, verified with Verus.

The tool captures microphone audio, cuts it into speech segments with an
energy-based voice detector, transcribes the segments with whisper.cpp and
types the text into the focused window (`wtype` or `ydotool`) or appends it
to a file.

- `src/` is the verified library: speech segmentation (`segmenter`),
  cleaning of recognised text and the rolling transcript (`transcript`),
  the model catalogue, settings and their defaults (`config`), path handling
  (`paths`), the typing tools (`injector`) and the session decisions
  (`session`). String helpers live in `text`.
- `app/` is the program around it: audio capture (cpal), the voice detector
  and resampling (floating point), model download (reqwest), whisper.cpp,
  the configuration file (serde/TOML), threads and a line-command console
  that stands in for the settings window.
- `tests/` exercises the library on concrete values.
