# vj_copilot

A live-VJ helper that listens to audio input and proposes up to four video clips whose
energy and brightness are closest to the music. The user picks a clip with a click or the
keys `1`–`4`; the candidates then stay held until `Space` releases them.

## Layout

- `src/` — the verified library (Verus):
  - `candidate_state` — the four candidate slots: updates keep a clip in its slot while it
    stays among the top four, holding and selection.
  - `ranking` — the closest clips first, names breaking ties, at most four.
  - `refresh` — candidate refresh at most every two seconds.
  - `session` — when to rank, selection and hold, the status lines, the beat lamp, preview
    frame cursors.
  - `analysis_schedule` — when analysis and meter intervals complete and when the
    one-second search features are ready.
  - `onsets` — onset history and FFT size of the tempo analysis.
  - `capture` — continuity of captured samples, idle restarts, and when shown readings go
    dark.
  - `audio_input` — input selection, device lists, status and error texts, stream checks.
  - `media` — which manifest entries become clips, the notices, preview frames, FFmpeg
    messages.
  - `launch`, `demo`, `clip`, `text` — arguments, the demonstration signal, clip names,
    character sequences.
- `tests/` — tests of the library.
- `app/` — the program: audio capture (cpal), signal analysis (rustfft, floating point),
  the media folder (serde_json, FFmpeg) and the window (eframe).
