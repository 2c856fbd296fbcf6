# tplayer

The playback logic of a small desktop media player, verified with Verus.

- `src/` is the verified library:
  - `command` – the commands the interface sends and the events the audio engine reports;
  - `engine` – the decision procedure of the audio engine's playback loop (a state
    machine from observation to next step) and its laws;
  - `timing` – conversion of stream timestamps to seconds through the decoder's time base;
  - `subtitle` – SubRip to WebVTT conversion and the choice of the subtitle file, with laws;
  - `media` – which back end plays a dropped file, and the local streaming URL;
  - `player` – the command routing of the audio player across playback sessions; that
    commands reach the current engine and that loading a file stops the previous one is
    shown by `tests/player.rs`, not by a contract.
- `app/` is the desktop program around it: window and components, the local HTTP server,
  device set-up, decoding and the output callback, and the thread that runs the engine loop.
- `tests/` exercises the library on concrete values.
