# hi_voicer

The logic of Hi-Voicer, a local offline speech-to-text workbench, as a
library verified with Verus: settings and their normalisation, model-folder
checks, Sherpa/Faster-Whisper argument building, recogniser output parsing,
subtitle chunking and export formats (plain text, timeline text, SRT, DaVinci
Resolve markers), term replacement, ffmpeg command lines, WAV chunk planning,
the WebSocket and protobuf wire formats, SentencePiece and Qwen3-ASR tokenizer
decoding, and the DirectML probe decisions.

- `src/` — the verified library; each module states its contracts over
  spec functions, and the laws the library keeps are public proof functions.
- `tests/` — tests of the library on concrete values.
- `app/` — the program around it: files, processes, sockets, WAV I/O,
  JSON (de)serialisation and the floating-point feature extraction.
