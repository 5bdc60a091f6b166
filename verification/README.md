# dndsound

A voice-triggered sound engine for tabletop narration: the Dungeon Master speaks, the
pipeline transcribes, the detector decides which event the narration describes, and the
sound engine plays it.

`src/` is the verified library, proved with Verus:

- `detect` — text normalization, stemming, edit distance, the literal detection layers,
  the inverted index, candidate ranking, and the trigger engine (cooldowns, duplicate
  phrases, probability rolls, followers).
- `pipeline` — the speech segmenter, the deadline arithmetic of the playback mute
  (the shared flag itself is plain atomics, unproved), transcript cleaning and
  hallucination checks, the WAV header check of recorded runs (parsed by hound), the
  capture buffer, the listening session's decisions and the
  order microphones are listed in.
- `sound` — the byte-bounded decode cache, group selection with anti-repeat, the PCG
  generator, the supported file types and what a container header (parsed by
  symphonia) says of a file's audio track.
- `semantic` — the E5 prompt convention, tokenization and padding of model batches,
  and the phrases the semantic index holds.
- `models`, `freesound`, `pack` — the model catalog and store, Freesound licences,
  credit lines and the reading of its JSON answers (parsed by serde_json), and the
  starter pack's themes and the CC0 check of its manifest.
- `order`, `text`, `clock` — a stable ranking for any total preorder, text helpers, and
  the conversion of wall-clock readings (the reading itself is not proved).

`app/` is ordinary Rust around it: audio devices, ONNX and whisper inference, the mixer,
files and the network, threads, and the floating-point scoring.

`tests/` runs the library on concrete inputs.
