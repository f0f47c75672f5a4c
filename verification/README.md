# mellonella

Lets one enrolled voice through and shuts everything else out, live or over a
recording. The decisions, from frames of audio to a gain for every sample, are a
Verus library: each function carries a contract, and the contracts are proved.

## Layout

- `src/` is the verified library.
  - `gating`, `turn`, `speech`, `f0`, `features`: scores, the speaker gate and its
    envelope, speaker turns, gathered speech, pitch, log-mel features.
  - `enrollment`, `pipeline`, `refresh`: the enrolled voice, what a fresh embedding
    does to it, and the worker that computes embeddings in the background.
  - `vad`, `embedding`, `tse`, `tse_stage`, `dfn3`, `overlap`: what goes into the
    networks and what is made of their replies.
  - `streaming`, `chain`, `engine`, `assembly`, `offline`, `streams`, `decisions`: one
    frame, the stages behind the speaker gate, whole streams, and whole recordings.
  - `devices`, `session`, `recording`, `resample`: sound devices and live sessions.
  - `apo`, `cli`, `hf_fetch`, `models`, `ort_threads`: the audio processing object,
    the command line, and where models come from.
  - `scalar`, `rings`, `text`, `shapes`: what the others build on.
- `tests/` runs the library in `f32` and `f64`.
- `app/` is the program: command line, files, devices, networks.

## Numbers

The library computes with any type `N` that has the four operations, an order and
`From<u16>`. `lawful::<N>()` says that the operations are functions of their
operands, and then the contracts give results exactly; `total::<N>()` says that they
are defined everywhere. What holds of every `N`, such as lengths, orders of events
and what is handed to which network, is stated without either.

Networks, Fourier transforms and the like are closures. A contract says on what a
closure was called and what was made of its reply.
