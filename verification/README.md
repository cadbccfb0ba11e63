# ftts_model_qwen

The model side of a Qwen3-TTS speech engine: prompt assembly, sampling, the residual-code
microdecoder, the codec decoder, the speaker and speech encoders, checkpoints, the eight-bit route,
and the generator that turns text into code frames. Everything under `src/` is verified with Verus.

## Numbers

No number format is fixed. Kernels are written against `arith::Arithmetic`, a small set of
primitive operations that an engine supplies, and its relatives (`quant::Quantized`,
`storage::Bits`, `sampler::Widens`, `speaker::mel::Spectral`). These traits promise nothing of
their implementations. Shapes, lengths, errors and the absence of panics are proved for every
engine. What a function computes is stated as an expression over the primitives, and proved for
every engine whose primitives are functions of their arguments.

## Layout

- `arith`, `rows`, `kernels`, `quant`, `ranking`, `text`, `ids`: what the rest is built from
- `codec`: the decoder from codes to samples, offline and streaming, and the laws that tie the two
- `microdecoder`: layers, frames, speculative verification and the history drafter
- `talker`: configuration, weights and the rows that enter the talker
- `prompt`, `sampler`: the four prompt geometries and the two selection rules
- `storage`, `tensor_file`, `checkpoint`: stored tensors and what is hydrated from them
- `generate`: the generator, text rows, residual codes, the eight-bit route and seam taps, and the
  laws of whole utterances
- `shapes`: tests of what calls require, for callers that were given their weights
- `speaker`, `speech_encoder`: reference audio to a speaker vector and to codes
- `drafter_ladder`, `surgery`, `af3`: drafters, depth policy and the speculation monitor

The talker's forward pass is the caller's: the generator hands out the rows to run, and takes back
the newest position's hidden state and logits.

`tests/` runs the library in single and double precision. `app/` holds the engines, the process
environment, files and the loop that runs a talker.
