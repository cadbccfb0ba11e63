//! A verified core for the Qwen3-TTS engine.
pub mod arith;
pub mod algebra;
pub mod rows;
pub mod kernels;
pub mod kernel_laws;
pub mod codec;
pub mod quant;
pub mod ranking;
pub mod microdecoder;
pub mod talker;
pub mod tensor_file;
pub mod text;
pub mod prompt;
pub mod prompt_laws;
pub mod sampler;
pub mod sampler_laws;
pub mod storage;
pub mod storage_laws;
pub mod ids;
pub mod checkpoint;
pub mod generate;
pub mod shapes;
pub mod speaker;
pub mod speech_encoder;
pub mod drafter_ladder;
pub mod surgery;
pub mod af3;
pub mod policy_laws;
