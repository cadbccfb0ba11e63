//! Speech from text, frame by frame: the prompt, the codes of every frame, and what the talker is
//! given next.
pub mod error;
pub mod feedback;
pub mod laws;
pub mod model;
pub mod residuals;
pub mod route;
pub mod runs;
pub mod session;
pub mod taps;
pub mod text_rows;

pub use self::error::GenerationError;
pub use self::model::{
    causal_mask, CodeFrame, FeedbackTables, FrameStep, ReferencePrompt, TalkerWork, UtteranceStart,
};
pub use self::route::{
    can_prepare_int8_route, hot_elision_from_environment, micro_layers_from_artifact,
    prepare_int8_route, talker_layers_from_artifact, Int8Route, RouteSettings,
};
pub use self::session::{QwenGenerator, QwenGeneratorConfig, UtteranceState};
pub use self::taps::{install_tap_sink, set_taps_enabled, Taps};
pub use self::text_rows::{ColdTextRows, TextEmbeddingWeights};
