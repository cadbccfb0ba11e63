//! Why generation stops.
use vstd::prelude::*;
use vstd::string::StringExecFns;
use crate::prompt::PromptError;
use crate::sampler::SamplerError;
use crate::text;
use crate::text::append_decimal;

verus! {

/// Why a call on a generator failed.
#[derive(Clone, Debug, PartialEq, Eq)]
pub enum GenerationError {
    /// A continuation was asked of a prompt that cannot be continued.
    ContinuationRejected,
    /// A token of the prompt has no embedding at hand.
    UngatheredToken {
        /// The token.
        id: u32,
    },
    /// A given prompt is not that many rows.
    PrefillShape {
        /// Width of a row.
        hidden: usize,
        /// Values given.
        values: usize,
        /// Rows claimed.
        seq: usize,
    },
    /// Something was asked of an utterance before there was one.
    NotBegun {
        /// The call.
        call: &'static str,
    },
    /// Text was appended after the last frame.
    AppendAfterEos,
    /// Text was appended to an utterance that takes no more.
    AppendToFresh,
    /// Text was appended after its end was announced.
    AppendAfterFinish,
    /// The end of text was announced where it was known from the start.
    FinishFresh,
    /// The end of text was announced twice.
    FinishTwice,
    /// Appended text reaches tokens that nothing supplies.
    NoColdRows {
        /// How many tokens.
        count: usize,
        /// The smallest of them.
        first: u32,
    },
    /// The source returned other data than tokens and rows.
    ColdRowShape {
        /// Rows that the data would make.
        rows: usize,
        /// Tokens returned.
        ids: usize,
        /// Width of a row.
        width: usize,
    },
    /// The source left out a token it was asked for.
    ColdRowMissing {
        /// The token.
        id: u32,
    },
    /// The talker has not yet answered what it was given.
    TalkerPending,
    /// The prompt could not be assembled.
    Prompt(PromptError),
    /// No code could be selected.
    Sampler(SamplerError),
    /// The cold-row source failed, in its own words.
    Source(String),
}

impl GenerationError {
    /// The message of an error.
    pub open spec fn text(&self) -> Seq<char> {
        match self {
            GenerationError::ContinuationRejected => "continuations require streaming x-vector assembly; ICL and non-streaming prompts reject them"@,
            GenerationError::UngatheredToken { id } => "text token "@ + text::decimal_of(*id as nat) + " was not gathered into the compact embedding table; the utterance id set must cover every id the prompt can reach, or a cold-row source must be attached for continuation appends"@,
            GenerationError::PrefillShape { hidden, values, seq } => "prefill must be a non-empty [seq, "@ + text::decimal_of(*hidden as nat) + "] buffer; got "@ + text::decimal_of(*values as nat) + " values for seq "@ + text::decimal_of(*seq as nat),
            GenerationError::NotBegun { call } => call@ + " called before begin_utterance"@,
            GenerationError::AppendAfterEos => "append_text after the model emitted codec EOS; the utterance is over"@,
            GenerationError::AppendToFresh => "append_text on a fresh utterance whose terminal EOS already rode in the prompt"@,
            GenerationError::AppendAfterFinish => "append_text after finish_text: the terminal EOS is already reachable"@,
            GenerationError::FinishFresh => "finish_text on a fresh utterance: its terminal EOS was never held back"@,
            GenerationError::FinishTwice => "finish_text called twice on one utterance"@,
            GenerationError::NoColdRows { count, first } => "append reaches "@ + text::decimal_of(*count as nat) + " text id(s) outside the gathered table (first: "@ + text::decimal_of(*first as nat) + ") and no cold-row source is attached; construct the generator with `cold_rows` to support continuation appends over the open vocabulary"@,
            GenerationError::ColdRowShape { rows, ids, width } => "cold-row source returned "@ + text::decimal_of(*rows as nat) + " rows worth of data for "@ + text::decimal_of(*ids as nat) + " ids at width "@ + text::decimal_of(*width as nat),
            GenerationError::ColdRowMissing { id } => "cold-row source did not cover text id "@ + text::decimal_of(*id as nat),
            GenerationError::TalkerPending => "next_frame called before the talker answered the last input"@,
            GenerationError::Prompt(error) => error.text(),
            GenerationError::Sampler(error) => error.text(),
            GenerationError::Source(message) => message@,
        }
    }

    /// The message of an error.
    pub fn message(&self) -> (message: String)
        ensures
            message@ == self.text(),
    {
        match self {
            GenerationError::ContinuationRejected => String::from_str("continuations require streaming x-vector assembly; ICL and non-streaming prompts reject them"),
            GenerationError::UngatheredToken { id } => {
                let mut message = String::from_str("text token ");
                append_decimal(&mut message, *id as usize);
                message.append(" was not gathered into the compact embedding table; the utterance id set must cover every id the prompt can reach, or a cold-row source must be attached for continuation appends");
                message
            },
            GenerationError::PrefillShape { hidden, values, seq } => {
                let mut message = String::from_str("prefill must be a non-empty [seq, ");
                append_decimal(&mut message, *hidden);
                message.append("] buffer; got ");
                append_decimal(&mut message, *values);
                message.append(" values for seq ");
                append_decimal(&mut message, *seq);
                message
            },
            GenerationError::NotBegun { call } => {
                let mut message = String::from_str(call);
                message.append(" called before begin_utterance");
                message
            },
            GenerationError::AppendAfterEos => String::from_str("append_text after the model emitted codec EOS; the utterance is over"),
            GenerationError::AppendToFresh => String::from_str("append_text on a fresh utterance whose terminal EOS already rode in the prompt"),
            GenerationError::AppendAfterFinish => String::from_str("append_text after finish_text: the terminal EOS is already reachable"),
            GenerationError::FinishFresh => String::from_str("finish_text on a fresh utterance: its terminal EOS was never held back"),
            GenerationError::FinishTwice => String::from_str("finish_text called twice on one utterance"),
            GenerationError::NoColdRows { count, first } => {
                let mut message = String::from_str("append reaches ");
                append_decimal(&mut message, *count);
                message.append(" text id(s) outside the gathered table (first: ");
                append_decimal(&mut message, *first as usize);
                message.append(") and no cold-row source is attached; construct the generator with `cold_rows` to support continuation appends over the open vocabulary");
                message
            },
            GenerationError::ColdRowShape { rows, ids, width } => {
                let mut message = String::from_str("cold-row source returned ");
                append_decimal(&mut message, *rows);
                message.append(" rows worth of data for ");
                append_decimal(&mut message, *ids);
                message.append(" ids at width ");
                append_decimal(&mut message, *width);
                message
            },
            GenerationError::ColdRowMissing { id } => {
                let mut message = String::from_str("cold-row source did not cover text id ");
                append_decimal(&mut message, *id as usize);
                message
            },
            GenerationError::TalkerPending => String::from_str("next_frame called before the talker answered the last input"),
            GenerationError::Prompt(error) => error.message(),
            GenerationError::Sampler(error) => error.message(),
            GenerationError::Source(message) => String::from_str(message.as_str()),
        }
    }
}

} // verus!
