//! Errors: what went wrong, which option field it concerns, and a message.

use vstd::prelude::*;

verus! {

/// What kind of failure an error is.
#[derive(Clone, Copy, Debug, PartialEq, Eq, Structural)]
pub enum Class {
    /// A request that the server does not take.
    BadRequest,
    /// Something that the server does not have.
    NotFound,
    /// A value the call does not accept.
    InvalidArgument,
    /// A shape that does not fit.
    InvalidShape,
    /// A call out of order.
    InvalidState,
    /// Something the provider does not offer.
    Unsupported,
    /// An option the provider does not offer; the message is the option's name.
    UnsupportedOption,
    /// A task the provider does not offer.
    UnsupportedTask,
    /// A modality the provider does not offer.
    UnsupportedModality,
    /// An element type the provider does not offer.
    UnsupportedDtype,
    /// A memory placement the provider does not offer.
    UnsupportedPlacement,
    /// More than what was made room for.
    Capacity,
    /// No memory left.
    OutOfMemory,
    /// No such device.
    DeviceNotFound,
    /// A device that cannot be used.
    DeviceUnavailable,
    /// A failure of the runtime below.
    Runtime,
    /// No such file or model.
    BundleNotFound,
    /// A bundle that contradicts itself.
    BundleInvalid,
    /// A bundle whose files are not what it says.
    BundleIntegrity,
    /// A bundle without the artifact asked for.
    BundleNoArtifact,
    /// Something not written.
    NotImplemented,
    /// A fault of the library itself.
    Internal,
}

/// The option field an error concerns.
#[derive(Clone, Copy, Debug, PartialEq, Eq, Structural)]
pub enum Field {
    /// None.
    Unset,
    /// A field known by its one-based number.
    Number(u32),
    /// `output_dtype` of the embedding options.
    EmbedOutputDtype,
    /// `output_dim` of the embedding options.
    EmbedOutputDim,
    /// `pooling` of the embedding options.
    EmbedPooling,
    /// `truncate` of the embedding options.
    EmbedTruncate,
    /// `max_tokens` of the embedding options.
    EmbedMaxTokens,
    /// `prompt_role` of the embedding options.
    EmbedPromptRole,
    /// `normalize` of the embedding options.
    EmbedNormalize,
    /// `truncate` of the reranking options.
    RerankTruncate,
    /// `max_tokens` of the reranking options.
    RerankMaxTokens,
    /// `top_n` of the reranking options.
    RerankTopN,
    /// `raw_scores` of the reranking options.
    RerankRawScores,
    /// `max_tokens` of the classification options.
    ClassifyMaxTokens,
    /// `aggregation` of the classification options.
    ClassifyAggregation,
    /// `raw_scores` of the classification options.
    ClassifyRawScores,
    /// `max_new_tokens` of a generation.
    GenerateMaxNewTokens,
    /// `min_new_tokens` of a generation.
    GenerateMinNewTokens,
    /// `temperature` of a generation.
    GenerateTemperature,
    /// `top_p` of a generation.
    GenerateTopP,
    /// `top_k` of a generation.
    GenerateTopK,
    /// `repeat_penalty` of a generation.
    GenerateRepeatPenalty,
    /// `n_sequences` of a generation.
    GenerateSequences,
    /// `n_tools` of a generation.
    GenerateTools,
    /// `structured_kind` of a generation.
    GenerateStructuredKind,
    /// `n_logit_bias` of a generation.
    GenerateLogitBias,
    /// `logprobs` of a generation.
    GenerateLogprobs,
    /// `seed` of a generation.
    GenerateSeed,
}

/// An error.
#[derive(Debug)]
pub struct Error {
    /// What kind of failure.
    pub class: Class,
    /// The option field concerned.
    pub field: Field,
    /// What to tell the caller.
    pub message: String,
}

/// An error with its message as characters.
pub struct ErrorView {
    pub class: Class,
    pub field: Field,
    pub message: Seq<char>,
}

impl View for Error {
    type V = ErrorView;

    open spec fn view(&self) -> ErrorView {
        ErrorView { class: self.class, field: self.field, message: self.message@ }
    }
}

/// An error that concerns no field.
pub open spec fn plain(class: Class, message: Seq<char>) -> ErrorView {
    ErrorView { class, field: Field::Unset, message }
}

/// An error that concerns a field.
pub open spec fn on_field(class: Class, field: Field, message: Seq<char>) -> ErrorView {
    ErrorView { class, field, message }
}

impl Error {
    /// An error that concerns no field.
    pub fn plain(class: Class, message: String) -> (r: Error)
        ensures
            r@ == plain(class, message@),
    {
        Error { class, field: Field::Unset, message }
    }

    /// An error that concerns a field.
    pub fn on_field(class: Class, field: Field, message: String) -> (r: Error)
        ensures
            r@ == on_field(class, field, message@),
    {
        Error { class, field, message }
    }

    /// An error with a fixed message.
    pub fn say(class: Class, message: &str) -> (r: Error)
        ensures
            r@ == plain(class, message@),
    {
        Error { class, field: Field::Unset, message: message.to_owned() }
    }
}

/// Whether a result is what a contract says it is: the same success, or the same error.
pub open spec fn agrees<T: View>(r: Result<T, Error>, want: Result<T::V, ErrorView>) -> bool {
    match want {
        Ok(v) => r is Ok && r->Ok_0@ == v,
        Err(e) => r is Err && r->Err_0@ == e,
    }
}

/// `agrees` for a value that is its own view.
pub open spec fn agrees_plain<T>(r: Result<T, Error>, want: Result<T, ErrorView>) -> bool {
    match want {
        Ok(v) => r is Ok && r->Ok_0 == v,
        Err(e) => r is Err && r->Err_0@ == e,
    }
}

} // verus!
