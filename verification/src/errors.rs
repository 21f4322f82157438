use vstd::prelude::*;

verus! {

/// Errors from parsing manifest text into an `M3U` document.
#[derive(Clone, Copy, Debug, PartialEq, Eq)]
pub enum ParseError {
    /// The first line is not the required header tag.
    MissingHeader,
    /// A directive line holds no `:` separator.
    MalformedDirective,
    /// The comma-separated attribute list of a directive could not be read.
    MalformedAttributeList,
    /// Input ended while a continuation line (a URL or segment name) was expected.
    UnexpectedEof,
    /// The document is neither a master nor a media playlist.
    InvalidClassification,
}

/// Errors from decrypting one segment buffer.
#[derive(Clone, Copy, Debug, PartialEq, Eq)]
pub enum DecryptError {
    /// The configured key or IV is not exactly one cipher block long.
    InvalidKeyIvLength,
    /// The ciphertext length is not a multiple of the cipher block size.
    InvalidCiphertextLength,
    /// The padding bytes at the end of the plaintext are inconsistent.
    InvalidPadding,
}

/// Errors from combining playlist documents into a `SchoolismVideoList`.
#[derive(Clone, Copy, Debug, PartialEq, Eq)]
pub enum ResolveError {
    /// The chosen media playlist carries no key directive.
    MissingKeyInfo,
    /// The IV is not valid hexadecimal (odd length or a non-hex character).
    InvalidHexEncoding,
    /// The first variant URL holds no `/`, so no base URL can be derived.
    InvalidBaseUrl,
    /// The requested variant index is past the end of the variant list.
    VariantIndexOutOfRange,
}

/// Errors from the bracket-matching substring search.
#[derive(Clone, Copy, Debug, PartialEq, Eq)]
pub enum BracketError {
    /// The requested opener is not one of `[`, `(` or `{`.
    UnsupportedOpener,
    /// A closer was seen before any opener.
    CloserBeforeOpener,
    /// The input holds no bracket of the requested kind.
    NoBrackets,
    /// Input ended with brackets still open.
    MismatchedBrackets,
}

/// Errors from extracting playlist URLs out of a lesson page.
#[derive(Clone, Copy, Debug, PartialEq, Eq)]
pub enum ExtractError {
    /// The marker that introduces the video list is absent from the page.
    VideoListNotFound,
    /// The video list array could not be delimited.
    BracketSearch(BracketError),
}

/// The first fatal failure of a download job, with the segment it struck.
#[derive(Clone, Copy, Debug, PartialEq, Eq)]
pub enum PipelineError {
    /// The fetch of this segment failed.
    Fetch { segment: usize },
    /// The decryption of this segment failed.
    Decrypt { segment: usize, cause: DecryptError },
}

} // verus!
