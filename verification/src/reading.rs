//! From the result of one read attempt on the pipe to the text it brought.

use vstd::prelude::*;
use vstd::utf8::{decode_utf8, valid_utf8};

verus! {

/// What one read attempt on the child's output gave, as plain values.
#[derive(Debug)]
pub enum ReadOutcome {
    /// The read reached the end of the stream. It brought this text, or
    /// nothing when no stream was captured.
    Finished(Option<String>),
    /// The read stopped before the end of the stream, because no more was
    /// available or because it failed. It brought these bytes, if any.
    Interrupted(Option<Vec<u8>>),
}

/// The text that a read attempt contributes to the stream. Bytes of an
/// interrupted read count only when all of them decode as UTF-8.
pub open spec fn chunk_of(outcome: ReadOutcome) -> Seq<char> {
    match outcome {
        ReadOutcome::Finished(Some(text)) => text@,
        ReadOutcome::Finished(None) => Seq::empty(),
        ReadOutcome::Interrupted(Some(bytes)) => if valid_utf8(bytes@) {
            decode_utf8(bytes@)
        } else {
            Seq::empty()
        },
        ReadOutcome::Interrupted(None) => Seq::empty(),
    }
}

/// `String::from_utf8` turns the bytes into a string exactly when they are
/// valid UTF-8, and the string then holds the characters that they encode;
/// here its error is dropped.
#[verifier::external_body]
fn text_of_bytes(bytes: Vec<u8>) -> (text: Option<String>)
    ensures
        text is Some <==> valid_utf8(bytes@),
        text matches Some(decoded) ==> decoded@ == decode_utf8(bytes@),
{
    String::from_utf8(bytes).ok()
}

/// Returns the text that a read attempt contributes to the stream. An
/// attempt that brought nothing, or bytes that are no text, contributes the
/// empty text; it never fails.
pub fn chunk_text(outcome: ReadOutcome) -> (text: String)
    ensures
        text@ == chunk_of(outcome),
{
    match outcome {
        ReadOutcome::Finished(Some(text)) => text,
        ReadOutcome::Finished(None) => String::new(),
        ReadOutcome::Interrupted(Some(bytes)) => {
            match text_of_bytes(bytes) {
                Some(text) => text,
                None => String::new(),
            }
        },
        ReadOutcome::Interrupted(None) => String::new(),
    }
}

} // verus!
