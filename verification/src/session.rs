//! The session controller's decisions: loading the document, the
//! no-changes gate before the review, and restoring the original file's
//! line-ending convention for the commit.

use vstd::prelude::*;

use crate::diff::{spec_summary, summarize_changes};
use crate::doc::{doc_text, doc_to_string, has_dotted_key, parse_doc, parse_doc_ok, parsed_text};
use crate::text::{
    has_crlf, normalize_line_endings, spec_has_crlf, spec_normalize, spec_to_crlf, to_crlf,
};

verus! {

/// What the review gate decided: nothing changed and the session aborts
/// cleanly without writing, or the operator must confirm the change list.
pub enum ReviewOutcome {
    NoChanges,
    Confirm(Vec<String>),
}

/// Parses the configuration document; `None` is the fatal malformed-file
/// condition. The parsed document serializes back to the loaded text
/// unchanged — so an untouched session preserves the file byte for byte —
/// for every text ending in a line break, not beginning with a byte-order
/// mark, and writing no key in dotted form, the three layout details the
/// document tree does not keep.
pub fn load_document(text: &str) -> (r: Option<toml_edit::DocumentMut>)
    ensures
        r is Some <==> parse_doc_ok(text@),
        r is Some ==> doc_text(r->0) == parsed_text(text@),
        r is Some && text@.len() > 0 && text@.last() == '\n' && text@[0] != '\u{feff}'
            && !has_dotted_key(text@) ==> doc_text(r->0) == text@,
{
    parse_doc(text)
}

/// Serializes the working document for review and commit.
pub fn render_document(d: &toml_edit::DocumentMut) -> (r: String)
    ensures
        r@ == doc_text(*d),
{
    doc_to_string(d)
}

/// Detects the original file's line-ending convention.
pub fn detect_crlf(text: &str) -> (r: bool)
    ensures
        r == spec_has_crlf(text@),
{
    has_crlf(text)
}

/// Whether the session changed nothing: the two serialized texts are equal
/// once line endings are normalized.
pub open spec fn spec_no_changes(original_text: Seq<char>, working_text: Seq<char>) -> bool {
    spec_normalize(original_text) == spec_normalize(working_text)
}

/// The review gate: when the working document's rendered text matches the
/// loaded file text (up to line endings) the session aborts without
/// writing; otherwise the operator is shown the change list and asked to
/// confirm.
pub fn review(
    original_text: &str,
    original: &toml_edit::DocumentMut,
    working: &toml_edit::DocumentMut,
) -> (r: ReviewOutcome)
    ensures
        r is NoChanges <==> spec_no_changes(original_text@, doc_text(*working)),
        r matches ReviewOutcome::Confirm(changes) ==> changes.deep_view() == spec_summary(
            *original,
            *working,
        ),
{
    let tw = doc_to_string(working);
    let no = normalize_line_endings(original_text);
    let nw = normalize_line_endings(tw.as_str());
    if no == nw {
        ReviewOutcome::NoChanges
    } else {
        ReviewOutcome::Confirm(summarize_changes(original, working))
    }
}

/// The text written at commit: the rendered document, with the original
/// file's CRLF convention reapplied uniformly when the source used it.
pub fn commit_text(rendered: &str, use_crlf: bool) -> (r: String)
    ensures
        use_crlf ==> r@ == spec_to_crlf(spec_normalize(rendered@)),
        !use_crlf ==> r@ == rendered@,
{
    if use_crlf {
        let lf = normalize_line_endings(rendered);
        to_crlf(lf.as_str())
    } else {
        rendered.to_owned()
    }
}

/// The law of the untouched session: when no field editor and no integrity
/// pass mutation touched the working document, it still serializes to the
/// loaded text (the round-trip guarantee of `load_document`), the review
/// gate reports no changes, and the controller aborts before ever reaching
/// the write path — the write is only made on a confirmed change list.
pub proof fn lemma_untouched_session_aborts(text: Seq<char>, working: toml_edit::DocumentMut)
    requires
        doc_text(working) == text,
    ensures
        spec_no_changes(text, doc_text(working)),
{
}

} // verus!
