//! The persistence format of the label index: a JSON array of strings,
//! pretty-printed. Encoding and decoding go through serde_json behind
//! trusted wrappers; reading and writing the file itself is the caller's
//! job, so these functions work on the file's content as a string.

use vstd::prelude::*;

use crate::errors::Error;
use crate::index::LabelIndex;

verus! {

/// The JSON text that serde_json's pretty printer produces for a label
/// list: a function of the labels alone.
pub uninterp spec fn json_of(labels: Seq<Seq<char>>) -> Seq<char>;

/// The label list that serde_json recovers from a text, if the text parses
/// as a JSON array of strings: a function of the text alone.
pub uninterp spec fn parsed_labels_of(text: Seq<char>) -> Option<Seq<Seq<char>>>;

/// Relies on serde_json::to_string_pretty: the result is the pretty-printed
/// JSON array of the given strings, determined by the strings alone. For a
/// vector of plain strings the call cannot fail — it writes into a byte
/// vector, whose writer is infallible, and its only error sources (a
/// failing Serialize impl, a map with non-string keys) do not arise — so
/// the unwrap never fires.
#[verifier::external_body]
fn to_json_text(labels: &Vec<String>) -> (r: String)
    ensures
        r@ == json_of(labels.deep_view()),
{
    serde_json::to_string_pretty(labels).unwrap()
}

/// Relies on serde_json::from_str::<Vec<String>>: it fails exactly on text
/// that is not a JSON array of strings, its result is determined by the text
/// alone, and it recovers exactly the list that to_string_pretty printed
/// (serde_json round-trips plain data structures).
#[verifier::external_body]
fn from_json_text(text: &str) -> (r: Option<Vec<String>>)
    ensures
        r is Some <==> parsed_labels_of(text@) is Some,
        r is Some ==> r->0.deep_view() == parsed_labels_of(text@)->0,
        forall|labels: Seq<Seq<char>>|
            text@ == #[trigger] json_of(labels) ==> r is Some && r->0.deep_view() == labels,
{
    serde_json::from_str::<Vec<String>>(text).ok()
}

/// Encodes the index for persistence: the JSON text of its labels, in
/// index order. Encoding always succeeds; only writing the text to disk
/// can fail, and that is the caller's step.
pub fn index_to_json(index: &LabelIndex) -> (r: String)
    ensures
        r@ == json_of(index@),
{
    let labels = index.to_labels();
    to_json_text(&labels)
}

/// Decodes persisted index content. `content` is the index file's text, or
/// `None` when no file exists yet: the first run, which yields the empty
/// index rather than an error. Text that does not parse as a JSON array of
/// strings is the one and only `IndexCorrupt` case.
pub fn load_index(content: Option<&String>) -> (r: Result<LabelIndex, Error>)
    ensures
        content is None ==> (r matches Ok(ix) && ix@ == Seq::<Seq<char>>::empty() && ix.wf()),
        content matches Some(text) ==> ((r is Err) <==> parsed_labels_of(text@) is None),
        r is Err ==> r == Err::<LabelIndex, Error>(Error::IndexCorrupt),
        (content matches Some(text) && parsed_labels_of(text@) is Some) ==> (r matches Ok(ix)
            && ix@ == parsed_labels_of(content->0@)->0),
        content matches Some(text) ==> forall|labels: Seq<Seq<char>>|
            text@ == json_of(labels) ==> (r matches Ok(ix) && ix@ == labels),
{
    match content {
        None => Ok(LabelIndex::new()),
        Some(text) => {
            match from_json_text(text.as_str()) {
                Some(labels) => Ok(LabelIndex::from_labels(labels)),
                None => Err(Error::IndexCorrupt),
            }
        },
    }
}

} // verus!
