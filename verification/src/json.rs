//! JSON objects as text.

use vstd::prelude::*;

verus! {

/// The compact JSON text of an object with these fields.
pub uninterp spec fn object_text(
    texts: Seq<(Seq<char>, Seq<char>)>,
    flags: Seq<(Seq<char>, bool)>,
) -> Seq<char>;

/// `serde_json::Value::to_string` on the object whose fields are the texts and
/// then the flags, a later field taking the place of an earlier one of the same
/// name. Claimed is that the text depends on these fields alone; what it is, is
/// left to `serde_json`.
#[verifier::external_body]
pub(crate) fn object_to_string(texts: Vec<(String, String)>, flags: Vec<(String, bool)>) -> (r:
    String)
    ensures
        r@ == object_text(texts.deep_view(), flags.deep_view()),
{
    let mut fields: serde_json::Map<String, serde_json::Value> =
        texts.into_iter().map(|(k, v)| (k, v.into())).collect();
    fields.extend(flags.into_iter().map(|(k, v)| (k, v.into())));
    serde_json::Value::Object(fields).to_string()
}

} // verus!
