//! JSON objects of plain values.
use vstd::prelude::*;

verus! {

/// A plain value in a JSON object.
#[derive(Debug, PartialEq, Eq)]
pub enum Scalar {
    /// `true` or `false`.
    Flag(bool),
    /// A number.
    Integer(i64),
    /// A string.
    Text(String),
}

/// A [`Scalar`] with its text as a sequence of characters.
pub enum ScalarView {
    /// `true` or `false`.
    Flag(bool),
    /// A number.
    Integer(i64),
    /// A string.
    Text(Seq<char>),
}

impl DeepView for Scalar {
    type V = ScalarView;

    open spec fn deep_view(&self) -> ScalarView {
        match self {
            Scalar::Flag(b) => ScalarView::Flag(*b),
            Scalar::Integer(n) => ScalarView::Integer(*n),
            Scalar::Text(s) => ScalarView::Text(s@),
        }
    }
}

/// What `serde_json` writes for an object with these fields, in its compact
/// format.
pub uninterp spec fn object_text(fields: Seq<(Seq<char>, ScalarView)>) -> Seq<char>;

/// Write an object with these fields, given one after the other, as compact
/// JSON.
///
/// The `Display` of `serde_json::Value`, on an object built by
/// `serde_json::Map::insert`. It is claimed that the text depends on the fields
/// alone; nothing is claimed of how the text looks.
#[verifier::external_body]
pub(crate) fn write_object(fields: Vec<(String, Scalar)>) -> (r: String)
    ensures
        r@ == object_text(fields.deep_view()),
{
    let mut object = serde_json::Map::new();
    for (key, value) in fields {
        let value = match value {
            Scalar::Flag(b) => serde_json::Value::from(b),
            Scalar::Integer(n) => serde_json::Value::from(n),
            Scalar::Text(s) => serde_json::Value::from(s),
        };
        object.insert(key, value);
    }
    serde_json::Value::Object(object).to_string()
}

} // verus!
