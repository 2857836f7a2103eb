use vstd::prelude::*;

verus! {

/// A JSON value that is not a container.
pub enum JsonScalar {
    Bool(bool),
    Number(u64),
    Str(String),
}

/// The mathematical value of a JSON scalar.
pub enum JsonScalarView {
    Bool(bool),
    Number(u64),
    Str(Seq<char>),
}

impl View for JsonScalar {
    type V = JsonScalarView;

    open spec fn view(&self) -> JsonScalarView {
        match self {
            JsonScalar::Bool(b) => JsonScalarView::Bool(*b),
            JsonScalar::Number(n) => JsonScalarView::Number(*n),
            JsonScalar::Str(s) => JsonScalarView::Str(s@),
        }
    }
}

/// A flat JSON object: its fields, keys paired with scalar values, in order.
pub struct JsonObject {
    pub fields: Vec<(String, JsonScalar)>,
}

impl View for JsonObject {
    type V = Seq<(Seq<char>, JsonScalarView)>;

    open spec fn view(&self) -> Seq<(Seq<char>, JsonScalarView)> {
        self.fields@.map_values(|f: (String, JsonScalar)| (f.0@, f.1@))
    }
}

/// The pretty-printed JSON text of a flat object with the given fields.
pub uninterp spec fn pretty_object_of(fields: Seq<(Seq<char>, JsonScalarView)>) -> Seq<char>;

/// Converts the object, field for field, into a `serde_json::Value` object
/// and pretty-prints it with `serde_json::to_string_pretty`. The contract only
/// ties the text to the fields by a name.
#[verifier::external_body]
pub(crate) fn pretty_object(obj: &JsonObject) -> (r: String)
    ensures
        r@ == pretty_object_of(obj@),
{
    let mut m = serde_json::Map::new();
    for (k, v) in obj.fields.iter() {
        let value = match v {
            JsonScalar::Bool(b) => serde_json::Value::Bool(*b),
            JsonScalar::Number(n) => serde_json::Value::from(*n),
            JsonScalar::Str(s) => serde_json::Value::String(s.clone()),
        };
        m.insert(k.clone(), value);
    }
    serde_json::to_string_pretty(&serde_json::Value::Object(m)).unwrap_or_default()
}

/// The fields of the detection report for a payload shown as `payload` and
/// `len` bytes long, with keys in sorted order: `bytes`, `mode` ("detected"),
/// `ok` (true), `payload`.
pub open spec fn report_fields(payload: Seq<char>, len: u64) -> Seq<(Seq<char>, JsonScalarView)> {
    seq![
        ("bytes"@, JsonScalarView::Number(len)),
        ("mode"@, JsonScalarView::Str("detected"@)),
        ("ok"@, JsonScalarView::Bool(true)),
        ("payload"@, JsonScalarView::Str(payload)),
    ]
}

/// The detection report object for a payload shown as `payload` and `len`
/// bytes long.
pub fn detect_report(payload: String, len: u64) -> (obj: JsonObject)
    ensures
        obj@ == report_fields(payload@, len),
{
    let mut fields: Vec<(String, JsonScalar)> = Vec::new();
    fields.push((String::from_str("bytes"), JsonScalar::Number(len)));
    fields.push((String::from_str("mode"), JsonScalar::Str(String::from_str("detected"))));
    fields.push((String::from_str("ok"), JsonScalar::Bool(true)));
    let ghost p = payload@;
    fields.push((String::from_str("payload"), JsonScalar::Str(payload)));
    let obj = JsonObject { fields };
    assert(obj@ =~= report_fields(p, len));
    obj
}

} // verus!
