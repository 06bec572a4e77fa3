use vstd::prelude::*;

verus! {

// ---------------------------------------------------------------------------
// A mathematical model of the generic YAML documents the updater reads.
// The updater only ever looks up string keys in mappings and reads string
// values, so the model keeps exactly that and folds everything else into
// `Other`.
// ---------------------------------------------------------------------------

pub enum YamlModel {
    Text(Seq<char>),
    Mapping(Seq<(Seq<char>, YamlModel)>),
    Other,
}

pub open spec fn lookup_entries(entries: Seq<(Seq<char>, YamlModel)>, key: Seq<char>) -> Option<
    YamlModel,
>
    decreases entries.len(),
{
    if entries.len() == 0 {
        None
    } else if entries[0].0 == key {
        Some(entries[0].1)
    } else {
        lookup_entries(entries.drop_first(), key)
    }
}

pub open spec fn model_lookup(m: YamlModel, key: Seq<char>) -> Option<YamlModel> {
    match m {
        YamlModel::Mapping(entries) => lookup_entries(entries, key),
        _ => None,
    }
}

pub open spec fn lookup_str(m: YamlModel, key: Seq<char>) -> Option<Seq<char>> {
    match model_lookup(m, key) {
        Some(YamlModel::Text(t)) => Some(t),
        _ => None,
    }
}

// ---------------------------------------------------------------------------
// Trusted view of serde_yaml's generic value, and of the calls the updater
// makes into serde_yaml and yaml_split.
// ---------------------------------------------------------------------------

#[verifier::external_type_specification]
#[verifier::external_body]
pub struct ExValue(serde_yaml::Value);

/// The model of a parsed generic value (tags are looked through, as
/// serde_yaml's accessors do).
pub uninterp spec fn yaml_model(v: serde_yaml::Value) -> YamlModel;

/// What serde_yaml::from_str returns on a document: a function of the text alone.
pub uninterp spec fn yaml_parse(s: Seq<char>) -> Option<YamlModel>;

/// Relies on serde_yaml::from_str::<Value>: parses one YAML document into a
/// generic value, deterministically from the text.
#[verifier::external_body]
pub fn parse_yaml_value(s: &str) -> (r: Option<serde_yaml::Value>)
    ensures
        match r {
            Some(v) => yaml_parse(s@) == Some(yaml_model(v)),
            None => yaml_parse(s@) is None,
        },
{
    serde_yaml::from_str::<serde_yaml::Value>(s).ok()
}

/// Relies on serde_yaml::Value::get with a string index: on a mapping it looks
/// the key up, on any other value it returns None.
#[verifier::external_body]
pub fn yaml_get<'a>(v: &'a serde_yaml::Value, key: &str) -> (r: Option<&'a serde_yaml::Value>)
    ensures
        match r {
            Some(sub) => model_lookup(yaml_model(*v), key@) == Some(yaml_model(*sub)),
            None => model_lookup(yaml_model(*v), key@) is None,
        },
{
    v.get(key)
}

/// Relies on serde_yaml::Value::as_str: Some exactly on string values.
#[verifier::external_body]
pub fn yaml_as_str(v: &serde_yaml::Value) -> (r: Option<String>)
    ensures
        match yaml_model(*v) {
            YamlModel::Text(t) => r matches Some(s) && s@ == t,
            _ => r is None,
        },
{
    v.as_str().map(|s| s.to_string())
}

/// How yaml_split separates a multi-document text: a function of the text alone.
pub uninterp spec fn yaml_doc_split(s: Seq<char>) -> Seq<Seq<char>>;

/// Relies on yaml_split::DocumentIterator: splits a text into its YAML
/// documents; over an in-memory reader no read error occurs.
#[verifier::external_body]
pub fn split_yaml_documents(s: &str) -> (r: Vec<String>)
    ensures
        r.deep_view() == yaml_doc_split(s@),
{
    let reader = std::io::BufReader::new(s.as_bytes());
    let mut out: Vec<String> = Vec::new();
    for doc in yaml_split::DocumentIterator::new(reader) {
        match doc {
            Ok(d) => out.push(d),
            Err(_) => {}
        }
    }
    out
}

} // verus!
