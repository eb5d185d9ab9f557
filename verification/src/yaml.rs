//! A YAML document as plain values, and the lookups the Compose file check
//! reads: a mapping's entry by string key, through any tags.
use vstd::prelude::*;
use vstd::string::StringExecFns;

verus! {

/// A YAML value. A mapping keeps its entries in the order the parser gave
/// them; a tagged value keeps the value under the tag, not the tag's name.
#[derive(Debug)]
pub enum YamlValue {
    Null,
    Bool(bool),
    Number,
    Str(String),
    Sequence(Vec<YamlValue>),
    Mapping(Vec<(YamlValue, YamlValue)>),
    Tagged(Box<YamlValue>),
}

/// `serde_yaml::Value`, which the parse below produces and converts.
#[verifier::external_type_specification]
#[verifier::external_body]
pub struct ExYamlDocument(serde_yaml::Value);

/// What `serde_yaml::from_str::<serde_yaml::Value>` makes of `source`, as a
/// `YamlValue`, or the message of the error it reports.
pub uninterp spec fn yaml_document(source: Seq<char>) -> Result<YamlValue, Seq<char>>;

/// Converts a parsed `serde_yaml::Value` variant by variant: numbers become
/// `Number`, a tagged value `Tagged` holding its converted value.
#[verifier::external_body]
fn yaml_model(value: serde_yaml::Value) -> YamlValue {
    match value {
        serde_yaml::Value::Null => YamlValue::Null,
        serde_yaml::Value::Bool(flag) => YamlValue::Bool(flag),
        serde_yaml::Value::Number(_) => YamlValue::Number,
        serde_yaml::Value::String(text) => YamlValue::Str(text),
        serde_yaml::Value::Sequence(items) => YamlValue::Sequence(items.into_iter().map(yaml_model).collect()),
        serde_yaml::Value::Mapping(entries) => YamlValue::Mapping(
            entries.into_iter().map(|(key, item)| (yaml_model(key), yaml_model(item))).collect(),
        ),
        serde_yaml::Value::Tagged(tagged) => YamlValue::Tagged(Box::new(yaml_model(tagged.value))),
    }
}

/// Calls `serde_yaml::from_str::<serde_yaml::Value>` and converts the
/// document, an error becoming its message. Trusted: the result is the
/// crate's parse of `source`, named `yaml_document`.
#[verifier::external_body]
pub(crate) fn parse_yaml(source: &str) -> (r: Result<YamlValue, String>)
    ensures
        r matches Ok(v) ==> yaml_document(source@) is Ok && yaml_document(source@)->Ok_0 == v,
        r matches Err(e) ==> yaml_document(source@) is Err && yaml_document(source@)->Err_0 == e@,
{
    match serde_yaml::from_str::<serde_yaml::Value>(source) {
        Ok(value) => Ok(yaml_model(value)),
        Err(e) => Err(e.to_string()),
    }
}

/// The value under any tags.
pub open spec fn untagged(v: YamlValue) -> YamlValue
    decreases v,
{
    match v {
        YamlValue::Tagged(inner) => untagged(*inner),
        _ => v,
    }
}

/// The value of the first entry among `entries` whose key is the string `key`.
pub open spec fn entry(entries: Seq<(YamlValue, YamlValue)>, key: Seq<char>) -> Option<YamlValue>
    decreases entries.len(),
{
    if entries.len() == 0 {
        None
    } else if entries[0].0 matches YamlValue::Str(k) && k@ == key {
        Some(entries[0].1)
    } else {
        entry(entries.drop_first(), key)
    }
}

/// `Value::get(key)`: the entry under the string `key` of a mapping, looked
/// for under any tags; `None` for any other value.
pub open spec fn yaml_get(v: YamlValue, key: Seq<char>) -> Option<YamlValue> {
    match untagged(v) {
        YamlValue::Mapping(entries) => entry(entries@, key),
        _ => None,
    }
}

/// How many entries a value holds when it is a mapping, under any tags.
pub open spec fn mapping_len(v: YamlValue) -> Option<nat> {
    match untagged(v) {
        YamlValue::Mapping(entries) => Some(entries@.len()),
        _ => None,
    }
}

/// The value under any tags.
pub fn untag(v: &YamlValue) -> (r: &YamlValue)
    ensures
        *r == untagged(*v),
    decreases v,
{
    match v {
        YamlValue::Tagged(inner) => untag(inner),
        _ => v,
    }
}

/// Looks up the entry under the string `key` of a mapping.
pub fn get<'a>(v: &'a YamlValue, key: &str) -> (r: Option<&'a YamlValue>)
    ensures
        match yaml_get(*v, key@) {
            Some(found) => r is Some && *r->0 == found,
            None => r is None,
        },
{
    let u = untag(v);
    match u {
        YamlValue::Mapping(entries) => {
            assert(yaml_get(*v, key@) == entry(entries@, key@));
            let wanted = String::from_str(key);
            let n = entries.len();
            let mut i: usize = 0;
            assert(entries@.skip(0) =~= entries@);
            while i < n
                invariant
                    i <= n == entries@.len(),
                    wanted@ == key@,
                    entry(entries@, key@) == entry(entries@.skip(i as int), key@),
                    yaml_get(*v, key@) == entry(entries@, key@),
                decreases n - i,
            {
                assert(entries@.skip(i as int)[0] == entries@[i as int]);
                assert(entries@.skip(i as int).drop_first() =~= entries@.skip(i + 1));
                if let YamlValue::Str(k) = &entries[i].0 {
                    if *k == wanted {
                        assert(entry(entries@.skip(i as int), key@) == Some(entries@[i as int].1));
                        return Some(&entries[i].1);
                    }
                }
                i = i + 1;
            }
            None
        },
        _ => None,
    }
}

/// How many entries a mapping holds, under any tags; `None` for any other value.
pub fn mapping_size(v: &YamlValue) -> (r: Option<usize>)
    ensures
        match r {
            Some(k) => mapping_len(*v) == Some(k as nat),
            None => mapping_len(*v) is None,
        },
{
    match untag(v) {
        YamlValue::Mapping(entries) => Some(entries.len()),
        _ => None,
    }
}

} // verus!
