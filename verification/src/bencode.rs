use serde_bencode::value::Value;
use vstd::prelude::*;

verus! {

/// What a value of the wire format holds: an integer, a string of bytes, a list of
/// values, or a dictionary from byte strings to values.
pub enum Tree {
    Integer(int),
    Bytes(Seq<u8>),
    List(Seq<Tree>),
    Dict(Map<Seq<u8>, Tree>),
}

/// `serde_bencode::value::Value`, the crate's own type for a value of the wire format.
/// Nothing inside it is seen here; what it holds is told by [`value_tree`].
#[verifier::external_type_specification]
#[verifier::external_body]
pub struct ExValue(serde_bencode::value::Value);

/// `serde_bencode::Error`, the error of the crate's functions. Nothing of it is seen here.
#[verifier::external_type_specification]
#[verifier::external_body]
pub struct ExEncodeError(serde_bencode::Error);

/// What the `serde_bencode` value `value` holds: for `Value::Int` its integer, for
/// `Value::Bytes` its bytes, for `Value::List` what its items hold, in order, and for
/// `Value::Dict` what its map's values hold, each under its key.
pub uninterp spec fn value_tree(value: Value) -> Tree;

/// The bytes that `serde_bencode::to_bytes` writes for a value that holds `tree`, or
/// `None` where it returns an error for such a value.
pub uninterp spec fn bencoding(tree: Tree) -> Option<Seq<u8>>;

/// What each value of a list holds.
pub open spec fn trees(values: Seq<Value>) -> Seq<Tree> {
    values.map_values(|value: Value| value_tree(value))
}

/// The dictionary that the entries make, each key with what its value holds.
pub open spec fn dict_of(entries: Seq<(Vec<u8>, Value)>) -> Map<Seq<u8>, Tree>
    decreases entries.len(),
{
    if entries.len() == 0 {
        Map::empty()
    } else {
        dict_of(entries.drop_last()).insert(entries.last().0@, value_tree(entries.last().1))
    }
}

/// Whether no key occurs twice among the entries.
pub open spec fn distinct_keys(entries: Seq<(Vec<u8>, Value)>) -> bool {
    forall|i: int, j: int| 0 <= i < j < entries.len() ==> entries[i].0@ != entries[j].0@
}

/// Makes the variant `Value::Int` of `number`. The contract says that the value holds
/// that integer.
#[verifier::external_body]
pub(crate) fn value_int(number: i64) -> (value: Value)
    ensures
        value_tree(value) == Tree::Integer(number as int),
{
    Value::Int(number)
}

/// Makes the variant `Value::Bytes` of `bytes`. The contract says that the value holds
/// those bytes.
#[verifier::external_body]
pub(crate) fn value_bytes(bytes: Vec<u8>) -> (value: Value)
    ensures
        value_tree(value) == Tree::Bytes(bytes@),
{
    Value::Bytes(bytes)
}

/// Makes the variant `Value::List` of `items`. The contract says that the value holds
/// the list of what the items hold, in their order.
#[verifier::external_body]
pub(crate) fn value_list(items: Vec<Value>) -> (value: Value)
    ensures
        value_tree(value) == Tree::List(trees(items@)),
{
    Value::List(items)
}

/// Makes the variant `Value::Dict` of the hash map that `collect` makes of `entries`. The
/// contract says that the value holds each key with what its value holds. It asks for
/// keys that differ: of two entries with one key the map keeps one, and std does not say
/// which.
#[verifier::external_body]
pub(crate) fn value_dict(entries: Vec<(Vec<u8>, Value)>) -> (value: Value)
    requires
        distinct_keys(entries@),
    ensures
        value_tree(value) == Tree::Dict(dict_of(entries@)),
{
    Value::Dict(entries.into_iter().collect())
}

/// Calls `serde_bencode::to_bytes` on `value`. The contract names the bytes, or the
/// failure, as a function of what the value holds: the same values are written as the
/// same bytes. It does not say what the bytes are.
#[verifier::external_body]
pub(crate) fn encode_value(value: &Value) -> (r: Result<Vec<u8>, serde_bencode::Error>)
    ensures
        match r {
            Ok(bytes) => bencoding(value_tree(*value)) == Some(bytes@),
            Err(_) => bencoding(value_tree(*value)) is None,
        },
{
    serde_bencode::to_bytes(value)
}

} // verus!
