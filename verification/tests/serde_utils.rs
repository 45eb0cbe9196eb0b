use ssz_types::fixed_vector::FixedVector;
use ssz_types::serde_utils::{
    hex_prog_var_list, prog_list_of_hex_fixed_vec, prog_list_of_hex_prog_var_list,
};
use ssz_types::{HexError, ProgressiveVariableList};

/// A JSON object with one field holding `value`.
fn json_object(key: &str, value: serde_json::Value) -> String {
    let mut map = serde_json::Map::new();
    map.insert(key.to_string(), value);
    serde_json::to_string(&serde_json::Value::Object(map)).unwrap()
}

/// The value of the one field `key` of a JSON object.
fn json_field(json: &str, key: &str) -> serde_json::Value {
    let value: serde_json::Value = serde_json::from_str(json).unwrap();
    value[key].clone()
}

fn hex_obj(bytes: &ProgressiveVariableList<u8, 0>) -> String {
    json_object(
        "bytes",
        serde_json::Value::String(hex_prog_var_list::serialize(bytes)),
    )
}

fn hex_obj_from_json<const N: usize>(json: &str) -> Result<ProgressiveVariableList<u8, N>, HexError> {
    hex_prog_var_list::deserialize::<N>(json_field(json, "bytes").as_str().unwrap())
}

#[test]
fn hex_prog_var_list_round_trip_hex() {
    let bytes = ProgressiveVariableList::<u8, 0>::new(vec![1, 2, 3, 255]).unwrap();
    let json = hex_obj(&bytes);
    assert_eq!(json, r#"{"bytes":"0x010203ff"}"#);
    assert_eq!(hex_obj_from_json::<0>(&json).unwrap(), bytes);
}

#[test]
fn hex_prog_var_list_empty() {
    let bytes = ProgressiveVariableList::<u8, 0>::empty();
    let json = hex_obj(&bytes);
    assert_eq!(json, r#"{"bytes":"0x"}"#);
    assert_eq!(hex_obj_from_json::<0>(&json).unwrap(), bytes);
}

#[test]
fn limit_rejects_oversized_hex() {
    assert!(hex_obj_from_json::<4>(r#"{"bytes":"0x01020304"}"#).is_ok());
    assert!(hex_obj_from_json::<4>(r#"{"bytes":"0x0102030405"}"#).is_err());
}

/// Reads the field `vecs` element by element, as the visitor is driven: each element is read
/// and handed over before the next is read.
fn read_fixed_vecs<const M: usize, const N: usize>(
    json: &str,
) -> Result<ProgressiveVariableList<FixedVector<u8, M>, N>, String> {
    let visitor = prog_list_of_hex_fixed_vec::Visitor::<M, N>::default();
    let mut list = visitor.start();
    let values = json_field(json, "vecs");
    for value in values.as_array().unwrap() {
        let text = value.as_str().ok_or_else(|| "not a string".to_string())?;
        let element = prog_list_of_hex_fixed_vec::WrappedListOwned::<M>::deserialize(text)
            .map_err(|e| format!("{:?}", e))?;
        visitor
            .visit_element(&mut list, element)
            .map_err(|e| e.message())?;
    }
    Ok(list)
}

#[test]
fn accepts_list_at_limit() {
    let json = r#"{"vecs":["0x01","0x02"]}"#;
    assert_eq!(read_fixed_vecs::<1, 2>(json).unwrap().len(), 2);
}

#[test]
fn fails_at_first_item_past_limit() {
    // The item after the limit is not hex. Only an early check reports the limit.
    let json = r#"{"vecs":["0x01","0x02","0x03","not hex"]}"#;
    let err = read_fixed_vecs::<1, 2>(json).unwrap_err();
    assert!(
        err.contains("Index out of bounds: index 3, length 2"),
        "{err}"
    );
}

fn lists_obj(lists: &ProgressiveVariableList<ProgressiveVariableList<u8, 0>, 0>) -> String {
    let texts = prog_list_of_hex_prog_var_list::serialize(lists);
    json_object(
        "lists",
        serde_json::Value::Array(texts.into_iter().map(serde_json::Value::String).collect()),
    )
}

fn lists_from_json(
    json: &str,
) -> Result<ProgressiveVariableList<ProgressiveVariableList<u8, 0>, 0>, String> {
    let mut values = Vec::new();
    for value in json_field(json, "lists").as_array().unwrap() {
        let text = value.as_str().unwrap();
        values.push(
            prog_list_of_hex_prog_var_list::WrappedListOwned::<0>::deserialize(text)
                .map_err(|e| format!("{:?}", e))?,
        );
    }
    prog_list_of_hex_prog_var_list::Visitor::<0, 0>::default()
        .visit_seq(values)
        .map_err(|e| format!("{:?}", e))
}

#[test]
fn prog_list_of_hex_prog_var_list_round_trip_hex() {
    let lists = ProgressiveVariableList::new(vec![
        ProgressiveVariableList::new(vec![1, 2, 3]).unwrap(),
        ProgressiveVariableList::new(vec![255]).unwrap(),
    ])
    .unwrap();
    let json = lists_obj(&lists);
    assert_eq!(json, r#"{"lists":["0x010203","0xff"]}"#);
    assert_eq!(lists_from_json(&json).unwrap(), lists);
}

#[test]
fn prog_list_of_hex_prog_var_list_empty() {
    let lists = ProgressiveVariableList::empty();
    let json = lists_obj(&lists);
    assert_eq!(json, r#"{"lists":[]}"#);
    assert_eq!(lists_from_json(&json).unwrap(), lists);
}

#[test]
fn serde_is_a_sequence() {
    // The list's own representation is a sequence of its items, not hex.
    let list: ProgressiveVariableList<u8, 0> =
        ProgressiveVariableList::new(vec![1, 2, 255]).unwrap();
    let json = serde_json::to_string(list.as_slice()).unwrap();
    assert_eq!(json, "[1,2,255]");
    let items: Vec<u8> = serde_json::from_str(&json).unwrap();
    assert_eq!(ProgressiveVariableList::<u8, 0>::new(items).unwrap(), list);
}
