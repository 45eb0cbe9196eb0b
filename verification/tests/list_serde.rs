use ssz_types::ProgressiveVariableList;

/// Reads a JSON sequence of numbers into a list one item at a time, so that a list past its
/// limit is rejected at the first item too many, before any later item is read.
fn read_u64s<const N: usize>(json: &str) -> Result<ProgressiveVariableList<u64, N>, String> {
    let values: serde_json::Value = serde_json::from_str(json).map_err(|e| e.to_string())?;
    let mut list = ProgressiveVariableList::<u64, N>::empty();
    for value in values.as_array().ok_or_else(|| "expected a list".to_string())? {
        let item = value
            .as_u64()
            .ok_or_else(|| format!("invalid type: {}, expected u64", value))?;
        list.push(item).map_err(|e| e.message())?;
    }
    Ok(list)
}

/// Reads a whole JSON sequence of numbers first, then checks the limit.
fn read_u64s_then_check<const N: usize>(
    json: &str,
) -> Result<ProgressiveVariableList<u64, N>, String> {
    let values: Vec<u64> = serde_json::from_str(json).map_err(|e| e.to_string())?;
    ProgressiveVariableList::new(values).map_err(|e| e.message())
}

#[test]
fn limit_bounds_json_deserialize() {
    let json = "[1,2,3,4,5]";
    assert!(read_u64s::<4>(json).is_err());
    assert!(read_u64s::<0>(json).is_ok());
}

#[test]
fn serde_accepts_list_at_limit() {
    let list = read_u64s::<4>("[1,2,3,4]").unwrap();
    assert_eq!(list.as_slice(), &[1, 2, 3, 4]);
}

#[test]
fn serde_fails_at_first_item_past_limit() {
    // The item after the limit is not a number. Only an early check reports the limit.
    let json = r#"[1,2,3,4,5,"not a number"]"#;
    let err = read_u64s::<4>(json).unwrap_err();
    assert!(
        err.contains("Index out of bounds: index 5, length 4"),
        "{err}"
    );
}

#[test]
fn context_deserialize_accepts_list_at_limit() {
    let list = read_u64s_then_check::<4>("[1,2,3,4]").unwrap();
    assert_eq!(list.as_slice(), &[1, 2, 3, 4]);
}

#[test]
fn context_deserialize_rejects_list_past_limit() {
    let err = read_u64s_then_check::<4>("[1,2,3,4,5]").unwrap_err();
    assert!(
        err.contains("Index out of bounds: index 5, length 4"),
        "{err}"
    );
}
