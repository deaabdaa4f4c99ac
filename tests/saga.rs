use xion_contracts::saga::{parse_u64, part_id_from_events, Attribute, Event};
use xion_contracts::types::ContractError;

fn attr(k: &str, v: &str) -> Attribute {
    Attribute { key: k.to_string(), value: v.to_string() }
}

#[test]
fn parse_decimal_ids() {
    assert_eq!(Some(0), parse_u64(&"0".to_string()));
    assert_eq!(Some(42), parse_u64(&"42".to_string()));
    assert_eq!(Some(12), parse_u64(&"+12".to_string()));
    assert_eq!(Some(7), parse_u64(&"007".to_string()));
    assert_eq!(Some(u64::MAX), parse_u64(&"18446744073709551615".to_string()));
    assert_eq!(None, parse_u64(&"18446744073709551616".to_string()));
    assert_eq!(None, parse_u64(&"".to_string()));
    assert_eq!(None, parse_u64(&"+".to_string()));
    assert_eq!(None, parse_u64(&"-1".to_string()));
    assert_eq!(None, parse_u64(&"1a".to_string()));
    assert_eq!(None, parse_u64(&" 1".to_string()));
}

#[test]
fn id_comes_from_first_wasm_event_and_first_part_id() {
    let events = vec![
        Event { ty: "message".to_string(), attributes: vec![attr("part_id", "1")] },
        Event { ty: "wasm".to_string(), attributes: vec![attr("method", "mint"), attr("part_id", "23"), attr("part_id", "5")] },
        Event { ty: "wasm".to_string(), attributes: vec![attr("part_id", "9")] },
    ];
    assert_eq!(Ok(23), part_id_from_events(&events));
}

#[test]
fn missing_or_bad_id_is_malformed() {
    let no_wasm = vec![Event { ty: "message".to_string(), attributes: vec![attr("part_id", "1")] }];
    assert_eq!(Err(ContractError::MalformedReply), part_id_from_events(&no_wasm));
    let no_attr = vec![Event { ty: "wasm".to_string(), attributes: vec![attr("owner", "x")] }];
    assert_eq!(Err(ContractError::MalformedReply), part_id_from_events(&no_attr));
    let bad = vec![Event { ty: "wasm".to_string(), attributes: vec![attr("part_id", "abc")] }];
    assert_eq!(Err(ContractError::MalformedReply), part_id_from_events(&bad));
    // only the first wasm event is read
    let later = vec![
        Event { ty: "wasm".to_string(), attributes: vec![] },
        Event { ty: "wasm".to_string(), attributes: vec![attr("part_id", "3")] },
    ];
    assert_eq!(Err(ContractError::MalformedReply), part_id_from_events(&later));
}
