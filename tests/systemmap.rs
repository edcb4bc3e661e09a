use isr::systemmap::{parse_system_map, SystemMapError};

#[test]
fn system_map_keeps_data_and_text_symbols() {
    let symbols = parse_system_map(
        "0000000000000000 A fixed_percpu_data\nffffffff81000000 T _stext\r\n  ffffffff81e00000   d  local_data  \nffffffff81000100 t local_text\nffffffff82000000 D global_data\nffffffff82000010 B bss_thing\n",
    )
    .unwrap();
    let entries: Vec<(&str, u64)> = symbols.0.iter().map(|(k, v)| (k.as_str(), *v)).collect();
    assert_eq!(
        entries,
        vec![
            ("_stext", 0xffffffff81000000),
            ("local_data", 0xffffffff81e00000),
            ("local_text", 0xffffffff81000100),
            ("global_data", 0xffffffff82000000),
        ]
    );
}

#[test]
fn system_map_blank_lines_and_duplicates() {
    let symbols = parse_system_map("\n   \nABCDEF T f\n+10 t f\n").unwrap();
    assert_eq!(symbols.0.len(), 1);
    assert_eq!(symbols.0["f"], 0x10);
    assert_eq!(parse_system_map("").unwrap().0.len(), 0);
}

#[test]
fn system_map_without_final_newline() {
    let symbols = parse_system_map("1 T a\n2 T b").unwrap();
    assert_eq!(symbols.0["b"], 2);
}

#[test]
fn system_map_malformed_lines() {
    for text in [
        "ffff T\n",
        "ffff\n",
        "xyz T name\n",
        "+ T name\n",
        "-1 T name\n",
        "10000000000000000 T big\n",
        "1 T a\nbad\n",
    ] {
        assert_eq!(parse_system_map(text).unwrap_err(), SystemMapError::InvalidSystemMap, "{text:?}");
    }
    // An address is only read for kept kinds.
    assert!(parse_system_map("xyz A name\n").is_ok());
    assert_eq!(parse_system_map("ffffffffffffffff T top\n").unwrap().0["top"], u64::MAX);
}
