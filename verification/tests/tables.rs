use kronark_node_parser::errors::NodeParseError;
use kronark_node_parser::kronarknode::names::{parse_name_table, NameEntry};
use kronark_node_parser::kronarknode::nodes::NodeEntry;
use kronark_node_parser::kronarknode::types::TypeEntry;
use kronark_node_parser::lexer::Lexer;

fn node_names(bytes: &[u8]) -> (Result<Vec<String>, NodeParseError>, u64) {
    let mut lexer = Lexer::new(bytes.to_vec());
    let table = NodeEntry::parse_table(&mut lexer);
    let names = table.map(|t| t.iter().map(|e| e.as_str().to_string()).collect());
    (names, lexer.bytes_read())
}

fn type_names(bytes: &[u8]) -> (Result<Vec<String>, NodeParseError>, u64) {
    let mut lexer = Lexer::new(bytes.to_vec());
    let table = TypeEntry::parse_table(&mut lexer);
    let names = table.map(|t| t.iter().map(|e| e.as_str().to_string()).collect());
    (names, lexer.bytes_read())
}

fn names(list: &[&str]) -> Vec<String> {
    list.iter().map(|s| s.to_string()).collect()
}

#[test]
fn node_entry_is_a_length_and_that_many_bytes_of_text() {
    let mut lexer = Lexer::new(vec![3, b'a', b'd', b'd', b'x']);
    let entry = NodeEntry::from_bytes(&mut lexer).unwrap();
    assert_eq!(entry.as_str(), "add");
    assert_eq!(lexer.bytes_read(), 4);
}

#[test]
fn type_entry_is_a_length_and_that_many_bytes_of_text() {
    let mut lexer = Lexer::new(vec![5, b'f', b'l', b'o', b'a', b't', b'x']);
    let entry = TypeEntry::from_bytes(&mut lexer).unwrap();
    assert_eq!(entry.as_str(), "float");
    assert_eq!(lexer.bytes_read(), 6);
}

#[test]
fn entry_may_be_empty() {
    let mut lexer = Lexer::new(vec![0, b'x']);
    assert_eq!(NodeEntry::from_bytes(&mut lexer).unwrap().as_str(), "");
    assert_eq!(lexer.bytes_read(), 1);
    let mut lexer = Lexer::new(vec![0]);
    assert_eq!(TypeEntry::from_bytes(&mut lexer).unwrap().as_str(), "");
}

#[test]
fn entry_may_hold_text_beyond_ascii() {
    let text = "é→𝄞";
    let mut bytes = vec![text.len() as u8];
    bytes.extend_from_slice(text.as_bytes());
    let mut lexer = Lexer::new(bytes.clone());
    assert_eq!(NodeEntry::from_bytes(&mut lexer).unwrap().as_str(), text);
    assert_eq!(lexer.bytes_read(), 10);
    let mut lexer = Lexer::new(bytes);
    assert_eq!(TypeEntry::from_bytes(&mut lexer).unwrap().as_str(), text);
}

#[test]
fn entry_of_255_bytes() {
    let mut bytes = vec![255];
    bytes.extend(std::iter::repeat(b'w').take(255));
    let mut lexer = Lexer::new(bytes);
    assert_eq!(NodeEntry::from_bytes(&mut lexer).unwrap().as_str(), "w".repeat(255));
    assert_eq!(lexer.bytes_read(), 256);
}

#[test]
fn equal_entries_are_equal() {
    let mut first = Lexer::new(vec![1, b'a']);
    let mut second = Lexer::new(vec![1, b'a', 9]);
    let mut third = Lexer::new(vec![1, b'b']);
    let a = TypeEntry::from_bytes(&mut first).unwrap();
    let b = TypeEntry::from_bytes(&mut second).unwrap();
    let c = TypeEntry::from_bytes(&mut third).unwrap();
    assert_eq!(a, b);
    assert_ne!(a, c);
}

#[test]
fn node_table_keeps_the_order_of_the_file() {
    let (table, read) = node_names(&[3, 1, b'c', 2, b'a', b'b', 0, 0xff]);
    assert_eq!(table, Ok(names(&["c", "ab", ""])));
    assert_eq!(read, 7);
}

#[test]
fn type_table_keeps_the_order_of_the_file() {
    let (table, read) = type_names(&[2, 3, b'i', b'n', b't', 1, b'b']);
    assert_eq!(table, Ok(names(&["int", "b"])));
    assert_eq!(read, 7);
}

#[test]
fn empty_tables() {
    assert_eq!(node_names(&[0, 1, b'a']), (Ok(vec![]), 1));
    assert_eq!(type_names(&[0]), (Ok(vec![]), 1));
}

#[test]
fn table_of_255_entries() {
    let mut bytes = vec![255];
    for i in 0u8..255 {
        bytes.extend_from_slice(&[1, b'a' + i % 26]);
    }
    let (table, read) = node_names(&bytes);
    let table = table.unwrap();
    assert_eq!(table.len(), 255);
    assert_eq!(table[27], "b");
    assert_eq!(read, 511);
}

#[test]
fn missing_table_count_is_an_early_end() {
    assert_eq!(node_names(&[]), (Err(NodeParseError::EOF("table count", 0)), 0));
    assert_eq!(type_names(&[]), (Err(NodeParseError::EOF("table count", 0)), 0));
}

#[test]
fn missing_entry_length_is_an_early_end() {
    assert_eq!(
        node_names(&[2, 1, b'a']),
        (Err(NodeParseError::EOF("entry length", 3)), 3)
    );
    assert_eq!(
        type_names(&[1]),
        (Err(NodeParseError::EOF("entry length", 1)), 1)
    );
}

#[test]
fn short_entry_is_an_early_end() {
    assert_eq!(
        node_names(&[1, 4, b'a', b'b']),
        (Err(NodeParseError::EOF("entry bytes", 4)), 4)
    );
    assert_eq!(
        type_names(&[1, 1]),
        (Err(NodeParseError::EOF("entry bytes", 2)), 2)
    );
}

#[test]
fn node_name_with_a_lone_continuation_byte_is_rejected_behind_the_name() {
    assert_eq!(
        node_names(&[2, 1, b'a', 3, b'x', 0x80, b'y', 1, b'z']),
        (Err(NodeParseError::UTF8EncodingError(7)), 7)
    );
}

#[test]
fn type_name_that_is_not_utf8_is_rejected_behind_the_name() {
    // An overlong form, a surrogate, a value past the last scalar, and a
    // sequence cut short are all invalid.
    for bad in [
        vec![0xC0u8, 0x80],
        vec![0xED, 0xA0, 0x80],
        vec![0xF4, 0x90, 0x80, 0x80],
        vec![0xE2, 0x82],
        vec![0xFF],
    ] {
        let mut bytes = vec![1, bad.len() as u8];
        bytes.extend_from_slice(&bad);
        let end = bytes.len() as u64;
        bytes.push(0);
        assert_eq!(type_names(&bytes), (Err(NodeParseError::UTF8EncodingError(end)), end));
    }
}

#[test]
fn entry_holds_the_name_it_is_made_from() {
    assert_eq!(NodeEntry::from_name("add".to_string()).as_str(), "add");
    assert_eq!(TypeEntry::from_name(String::new()).as_str(), "");
    let mut lexer = Lexer::new(vec![2, b'o', b'k']);
    assert_eq!(NodeEntry::from_bytes(&mut lexer), Ok(NodeEntry::from_name("ok".to_string())));
}

#[test]
fn name_table_reads_rows_of_either_kind() {
    let bytes = vec![2, 1, b'x', 2, b'y', b'z', 9];
    let mut lexer = Lexer::new(bytes.clone());
    let nodes: Vec<NodeEntry> = parse_name_table(&mut lexer).unwrap();
    assert_eq!(nodes.iter().map(|n| n.as_str()).collect::<Vec<_>>(), vec!["x", "yz"]);
    assert_eq!(lexer.bytes_read(), 6);
    let mut lexer = Lexer::new(bytes);
    let types: Vec<TypeEntry> = parse_name_table(&mut lexer).unwrap();
    assert_eq!(types.iter().map(|t| t.as_str()).collect::<Vec<_>>(), vec!["x", "yz"]);
    let mut lexer = Lexer::new(vec![1, 3, b'a']);
    assert_eq!(
        parse_name_table::<TypeEntry>(&mut lexer),
        Err(NodeParseError::EOF("entry bytes", 3))
    );
}
