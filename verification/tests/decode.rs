use kronark_node_parser::errors::NodeParseError;
use kronark_node_parser::kronarknode::instance::Instance;
use kronark_node_parser::kronarknode::roots::Roots;
use kronark_node_parser::kronarknode::socket::{DataType, Socket, SocketFlags, SocketType};
use kronark_node_parser::kronarknode::{Node, NodeDefinitionV1};
use kronark_node_parser::lexer::Lexer;

fn header() -> Vec<u8> {
    let mut file: Vec<u8> = b"kronarknode".to_vec();
    file.push(1);
    file
}

fn minimal_file() -> Vec<u8> {
    let mut file = header();
    file.extend_from_slice(&[0, 0, 0, 0, 0]);
    file.extend_from_slice(&[0, 0, 0, 0]);
    file
}

/// A file with something in every table, built byte by byte.
fn sample_file() -> Vec<u8> {
    let mut file = header();
    // roots: (1, 2) and (3, 4), two connections
    file.extend_from_slice(&[0x00, 0x40, 0x20, 0x0C, 0x04]);
    file.extend_from_slice(&[2, 7, 1, 8, 0]);
    // node names
    file.extend_from_slice(&[2, 3, b'a', b'd', b'd', 2, 0xC3, 0xA9]);
    // type names
    file.extend_from_slice(&[1, 3, b'i', b'n', b't']);
    // instances
    file.push(2);
    // key 7, type 0, at (5, 6), name "sum", two sockets
    file.extend_from_slice(&[7, 0, 0x01, 0x40, 0x60, 0xC2, b's', b'u', b'm']);
    file.extend_from_slice(&[0b0001_0000, 0, 0, 0, 0, 0, 2, b'4', b'2']);
    file.extend_from_slice(&[0b0000_0000, 0, 1]);
    // key 8, type 1, at (1023, 512), no name, three sockets
    file.extend_from_slice(&[8, 1, 0xFF, 0xE0, 0x00, 0x03]);
    file.extend_from_slice(&[0b0000_1010, 0, 0, 7, 1]);
    file.extend_from_slice(&[0b0010_0001, 5, 1]);
    file.extend_from_slice(&[0b0010_0010, 5, 2, 7, 1]);
    file
}

fn flags(byte: u8) -> SocketFlags {
    SocketFlags::from_byte(byte, 0).unwrap()
}

#[test]
fn minimal_file_decodes_to_an_empty_graph() {
    assert_eq!(minimal_file().len(), 21);
    let Node::V1(def) = Node::from_bytes(minimal_file()).unwrap();
    assert_eq!(def.roots.input_root_x, 0);
    assert_eq!(def.roots.input_root_y, 0);
    assert_eq!(def.roots.output_root_x, 0);
    assert_eq!(def.roots.output_root_y, 0);
    assert!(def.roots.output_connections.is_empty());
    assert!(def.nodes.is_empty());
    assert!(def.types.is_empty());
    assert!(def.instances.is_empty());
}

#[test]
fn sample_file_decodes_to_the_graph_it_was_built_from() {
    let Node::V1(def) = Node::from_bytes(sample_file()).unwrap();
    assert_eq!(
        def.roots,
        Roots {
            input_root_x: 1,
            input_root_y: 2,
            output_root_x: 3,
            output_root_y: 4,
            output_connections: vec![(7, 1), (8, 0)],
        }
    );
    let nodes: Vec<&str> = def.nodes.iter().map(|n| n.as_str()).collect();
    assert_eq!(nodes, vec!["add", "é"]);
    let types: Vec<&str> = def.types.iter().map(|t| t.as_str()).collect();
    assert_eq!(types, vec!["int"]);
    assert_eq!(
        def.instances,
        vec![
            Instance {
                key: 7,
                node_type: 0,
                position_x: 5,
                position_y: 6,
                name: "sum".to_string(),
                sockets: vec![
                    Socket {
                        flags: flags(0b0001_0000),
                        type_index: 0,
                        port_slot: 0,
                        data: Some(DataType::Constant("42".to_string())),
                    },
                    Socket { flags: flags(0), type_index: 0, port_slot: 1, data: None },
                ],
            },
            Instance {
                key: 8,
                node_type: 1,
                position_x: 1023,
                position_y: 512,
                name: String::new(),
                sockets: vec![
                    Socket {
                        flags: flags(0b0000_1010),
                        type_index: 0,
                        port_slot: 0,
                        data: Some(DataType::Connection(7, 1)),
                    },
                    Socket { flags: flags(0b0010_0001), type_index: 5, port_slot: 1, data: None },
                    Socket {
                        flags: flags(0b0010_0010),
                        type_index: 5,
                        port_slot: 2,
                        data: Some(DataType::Connection(7, 1)),
                    },
                ],
            },
        ]
    );
    assert_eq!(def.instances[1].sockets[1].flags.get_type(), SocketType::IncomingSwitch);
    assert!(def.instances[1].sockets[1].flags.is_switch_on());
}

#[test]
fn body_decoder_reads_from_the_cursor_to_the_end() {
    let mut lexer = Lexer::new(sample_file());
    assert_eq!(lexer.take(12).len(), 12);
    let body = NodeDefinitionV1::from_bytes(&mut lexer).unwrap();
    assert_eq!(lexer.bytes_read(), sample_file().len() as u64);
    assert_eq!(Node::from_bytes(sample_file()), Ok(Node::V1(body)));
}

#[test]
fn body_decoder_reports_trailing_bytes_where_they_begin() {
    let mut lexer = Lexer::new(vec![0, 0, 0, 0, 0, 0, 0, 0, 0, 1, 2, 3]);
    assert_eq!(
        NodeDefinitionV1::from_bytes(&mut lexer),
        Err(NodeParseError::FileTooLong(9))
    );
    assert_eq!(lexer.bytes_read(), 9);
    assert_eq!(lexer.remaining(), 3);
}

#[test]
fn body_decoder_counts_trailing_bytes_from_the_start_of_the_input() {
    let mut bytes = vec![7, 7, 7];
    bytes.extend_from_slice(&[0, 0, 0, 0, 0, 0, 0, 0, 0, 1]);
    let mut lexer = Lexer::new(bytes);
    assert_eq!(lexer.take(3), vec![7, 7, 7]);
    assert_eq!(
        NodeDefinitionV1::from_bytes(&mut lexer),
        Err(NodeParseError::FileTooLong(12))
    );
    assert_eq!(lexer.bytes_read(), 12);
}

#[test]
fn every_truncation_of_a_file_fails_at_the_cut() {
    for file in [minimal_file(), sample_file()] {
        for k in 0..file.len() {
            let cut = file[..k].to_vec();
            match Node::from_bytes(cut) {
                Err(NodeParseError::InvalidFile(at)) => {
                    assert!(k < 11);
                    assert_eq!(at, k as u64);
                }
                Err(NodeParseError::EOF(_, at)) => {
                    assert!(k >= 11);
                    assert_eq!(at, k as u64);
                }
                other => panic!("cut at {}: {:?}", k, other),
            }
        }
    }
}

#[test]
fn truncations_name_the_field_that_was_cut() {
    let file = sample_file();
    let field_at = |k: usize| match Node::from_bytes(file[..k].to_vec()) {
        Err(NodeParseError::EOF(field, _)) => field,
        other => panic!("cut at {}: {:?}", k, other),
    };
    assert_eq!(field_at(11), "version number");
    assert_eq!(field_at(12), "root positions");
    assert_eq!(field_at(16), "root positions");
    assert_eq!(field_at(17), "connection count");
    assert_eq!(field_at(18), "output connections");
    assert_eq!(field_at(19), "output connections");
    assert_eq!(field_at(22), "table count");
    assert_eq!(field_at(23), "entry length");
    assert_eq!(field_at(24), "entry bytes");
    assert_eq!(field_at(26), "entry bytes");
    assert_eq!(field_at(30), "table count");
    assert_eq!(field_at(31), "entry length");
    assert_eq!(field_at(33), "entry bytes");
    assert_eq!(field_at(35), "number of instances");
    assert_eq!(field_at(36), "missing instance key");
    assert_eq!(field_at(37), "instance type");
    assert_eq!(field_at(38), "instance position, name, and sockets");
    assert_eq!(field_at(41), "instance position, name, and sockets");
    assert_eq!(field_at(42), "instance name");
    assert_eq!(field_at(45), "socket flags");
    assert_eq!(field_at(46), "socket type index");
    assert_eq!(field_at(47), "socket port slot");
    assert_eq!(field_at(48), "socket constant value length");
    assert_eq!(field_at(51), "socket constant value length");
    assert_eq!(field_at(52), "socket constant value");
    assert_eq!(field_at(53), "socket constant value");
    assert_eq!(field_at(66), "socket connection");
    assert_eq!(field_at(67), "socket connection");
}

#[test]
fn one_trailing_byte_is_reported_at_the_length_of_the_file_before_it() {
    let mut file = minimal_file();
    assert_eq!(file.len(), 21);
    file.push(0xAA);
    assert_eq!(Node::from_bytes(file), Err(NodeParseError::FileTooLong(21)));
}

#[test]
fn many_trailing_bytes_are_reported_at_the_length_of_the_file_before_them() {
    let mut file = sample_file();
    let len = file.len() as u64;
    file.extend_from_slice(&[1, 2, 3, 4, 5]);
    assert_eq!(Node::from_bytes(file), Err(NodeParseError::FileTooLong(len)));
}

#[test]
fn trailing_bytes_that_look_like_more_of_the_file_are_trailing_all_the_same() {
    // A second, well-formed body behind the first.
    let mut file = minimal_file();
    file.extend_from_slice(&[0, 0, 0, 0, 0, 0, 0, 0, 0]);
    assert_eq!(Node::from_bytes(file), Err(NodeParseError::FileTooLong(21)));
}

#[test]
fn empty_input_is_no_node_file() {
    assert_eq!(Node::from_bytes(vec![]), Err(NodeParseError::InvalidFile(0)));
}

#[test]
fn short_input_is_no_node_file() {
    assert_eq!(
        Node::from_bytes(b"kronark".to_vec()),
        Err(NodeParseError::InvalidFile(7))
    );
}

#[test]
fn wrong_magic_number_is_no_node_file() {
    let mut file = minimal_file();
    file[10] = b'E';
    assert_eq!(Node::from_bytes(file), Err(NodeParseError::InvalidFile(11)));
    let mut file = minimal_file();
    file[0] = b'K';
    assert_eq!(Node::from_bytes(file), Err(NodeParseError::InvalidFile(11)));
    assert_eq!(
        Node::from_bytes(b"KRONARKNODE\x01\0\0\0\0\0\0\0\0\0".to_vec()),
        Err(NodeParseError::InvalidFile(11))
    );
}

#[test]
fn header_is_checked_before_anything_behind_it() {
    // A body that would fail in several ways, behind a wrong magic number.
    let mut file = b"kronarknodf".to_vec();
    file.extend_from_slice(&[9, 0xff]);
    assert_eq!(Node::from_bytes(file), Err(NodeParseError::InvalidFile(11)));
}

#[test]
fn missing_version_is_an_early_end() {
    assert_eq!(
        Node::from_bytes(b"kronarknode".to_vec()),
        Err(NodeParseError::EOF("version number", 11))
    );
}

#[test]
fn unknown_versions_are_rejected() {
    for version in [0u8, 2, 3, 255] {
        let mut file = minimal_file();
        file[11] = version;
        assert_eq!(Node::from_bytes(file), Err(NodeParseError::InvalidVersion(12)));
    }
}

#[test]
fn unknown_version_is_rejected_before_the_body_is_read() {
    let mut file = b"kronarknode".to_vec();
    file.push(2);
    assert_eq!(Node::from_bytes(file), Err(NodeParseError::InvalidVersion(12)));
}

#[test]
fn node_name_with_a_lone_continuation_byte_fails_the_file() {
    let mut file = header();
    file.extend_from_slice(&[0, 0, 0, 0, 0, 0]);
    file.extend_from_slice(&[1, 1, 0x80]);
    file.extend_from_slice(&[0, 0]);
    assert_eq!(Node::from_bytes(file), Err(NodeParseError::UTF8EncodingError(21)));
}

#[test]
fn instance_name_with_a_lone_continuation_byte_fails_the_file() {
    let mut file = header();
    file.extend_from_slice(&[0, 0, 0, 0, 0, 0, 0, 0]);
    file.extend_from_slice(&[1, 0, 0, 0, 0, 0, 0x40, 0x80]);
    assert_eq!(Node::from_bytes(file), Err(NodeParseError::UTF8EncodingError(28)));
}

#[test]
fn invalid_socket_fails_the_file() {
    let mut file = header();
    file.extend_from_slice(&[0, 0, 0, 0, 0, 0, 0, 0]);
    file.extend_from_slice(&[1, 0, 0, 0, 0, 0, 0x01, 0b0011_0000, 0, 0]);
    assert_eq!(Node::from_bytes(file), Err(NodeParseError::InvalidSocketType(28)));
    let mut file = header();
    file.extend_from_slice(&[0, 0, 0, 0, 0, 0, 0, 0]);
    file.extend_from_slice(&[1, 0, 0, 0, 0, 0, 0x01, 0b0010_0100, 0, 0]);
    assert_eq!(Node::from_bytes(file), Err(NodeParseError::InvalidSocketCombination(28)));
}

#[test]
fn first_error_in_byte_order_is_the_one_returned() {
    // The node table holds invalid UTF-8 and an instance holds an invalid
    // socket; the table comes first.
    let mut file = header();
    file.extend_from_slice(&[0, 0, 0, 0, 0, 0]);
    file.extend_from_slice(&[1, 1, 0xFF]);
    file.push(0);
    file.extend_from_slice(&[1, 0, 0, 0, 0, 0, 0x01, 0b0011_0000, 0, 0]);
    assert_eq!(Node::from_bytes(file), Err(NodeParseError::UTF8EncodingError(21)));
}

#[test]
fn indices_into_the_tables_are_not_checked() {
    let mut file = header();
    file.extend_from_slice(&[0, 0, 0, 0, 0, 0, 0, 0]);
    file.extend_from_slice(&[1, 1, 99, 0, 0, 0, 0x01, 0b0000_0000, 77, 0]);
    let Node::V1(def) = Node::from_bytes(file).unwrap();
    assert!(def.nodes.is_empty() && def.types.is_empty());
    assert_eq!(def.instances[0].node_type, 99);
    assert_eq!(def.instances[0].sockets[0].type_index, 77);
}

#[test]
fn decoding_twice_gives_the_same_result() {
    assert_eq!(Node::from_bytes(sample_file()), Node::from_bytes(sample_file()));
    assert_eq!(Node::from_bytes(minimal_file()), Node::from_bytes(minimal_file()));
    let cut = sample_file()[..40].to_vec();
    assert_eq!(Node::from_bytes(cut.clone()), Node::from_bytes(cut));
    let mut long = sample_file();
    long.push(0);
    assert_eq!(Node::from_bytes(long.clone()), Node::from_bytes(long));
}

#[test]
fn error_offset_is_the_offset_that_the_error_carries() {
    assert_eq!(NodeParseError::EOF("version number", 11).offset(), 11);
    assert_eq!(NodeParseError::InvalidFile(3).offset(), 3);
    assert_eq!(NodeParseError::InvalidVersion(12).offset(), 12);
    assert_eq!(NodeParseError::UTF8EncodingError(40).offset(), 40);
    assert_eq!(NodeParseError::FileTooLong(22).offset(), 22);
    assert_eq!(NodeParseError::InvalidSocketType(u64::MAX).offset(), u64::MAX);
    assert_eq!(NodeParseError::InvalidSocketCombination(0).offset(), 0);
}

#[test]
fn messages_say_what_went_wrong_and_where() {
    assert_eq!(
        NodeParseError::EOF("version number", 11).message(),
        "Early EOF while reading version number. At byte offset 11\n"
    );
    assert_eq!(
        NodeParseError::InvalidFile(0).message(),
        "File type not recognized (magic number incorrect), At byte offset 0\n"
    );
    assert_eq!(
        NodeParseError::InvalidVersion(12).message(),
        "Invalid Version. At byte offset 12 \n"
    );
    assert_eq!(
        NodeParseError::UTF8EncodingError(1009).message(),
        "Could not parse, got invalid UTF8. At byte offset 1009\n"
    );
    assert_eq!(
        NodeParseError::FileTooLong(22).message(),
        "Extra data at the end of parsing. At byte offset: 22\n"
    );
    assert_eq!(
        NodeParseError::InvalidSocketType(9).message(),
        "Socket type is an invalid number. At byte offset: 9\n"
    );
    assert_eq!(
        NodeParseError::InvalidSocketCombination(10).message(),
        "Socket is marked as repetitive and as type `IncomingSwitch`, an illegal combination. At byte offset: 10\n"
    );
}

#[test]
fn messages_write_offsets_in_decimal() {
    for at in [0u64, 7, 10, 99, 100, 101, 65535, 1234567890, u64::MAX] {
        assert_eq!(
            NodeParseError::FileTooLong(at).message(),
            format!("Extra data at the end of parsing. At byte offset: {}\n", at)
        );
    }
}

#[test]
fn any_bytes_behind_a_file_are_reported_at_the_length_of_the_file() {
    for file in [minimal_file(), sample_file()] {
        let len = file.len() as u64;
        for tail in [vec![0u8], vec![0xFF], vec![1, 0, 0], b"kronarknode".to_vec(), vec![0; 300]] {
            let mut long = file.clone();
            long.extend_from_slice(&tail);
            assert_eq!(Node::from_bytes(long), Err(NodeParseError::FileTooLong(len)));
        }
    }
}
