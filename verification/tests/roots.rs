use kronark_node_parser::errors::NodeParseError;
use kronark_node_parser::kronarknode::roots::Roots;
use kronark_node_parser::lexer::Lexer;

fn decode(bytes: &[u8]) -> (Result<Roots, NodeParseError>, u64) {
    let mut lexer = Lexer::new(bytes.to_vec());
    let roots = Roots::parse_table(&mut lexer);
    (roots, lexer.bytes_read())
}

fn coordinates(roots: &Roots) -> (u16, u16, u16, u16) {
    (roots.input_root_x, roots.input_root_y, roots.output_root_x, roots.output_root_y)
}

#[test]
fn root_coordinates_are_unpacked_from_five_bytes() {
    // 0000000001 0000000010 0000000011 0000000100
    let (roots, read) = decode(&[0x00, 0x40, 0x20, 0x0C, 0x04, 0]);
    assert_eq!(
        roots,
        Ok(Roots {
            input_root_x: 1,
            input_root_y: 2,
            output_root_x: 3,
            output_root_y: 4,
            output_connections: vec![],
        })
    );
    assert_eq!(read, 6);
}

#[test]
fn root_coordinates_cross_byte_boundaries() {
    // 1111111111 0000000000 1000000001 0000000010
    let (roots, _) = decode(&[0xFF, 0xC0, 0x08, 0x04, 0x02, 0]);
    assert_eq!(coordinates(&roots.unwrap()), (1023, 0, 513, 2));
}

#[test]
fn root_coordinates_at_their_largest() {
    let (roots, _) = decode(&[0xFF, 0xFF, 0xFF, 0xFF, 0xFF, 0]);
    assert_eq!(coordinates(&roots.unwrap()), (1023, 1023, 1023, 1023));
}

#[test]
fn each_root_coordinate_is_read_from_its_own_bits() {
    let (roots, _) = decode(&[0xFF, 0xC0, 0x00, 0x00, 0x00, 0]);
    assert_eq!(coordinates(&roots.unwrap()), (1023, 0, 0, 0));
    let (roots, _) = decode(&[0x00, 0x3F, 0xF0, 0x00, 0x00, 0]);
    assert_eq!(coordinates(&roots.unwrap()), (0, 1023, 0, 0));
    let (roots, _) = decode(&[0x00, 0x00, 0x0F, 0xFC, 0x00, 0]);
    assert_eq!(coordinates(&roots.unwrap()), (0, 0, 1023, 0));
    let (roots, _) = decode(&[0x00, 0x00, 0x00, 0x03, 0xFF, 0]);
    assert_eq!(coordinates(&roots.unwrap()), (0, 0, 0, 1023));
}

#[test]
fn output_connections_keep_the_order_of_the_file() {
    let (roots, read) = decode(&[0, 0, 0, 0, 0, 3, 9, 1, 4, 2, 9, 0, 0xff]);
    assert_eq!(roots.unwrap().output_connections, vec![(9, 1), (4, 2), (9, 0)]);
    assert_eq!(read, 12);
}

#[test]
fn output_connection_is_instance_key_then_socket_slot() {
    let (roots, _) = decode(&[0, 0, 0, 0, 0, 1, 200, 3]);
    assert_eq!(roots.unwrap().output_connections, vec![(200, 3)]);
}

#[test]
fn output_connections_up_to_255() {
    let mut bytes = vec![0, 0, 0, 0, 0, 255];
    for i in 0u8..255 {
        bytes.extend_from_slice(&[i, 255 - i]);
    }
    let (roots, read) = decode(&bytes);
    let roots = roots.unwrap();
    assert_eq!(roots.output_connections.len(), 255);
    assert_eq!(roots.output_connections[0], (0, 255));
    assert_eq!(roots.output_connections[254], (254, 1));
    assert_eq!(read, 6 + 510);
}

#[test]
fn short_root_positions_are_an_early_end() {
    let (roots, read) = decode(&[0, 0, 0]);
    assert_eq!(roots, Err(NodeParseError::EOF("root positions", 3)));
    assert_eq!(read, 3);
    let (roots, _) = decode(&[]);
    assert_eq!(roots, Err(NodeParseError::EOF("root positions", 0)));
}

#[test]
fn missing_connection_count_is_an_early_end() {
    let (roots, read) = decode(&[0, 0, 0, 0, 0]);
    assert_eq!(roots, Err(NodeParseError::EOF("connection count", 5)));
    assert_eq!(read, 5);
}

#[test]
fn missing_output_connection_is_an_early_end() {
    let (roots, read) = decode(&[0, 0, 0, 0, 0, 2, 1, 1]);
    assert_eq!(roots, Err(NodeParseError::EOF("output connections", 8)));
    assert_eq!(read, 8);
}

#[test]
fn half_an_output_connection_is_an_early_end_behind_the_half() {
    let (roots, read) = decode(&[0, 0, 0, 0, 0, 2, 1, 1, 7]);
    assert_eq!(roots, Err(NodeParseError::EOF("output connections", 9)));
    assert_eq!(read, 9);
}
