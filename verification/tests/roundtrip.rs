use kronark_node_parser::kronarknode::instance::Instance;
use kronark_node_parser::kronarknode::roots::Roots;
use kronark_node_parser::kronarknode::socket::{DataType, Socket, SocketFlags};
use kronark_node_parser::kronarknode::Node;

// A writer for the format, kept apart from the library: it shifts where the
// library masks, and it is only ever handed graphs that fit the format.

fn write_bits(out: &mut Vec<u8>, fields: &[(u32, u64)]) {
    let mut number: u64 = 0;
    let mut width: u32 = 0;
    for (bits, value) in fields {
        assert!(*value < (1u64 << bits));
        number = (number << bits) | value;
        width += bits;
    }
    assert_eq!(width % 8, 0);
    for byte in (0..width / 8).rev() {
        out.push((number >> (8 * byte)) as u8);
    }
}

fn write_name(out: &mut Vec<u8>, name: &str) {
    out.push(u8::try_from(name.len()).unwrap());
    out.extend_from_slice(name.as_bytes());
}

fn write_socket(out: &mut Vec<u8>, socket: &Socket) {
    out.push(socket.flags.bits());
    out.push(u8::try_from(socket.type_index).unwrap());
    out.push(socket.port_slot);
    match &socket.data {
        None => (),
        Some(DataType::Connection(node, slot)) => out.extend_from_slice(&[*node, *slot]),
        Some(DataType::Constant(text)) => {
            out.extend_from_slice(&u32::try_from(text.len()).unwrap().to_be_bytes());
            out.extend_from_slice(text.as_bytes());
        }
    }
}

fn write_instance(out: &mut Vec<u8>, instance: &Instance) {
    out.push(u8::try_from(instance.key).unwrap());
    out.push(u8::try_from(instance.node_type).unwrap());
    write_bits(
        out,
        &[
            (10, instance.position_x as u64),
            (10, instance.position_y as u64),
            (6, instance.name.len() as u64),
            (6, instance.sockets.len() as u64),
        ],
    );
    out.extend_from_slice(instance.name.as_bytes());
    for socket in &instance.sockets {
        write_socket(out, socket);
    }
}

fn write_file(roots: &Roots, nodes: &[&str], types: &[&str], instances: &[Instance]) -> Vec<u8> {
    let mut out = b"kronarknode\x01".to_vec();
    write_bits(
        &mut out,
        &[
            (10, roots.input_root_x as u64),
            (10, roots.input_root_y as u64),
            (10, roots.output_root_x as u64),
            (10, roots.output_root_y as u64),
        ],
    );
    out.push(u8::try_from(roots.output_connections.len()).unwrap());
    for (node, slot) in &roots.output_connections {
        out.extend_from_slice(&[*node, *slot]);
    }
    out.push(u8::try_from(nodes.len()).unwrap());
    for name in nodes {
        write_name(&mut out, name);
    }
    out.push(u8::try_from(types.len()).unwrap());
    for name in types {
        write_name(&mut out, name);
    }
    out.push(u8::try_from(instances.len()).unwrap());
    for instance in instances {
        write_instance(&mut out, instance);
    }
    out
}

fn socket(flags: u8, type_index: usize, port_slot: u8, data: Option<DataType>) -> Socket {
    Socket { flags: SocketFlags::from_byte(flags, 0).unwrap(), type_index, port_slot, data }
}

fn check(roots: Roots, nodes: &[&str], types: &[&str], instances: Vec<Instance>) {
    let file = write_file(&roots, nodes, types, &instances);
    let Node::V1(def) = Node::from_bytes(file).unwrap();
    assert_eq!(def.roots, roots);
    assert_eq!(def.nodes.iter().map(|n| n.as_str()).collect::<Vec<_>>(), nodes);
    assert_eq!(def.types.iter().map(|t| t.as_str()).collect::<Vec<_>>(), types);
    assert_eq!(def.instances, instances);
}

#[test]
fn written_empty_graph_is_read_back() {
    let roots = Roots {
        input_root_x: 0,
        input_root_y: 0,
        output_root_x: 0,
        output_root_y: 0,
        output_connections: vec![],
    };
    check(roots, &[], &[], vec![]);
}

#[test]
fn written_coordinates_are_read_back() {
    for (a, b, c, d) in [
        (1u16, 2u16, 3u16, 4u16),
        (1023, 1023, 1023, 1023),
        (512, 256, 128, 64),
        (341, 682, 341, 682),
        (1, 0, 0, 0),
        (0, 1, 0, 0),
        (0, 0, 1, 0),
        (0, 0, 0, 1),
        (1000, 24, 999, 25),
    ] {
        let roots = Roots {
            input_root_x: a,
            input_root_y: b,
            output_root_x: c,
            output_root_y: d,
            output_connections: vec![(a as u8, b as u8)],
        };
        let instance = Instance {
            key: (a % 256) as usize,
            node_type: (b % 256) as usize,
            position_x: c,
            position_y: d,
            name: "x".repeat((a % 64) as usize),
            sockets: (0..(b % 64) as u8).map(|slot| socket(0, 0, slot, None)).collect(),
        };
        check(roots, &["n"], &["t"], vec![instance]);
    }
}

#[test]
fn written_graph_with_every_kind_of_socket_is_read_back() {
    let roots = Roots {
        input_root_x: 10,
        input_root_y: 20,
        output_root_x: 900,
        output_root_y: 20,
        output_connections: vec![(2, 0), (1, 3)],
    };
    let first = Instance {
        key: 1,
        node_type: 0,
        position_x: 100,
        position_y: 50,
        name: "mélange".to_string(),
        sockets: vec![
            socket(0b0000_0000, 0, 0, None),
            socket(0b0000_0100, 0, 1, None),
            socket(0b0000_1000, 1, 2, Some(DataType::Constant("named".to_string()))),
            socket(0b0000_1010, 1, 3, Some(DataType::Connection(2, 0))),
            socket(0b0001_0000, 2, 4, Some(DataType::Constant("3.25".to_string()))),
            socket(0b0001_1100, 2, 5, Some(DataType::Constant(String::new()))),
            socket(0b0010_0000, 3, 6, None),
            socket(0b0010_0001, 3, 7, None),
            socket(0b0010_0011, 3, 8, Some(DataType::Connection(2, 1))),
            socket(0b0010_1000, 4, 9, Some(DataType::Constant("日本語 text".to_string()))),
            socket(0b1110_1110, 255, 255, Some(DataType::Connection(255, 255))),
        ],
    };
    let second = Instance {
        key: 2,
        node_type: 1,
        position_x: 0,
        position_y: 1023,
        name: String::new(),
        sockets: vec![socket(0b0010_1000, 0, 0, Some(DataType::Constant("z".repeat(70000))))],
    };
    check(
        roots,
        &["mix", "source", ""],
        &["named", "number", "select", "switch", "text"],
        vec![first, second],
    );
}
