use kronark_node_parser::viewer::{
    can_intersect, signed_rect_intersection, socket_row, App, Area, Key, NodeExt, Scroll,
    SocketDirection, SocketExt, SocketType,
};

fn named(name: &str) -> SocketExt {
    SocketExt::new(name, SocketDirection::Input, SocketType::Named, "", false)
}

#[test]
fn socket_holds_what_it_was_made_of() {
    let socket = SocketExt::new(
        "select",
        SocketDirection::Output,
        SocketType::Select,
        "selected value",
        true,
    );
    assert_eq!(socket.name, "select");
    assert_eq!(socket.direction, SocketDirection::Output);
    assert_eq!(socket.socket_type, SocketType::Select);
    assert_eq!(socket.value, "selected value");
    assert!(socket.is_repetitive);
    let socket = SocketExt::new(
        String::from("n"),
        SocketDirection::Neither,
        SocketType::Switch,
        String::from("v"),
        false,
    );
    assert_eq!(socket.name, "n");
    assert_eq!(socket.direction, SocketDirection::Neither);
    assert_eq!(socket.socket_type, SocketType::Switch);
    assert_eq!(socket.value, "v");
    assert!(!socket.is_repetitive);
}

#[test]
fn socket_clone_is_equal_in_every_field() {
    let socket =
        SocketExt::new("text", SocketDirection::Input, SocketType::Text, "hello world!", true);
    let copy = socket.clone();
    assert_eq!(copy.name, socket.name);
    assert_eq!(copy.direction, socket.direction);
    assert_eq!(copy.socket_type, socket.socket_type);
    assert_eq!(copy.value, socket.value);
    assert_eq!(copy.is_repetitive, socket.is_repetitive);
}

#[test]
fn node_holds_its_title_and_sockets() {
    let node = NodeExt::new("test node", vec![named("a"), named("b")]);
    assert_eq!(node.name(), "test node");
    let names: Vec<&str> = node.sockets().iter().map(|s| s.name.as_str()).collect();
    assert_eq!(names, vec!["a", "b"]);
    assert!(NodeExt::new(String::new(), vec![]).sockets().is_empty());
}

#[test]
fn add_socket_appends_and_returns_the_node_as_it_then_is() {
    let mut node = NodeExt::new("n", vec![named("a")]);
    let copy = node.add_socket(named("b"));
    let names = |n: &NodeExt| -> Vec<String> {
        n.sockets().iter().map(|s| s.name.clone()).collect()
    };
    assert_eq!(names(&node), vec!["a", "b"]);
    assert_eq!(names(&copy), vec!["a", "b"]);
    assert_eq!(copy.name(), "n");
    // The copy is a node of its own.
    let third = node.add_socket(named("c"));
    assert_eq!(names(&node), vec!["a", "b", "c"]);
    assert_eq!(names(&third), vec!["a", "b", "c"]);
    assert_eq!(names(&copy), vec!["a", "b"]);
}

#[test]
fn add_socket_chains_on_the_copies() {
    let node = NodeExt::new("n", vec![]).add_socket(named("a")).add_socket(named("b"));
    assert_eq!(node.sockets().len(), 2);
    assert_eq!(node.sockets()[1].name, "b");
}

#[test]
fn sockets_start_on_row_four_and_take_every_other_row() {
    assert_eq!(socket_row(0), 4);
    assert_eq!(socket_row(1), 6);
    assert_eq!(socket_row(5), 14);
    assert_eq!(socket_row(125), 254);
}

#[test]
fn viewer_runs_until_q_is_pressed() {
    let mut app = App::new(NodeExt::new("n", vec![named("a")]));
    assert!(!app.exited());
    for key in [Key::Other, Key::Char('Q'), Key::Char('x'), Key::Char(' ')] {
        app.handle_key_event(key);
        assert!(!app.exited());
    }
    app.handle_key_event(Key::Char('q'));
    assert!(app.exited());
    app.handle_key_event(Key::Other);
    assert!(app.exited());
    assert_eq!(app.node_ext().name(), "n");
    assert_eq!(app.node_ext().sockets().len(), 1);
}

#[test]
fn exit_stops_the_viewer() {
    let mut app = App::new(NodeExt::new("n", vec![]));
    app.exit();
    assert!(app.exited());
    app.exit();
    assert!(app.exited());
}

#[test]
fn arrow_keys_move_the_canvas_against_the_arrow() {
    let mut scroll = Scroll { x_shift: 0, y_shift: 0 };
    assert!(!scroll.handle_key_event(Key::Left, true));
    assert_eq!(scroll, Scroll { x_shift: 1, y_shift: 0 });
    assert!(!scroll.handle_key_event(Key::Up, true));
    assert_eq!(scroll, Scroll { x_shift: 1, y_shift: 1 });
    assert!(!scroll.handle_key_event(Key::Right, true));
    assert!(!scroll.handle_key_event(Key::Right, true));
    assert_eq!(scroll, Scroll { x_shift: -1, y_shift: 1 });
    assert!(!scroll.handle_key_event(Key::Down, true));
    assert!(!scroll.handle_key_event(Key::Down, true));
    assert!(!scroll.handle_key_event(Key::Down, true));
    assert_eq!(scroll, Scroll { x_shift: -1, y_shift: -2 });
}

#[test]
fn arrow_keys_move_the_canvas_when_released_too() {
    let mut scroll = Scroll { x_shift: 5, y_shift: 5 };
    assert!(!scroll.handle_key_event(Key::Left, false));
    assert!(!scroll.handle_key_event(Key::Down, false));
    assert_eq!(scroll, Scroll { x_shift: 6, y_shift: 4 });
}

#[test]
fn other_keys_move_nothing() {
    let mut scroll = Scroll { x_shift: 3, y_shift: -3 };
    for key in [Key::Other, Key::Char('x'), Key::Char('Q')] {
        assert!(!scroll.handle_key_event(key, true));
        assert!(!scroll.handle_key_event(key, false));
    }
    assert_eq!(scroll, Scroll { x_shift: 3, y_shift: -3 });
}

#[test]
fn a_press_of_q_stops_the_canvas_and_a_release_does_not() {
    let mut scroll = Scroll { x_shift: 3, y_shift: -3 };
    assert!(!scroll.handle_key_event(Key::Char('q'), false));
    assert!(scroll.handle_key_event(Key::Char('q'), true));
    assert_eq!(scroll, Scroll { x_shift: 3, y_shift: -3 });
}

#[test]
fn canvas_cannot_move_past_the_ends_of_the_integers() {
    let far = Scroll { x_shift: i32::MAX, y_shift: i32::MIN };
    assert!(!far.can_take(Key::Left));
    assert!(far.can_take(Key::Right));
    assert!(far.can_take(Key::Up));
    assert!(!far.can_take(Key::Down));
    assert!(far.can_take(Key::Other));
    assert!(far.can_take(Key::Char('q')));
    let far = Scroll { x_shift: i32::MIN, y_shift: i32::MAX };
    assert!(far.can_take(Key::Left));
    assert!(!far.can_take(Key::Right));
    assert!(!far.can_take(Key::Up));
    assert!(far.can_take(Key::Down));
    let mut near = Scroll { x_shift: i32::MAX - 1, y_shift: 0 };
    assert!(near.can_take(Key::Left));
    near.handle_key_event(Key::Left, true);
    assert_eq!(near.x_shift, i32::MAX);
}

fn area(x: u16, y: u16, width: u16, height: u16) -> Area {
    Area { x, y, width, height }
}

#[test]
fn rectangle_inside_the_screen_is_kept() {
    assert_eq!(signed_rect_intersection((3, 2, 20, 3), area(0, 0, 80, 24)), area(3, 2, 20, 3));
}

#[test]
fn rectangle_that_starts_left_of_the_screen_is_cut() {
    assert_eq!(signed_rect_intersection((-5, 2, 20, 3), area(0, 0, 80, 24)), area(0, 2, 15, 3));
}

#[test]
fn rectangle_that_ends_right_of_the_screen_is_cut() {
    assert_eq!(signed_rect_intersection((70, 3, 20, 5), area(0, 0, 80, 24)), area(70, 3, 10, 5));
}

#[test]
fn rectangle_off_the_screen_has_no_width() {
    assert_eq!(signed_rect_intersection((-30, 0, 20, 1), area(0, 0, 80, 24)), area(0, 0, 0, 1));
    assert_eq!(signed_rect_intersection((90, 0, 20, 1), area(0, 0, 80, 24)), area(80, 0, 0, 1));
}

#[test]
fn rectangle_corner_is_moved_into_the_screen() {
    assert_eq!(signed_rect_intersection((70, 30, 20, 5), area(0, 0, 80, 24)), area(70, 24, 10, 5));
    assert_eq!(signed_rect_intersection((0, 0, 30, 8), area(10, 5, 40, 10)), area(10, 5, 20, 0));
}

#[test]
fn rectangle_is_never_wider_than_the_screen() {
    assert_eq!(
        signed_rect_intersection((0, 0, 500, 100), area(0, 0, 80, 24)),
        area(0, 0, 80, 80)
    );
}

#[test]
fn intersection_needs_sums_that_fit() {
    assert!(can_intersect((0, 0, 10, 10), area(0, 0, 80, 24)));
    assert!(can_intersect((-5, -5, 10, 10), area(65535, 65535, 0, 0)));
    assert!(!can_intersect((0, 0, 10, 10), area(65535, 0, 1, 1)));
    assert!(!can_intersect((0, 0, 10, 10), area(0, 65535, 1, 1)));
    assert!(!can_intersect((i32::MAX, 0, 1, 10), area(0, 0, 80, 24)));
    assert!(!can_intersect((0, i32::MAX, 10, 1), area(0, 0, 80, 24)));
    assert!(!can_intersect((i32::MIN, 0, 0, 0), area(1, 0, 80, 24)));
    assert!(!can_intersect((0, i32::MIN, 0, 0), area(1, 0, 80, 24)));
    assert!(!can_intersect((i32::MIN, i32::MIN, 0, 0), area(0, 0, 0, 0)));
    assert!(can_intersect((-i32::MAX, -i32::MAX, 0, 0), area(0, 0, 0, 0)));
    assert!(!can_intersect((i32::MIN, 0, 0, 0), area(0, 0, 1, 0)));
    assert!(can_intersect((i32::MAX, i32::MAX, 0, 0), area(0, 0, 80, 24)));
}
