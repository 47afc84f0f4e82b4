//! The model behind the scrolling canvas: the nodes that are placed on it
//! and how far the canvas has been moved.
//!
//! Drawing and reading keys are left to the program around this library.

use crate::viewer::{Key, Scroll};
use std::collections::HashMap;
use vstd::prelude::*;
use vstd::std_specs::hash::group_hash_axioms;

verus! {

broadcast use group_hash_axioms;

/// A link that ends in one socket of a node and starts in a socket of
/// another.
#[derive(Debug)]
pub struct Connection {
    pub from_node: usize,
    pub from_socket: usize,
    pub to_socket: usize,
}

/// A socket of a node on the canvas.
#[derive(Debug)]
pub struct Socket {
    pub name: String,
    pub input: bool,
}

/// A node on the canvas.
#[derive(Debug)]
pub struct Node {
    name: String,
    x_pos: u16,
    y_pos: u16,
    id: usize,
    sockets: Vec<Socket>,
    connections: Vec<Connection>,
}

impl Node {
    /// The node's name.
    pub closed spec fn spec_name(&self) -> Seq<char> {
        self.name@
    }

    /// The id under which the canvas holds the node.
    pub closed spec fn spec_id(&self) -> usize {
        self.id
    }

    /// Where the node stands, as x and y.
    pub closed spec fn spec_pos(&self) -> (u16, u16) {
        (self.x_pos, self.y_pos)
    }

    /// The node's sockets, in the order in which they were added.
    pub closed spec fn spec_sockets(&self) -> Seq<Socket> {
        self.sockets@
    }

    /// The node's connections, in the order in which they were added.
    pub closed spec fn spec_connections(&self) -> Seq<Connection> {
        self.connections@
    }

    /// Whether the node is as it is made: named `name`, held under `id`,
    /// at the corner of the canvas, without sockets or connections.
    pub open spec fn is_new(&self, name: Seq<char>, id: usize) -> bool {
        &&& self.spec_name() == name
        &&& self.spec_id() == id
        &&& self.spec_pos() == (0u16, 0u16)
        &&& self.spec_sockets() == Seq::<Socket>::empty()
        &&& self.spec_connections() == Seq::<Connection>::empty()
    }

    /// The node's name.
    pub fn name(&self) -> (name: &str)
        ensures
            name@ == self.spec_name(),
    {
        self.name.as_str()
    }

    /// The id under which the canvas holds the node.
    pub fn id(&self) -> (id: usize)
        ensures
            id == self.spec_id(),
    {
        self.id
    }

    /// Moves the node to `x` and `y`.
    pub fn set_pos(&mut self, x: u16, y: u16)
        ensures
            final(self).spec_pos() == (x, y),
            final(self).spec_name() == old(self).spec_name(),
            final(self).spec_id() == old(self).spec_id(),
            final(self).spec_sockets() == old(self).spec_sockets(),
            final(self).spec_connections() == old(self).spec_connections(),
    {
        self.x_pos = x;
        self.y_pos = y;
    }

    /// Where the node stands, as x and y.
    pub fn get_pos(&self) -> (pos: (u16, u16))
        ensures
            pos == self.spec_pos(),
    {
        (self.x_pos, self.y_pos)
    }

    /// Adds a socket behind the others.
    pub fn add_socket(&mut self, socket: Socket)
        ensures
            final(self).spec_sockets() == old(self).spec_sockets().push(socket),
            final(self).spec_name() == old(self).spec_name(),
            final(self).spec_id() == old(self).spec_id(),
            final(self).spec_pos() == old(self).spec_pos(),
            final(self).spec_connections() == old(self).spec_connections(),
    {
        self.sockets.push(socket);
    }

    /// The node's sockets, in the order in which they were added.
    pub fn get_sockets(&self) -> (sockets: &Vec<Socket>)
        ensures
            sockets@ == self.spec_sockets(),
    {
        &self.sockets
    }

    /// Adds a connection behind the others.
    pub fn add_connection(&mut self, from_node: usize, from_socket: usize, to_socket: usize)
        ensures
            final(self).spec_connections() == old(self).spec_connections().push(
                (Connection { from_node, from_socket, to_socket }),
            ),
            final(self).spec_name() == old(self).spec_name(),
            final(self).spec_id() == old(self).spec_id(),
            final(self).spec_pos() == old(self).spec_pos(),
            final(self).spec_sockets() == old(self).spec_sockets(),
    {
        self.connections.push(Connection { from_node, from_socket, to_socket });
    }

    /// The node's connections, in the order in which they were added.
    pub fn get_connections(&self) -> (connections: &Vec<Connection>)
        ensures
            connections@ == self.spec_connections(),
    {
        &self.connections
    }
}

/// `HashMap::get_mut`, for a map from ids to nodes: a mutable reference to
/// the node that the map holds under `id`, or `None` where it holds none.
/// What is written through the reference is what the map holds under `id`
/// from then on, and nothing else in the map changes.
#[verifier::external_body]
fn lookup_mut<'a>(nodes: &'a mut HashMap<usize, Node>, id: usize) -> (node: Option<&'a mut Node>)
    ensures
        node.is_some() == old(nodes)@.contains_key(id),
        node matches Some(found) ==> *found == old(nodes)@[id]
            && final(nodes)@ == old(nodes)@.insert(id, *final(found)),
        node.is_none() ==> final(nodes)@ == old(nodes)@,
{
    nodes.get_mut(&id)
}

/// The canvas: its nodes by their ids, and how far it has been moved.
pub struct App {
    scroll: Scroll,
    nodes: HashMap<usize, Node>,
}

impl App {
    /// The nodes on the canvas, by their ids.
    pub closed spec fn spec_nodes(&self) -> Map<usize, Node> {
        self.nodes@
    }

    /// How far the canvas has been moved.
    pub closed spec fn spec_scroll(&self) -> Scroll {
        self.scroll
    }

    /// An empty canvas that has not been moved.
    pub fn new() -> (app: Self)
        ensures
            app.spec_nodes() == Map::<usize, Node>::empty(),
            app.spec_scroll() == (Scroll { x_shift: 0, y_shift: 0 }),
    {
        App { scroll: Scroll { x_shift: 0, y_shift: 0 }, nodes: HashMap::new() }
    }

    /// Puts a new node named `name` on the canvas and returns its id, which
    /// is the number of nodes that were there before.
    pub fn create_node(&mut self, name: &str) -> (id: usize)
        ensures
            id == old(self).spec_nodes().len(),
            final(self).spec_nodes().contains_key(id),
            final(self).spec_nodes()[id].is_new(name@, id),
            final(self).spec_nodes() == old(self).spec_nodes().insert(
                id,
                final(self).spec_nodes()[id],
            ),
            final(self).spec_scroll() == old(self).spec_scroll(),
    {
        let id: usize = self.nodes.len();
        let new_node = Node {
            name: name.to_owned(),
            x_pos: 0,
            y_pos: 0,
            id,
            sockets: vec![],
            connections: vec![],
        };
        self.nodes.insert(id, new_node);
        id
    }

    /// The node with the id `id`, if there is one.
    pub fn get_node(&self, id: usize) -> (node: Option<&Node>)
        ensures
            node.is_some() == self.spec_nodes().contains_key(id),
            node matches Some(found) ==> *found == self.spec_nodes()[id],
    {
        self.nodes.get(&id)
    }

    /// The node with the id `id`, if there is one, to be changed in place.
    pub fn get_node_mut(&mut self, id: usize) -> (node: Option<&mut Node>)
        ensures
            node.is_some() == old(self).spec_nodes().contains_key(id),
            node matches Some(found) ==> *found == old(self).spec_nodes()[id]
                && final(self).spec_nodes() == old(self).spec_nodes().insert(id, *final(found)),
            node.is_none() ==> final(self).spec_nodes() == old(self).spec_nodes(),
            final(self).spec_scroll() == old(self).spec_scroll(),
    {
        lookup_mut(&mut self.nodes, id)
    }

    /// The nodes on the canvas, by their ids.
    pub fn nodes(&self) -> (nodes: &HashMap<usize, Node>)
        ensures
            nodes@ == self.spec_nodes(),
    {
        &self.nodes
    }

    /// How far the canvas has been moved.
    pub fn scroll(&self) -> (scroll: Scroll)
        ensures
            scroll == self.spec_scroll(),
    {
        self.scroll
    }

    /// Takes a key event and says whether the viewer stops: the canvas
    /// moves as [`Scroll::handle_key_event`] says, and its nodes stay.
    pub fn handle_key_event(&mut self, key: Key, pressed: bool) -> (stop: bool)
        requires
            !(pressed && key == Key::Char('q')) ==> old(self).spec_scroll().can_move(key),
        ensures
            stop == (pressed && key == Key::Char('q')),
            stop ==> final(self).spec_scroll() == old(self).spec_scroll(),
            !stop ==> (
                final(self).spec_scroll().x_shift as int,
                final(self).spec_scroll().y_shift as int,
            ) == old(self).spec_scroll().moved(key),
            final(self).spec_nodes() == old(self).spec_nodes(),
    {
        self.scroll.handle_key_event(key, pressed)
    }
}

} // verus!
