//! The model behind the terminal viewer: a node with its sockets as the
//! viewer shows them, and the state of the viewer between two key presses.
//!
//! Drawing and reading keys are left to the program around this library.

use vstd::math::{max, min};
use vstd::prelude::*;

verus! {

/// The side of a node on which a socket sits.
#[derive(Debug, Clone, Copy, PartialEq, Eq)]
pub enum SocketDirection {
    Input,
    Output,
    /// On neither side.
    Neither,
}

/// The kind of row in which a socket is shown.
#[derive(Debug, Clone, Copy, PartialEq, Eq)]
pub enum SocketType {
    Named,
    Text,
    Number,
    Select,
    Switch,
}

/// A socket as the viewer shows it.
#[derive(Debug)]
pub struct SocketExt {
    pub name: String,
    pub direction: SocketDirection,
    pub socket_type: SocketType,
    pub value: String,
    pub is_repetitive: bool,
}

impl Clone for SocketExt {
    fn clone(&self) -> (copy: Self)
        ensures
            copy == *self,
    {
        SocketExt {
            name: self.name.clone(),
            direction: self.direction,
            socket_type: self.socket_type,
            value: self.value.clone(),
            is_repetitive: self.is_repetitive,
        }
    }
}

impl SocketExt {
    /// A socket with the given fields. Its name and its value are what `T`
    /// converts to, as far as that conversion is specified.
    pub fn new<T>(
        name: T,
        direction: SocketDirection,
        socket_type: SocketType,
        value: T,
        is_repetitive: bool,
    ) -> (socket: Self) where T: Into<String>
        ensures
            socket.direction == direction,
            socket.socket_type == socket_type,
            socket.is_repetitive == is_repetitive,
            call_ensures(T::into, (name,), socket.name),
            call_ensures(T::into, (value,), socket.value),
    {
        SocketExt { name: name.into(), direction, socket_type, value: value.into(), is_repetitive }
    }
}

/// The screen row of the socket in port `port_index`: sockets start on row
/// 4 and take every other row.
pub open spec fn spec_socket_row(port_index: u8) -> int {
    4 + port_index * 2
}

/// The screen row of the socket in port `port_index`, which must be small
/// enough for the row to fit in a byte.
pub fn socket_row(port_index: u8) -> (row: u16)
    requires
        spec_socket_row(port_index) <= u8::MAX,
    ensures
        row == spec_socket_row(port_index),
{
    (4 + port_index * 2) as u16
}

/// A node as the viewer shows it: a title and a row for each socket.
#[derive(Debug)]
pub struct NodeExt {
    name: String,
    sockets: Vec<SocketExt>,
}

impl Clone for NodeExt {
    fn clone(&self) -> (copy: Self)
        ensures
            copy.spec_name() == self.spec_name(),
            copy.spec_sockets() == self.spec_sockets(),
    {
        let mut sockets: Vec<SocketExt> = Vec::with_capacity(self.sockets.len());
        let mut i: usize = 0;
        while i < self.sockets.len()
            invariant
                i <= self.sockets.len(),
                sockets@ == self.sockets@.take(i as int),
            decreases self.sockets.len() - i,
        {
            sockets.push(self.sockets[i].clone());
            i = i + 1;
        }
        NodeExt { name: self.name.clone(), sockets }
    }
}

impl NodeExt {
    /// The title.
    pub closed spec fn spec_name(&self) -> String {
        self.name
    }

    /// The sockets, in the order of their ports.
    pub closed spec fn spec_sockets(&self) -> Seq<SocketExt> {
        self.sockets@
    }

    /// A node with the given title and sockets. The title is what `T`
    /// converts to, as far as that conversion is specified.
    pub fn new<T>(name: T, sockets: Vec<SocketExt>) -> (node: Self) where T: Into<String>
        ensures
            node.spec_sockets() == sockets@,
            call_ensures(T::into, (name,), node.spec_name()),
    {
        NodeExt { name: name.into(), sockets }
    }

    /// Adds a socket in the next port, and returns a copy of the node as it
    /// then is.
    pub fn add_socket(&mut self, socket: SocketExt) -> (node: Self)
        ensures
            final(self).spec_name() == old(self).spec_name(),
            final(self).spec_sockets() == old(self).spec_sockets().push(socket),
            node.spec_name() == final(self).spec_name(),
            node.spec_sockets() == final(self).spec_sockets(),
    {
        self.sockets.push(socket);
        self.clone()
    }

    /// The title.
    pub fn name(&self) -> (name: &str)
        ensures
            name@ == self.spec_name()@,
    {
        self.name.as_str()
    }

    /// The sockets, in the order of their ports.
    pub fn sockets(&self) -> (sockets: &Vec<SocketExt>)
        ensures
            sockets@ == self.spec_sockets(),
    {
        &self.sockets
    }
}

/// What the viewer tells apart of a key.
#[derive(Debug, Clone, Copy, PartialEq, Eq)]
pub enum Key {
    Char(char),
    Left,
    Right,
    Up,
    Down,
    Other,
}

/// How far a canvas of nodes has been moved under the screen.
#[derive(Debug, Clone, Copy, PartialEq, Eq)]
pub struct Scroll {
    pub x_shift: i32,
    pub y_shift: i32,
}

impl Scroll {
    /// Where the canvas is after the arrow key `key`: one cell further in
    /// the direction opposite to the arrow. Any other key leaves it.
    pub open spec fn moved(self, key: Key) -> (int, int) {
        match key {
            Key::Left => (self.x_shift + 1, self.y_shift as int),
            Key::Right => (self.x_shift - 1, self.y_shift as int),
            Key::Up => (self.x_shift as int, self.y_shift + 1),
            Key::Down => (self.x_shift as int, self.y_shift - 1),
            _ => (self.x_shift as int, self.y_shift as int),
        }
    }

    /// Whether the canvas can still be moved by `key`.
    pub open spec fn can_move(self, key: Key) -> bool {
        i32::MIN <= self.moved(key).0 <= i32::MAX && i32::MIN <= self.moved(key).1 <= i32::MAX
    }

    /// Decides [`Scroll::can_move`].
    pub fn can_take(&self, key: Key) -> (can: bool)
        ensures
            can == self.can_move(key),
    {
        match key {
            Key::Left => self.x_shift < i32::MAX,
            Key::Right => self.x_shift > i32::MIN,
            Key::Up => self.y_shift < i32::MAX,
            Key::Down => self.y_shift > i32::MIN,
            _ => true,
        }
    }

    /// Takes a key event and says whether the viewer stops. A press of `q`
    /// stops it and moves nothing. Any other event moves the canvas by the
    /// key, pressed or not, and the viewer goes on.
    pub fn handle_key_event(&mut self, key: Key, pressed: bool) -> (stop: bool)
        requires
            !(pressed && key == Key::Char('q')) ==> old(self).can_move(key),
        ensures
            stop == (pressed && key == Key::Char('q')),
            stop ==> *final(self) == *old(self),
            !stop ==> (final(self).x_shift as int, final(self).y_shift as int) == old(self).moved(
                key,
            ),
    {
        if pressed {
            match key {
                Key::Char('q') => {
                    return true;
                },
                _ => {},
            }
        }
        match key {
            Key::Left => self.x_shift += 1,
            Key::Right => self.x_shift -= 1,
            Key::Up => self.y_shift += 1,
            Key::Down => self.y_shift -= 1,
            _ => (),
        }
        false
    }
}

/// The viewer's state: the node it shows, and whether it has been told to
/// stop.
#[derive(Debug)]
pub struct App {
    node_ext: NodeExt,
    exit: bool,
}

impl App {
    /// The node that is shown.
    pub closed spec fn spec_node_ext(&self) -> NodeExt {
        self.node_ext
    }

    /// Whether the viewer has been told to stop.
    pub closed spec fn spec_exited(&self) -> bool {
        self.exit
    }

    /// A viewer that shows `node_ext` and runs.
    pub fn new(node_ext: NodeExt) -> (app: Self)
        ensures
            app.spec_node_ext() == node_ext,
            !app.spec_exited(),
    {
        App { node_ext, exit: false }
    }

    /// The node that is shown.
    pub fn node_ext(&self) -> (node: &NodeExt)
        ensures
            *node == self.spec_node_ext(),
    {
        &self.node_ext
    }

    /// Whether the viewer has been told to stop.
    pub fn exited(&self) -> (exited: bool)
        ensures
            exited == self.spec_exited(),
    {
        self.exit
    }

    /// Takes a key press: `q` stops the viewer, any other key changes
    /// nothing.
    pub fn handle_key_event(&mut self, key: Key)
        ensures
            final(self).spec_node_ext() == old(self).spec_node_ext(),
            final(self).spec_exited() == (old(self).spec_exited() || key == Key::Char('q')),
    {
        match key {
            Key::Char('q') => self.exit(),
            _ => {},
        }
    }

    /// Stops the viewer.
    pub fn exit(&mut self)
        ensures
            final(self).spec_node_ext() == old(self).spec_node_ext(),
            final(self).spec_exited(),
    {
        self.exit = true;
    }
}

/// A rectangle of screen cells.
#[derive(Debug, Clone, Copy, PartialEq, Eq)]
pub struct Area {
    pub x: u16,
    pub y: u16,
    pub width: u16,
    pub height: u16,
}

/// The part of the rectangle `signed_rect`, given as x, y, width and height
/// in coordinates that may be negative, that is styled when the rectangle
/// is drawn on the screen `other`.
///
/// Its corner is the rectangle's corner moved into `other`. Its width is
/// the rectangle's width, less what lies left of `other`'s left edge, no
/// more than what lies between the rectangle's left edge and `other`'s
/// right edge, at least 0 and at most `other`'s width. Its height is the
/// same with the rectangle's y and height, cut against the horizontal
/// extent of `other` as the width is.
pub open spec fn spec_signed_rect_intersection(signed_rect: (i32, i32, i32, i32), other: Area) -> (
    int,
    int,
    int,
    int,
) {
    let right = other.x + other.width;
    let bottom = other.y + other.height;
    (
        min(max(signed_rect.0 as int, other.x as int), right),
        min(max(signed_rect.1 as int, other.y as int), bottom),
        min(
            max(
                min(
                    min(signed_rect.2 as int, signed_rect.0 + signed_rect.2 - other.x),
                    right - signed_rect.0,
                ),
                0,
            ),
            other.width as int,
        ),
        min(
            max(
                min(
                    min(signed_rect.3 as int, signed_rect.1 + signed_rect.3 - other.x),
                    right - signed_rect.1,
                ),
                0,
            ),
            other.width as int,
        ),
    )
}

/// Whether `v` is a value of `i32`.
pub open spec fn fits_i32(v: int) -> bool {
    i32::MIN <= v <= i32::MAX
}

/// Whether [`signed_rect_intersection`] can be computed in the integers of
/// the machine: the far edges of `other` fit in sixteen bits, and the sums
/// and differences that are taken on the way fit in thirty-two.
pub open spec fn intersection_fits(signed_rect: (i32, i32, i32, i32), other: Area) -> bool {
    &&& other.x + other.width <= u16::MAX
    &&& other.y + other.height <= u16::MAX
    &&& fits_i32(signed_rect.0 + signed_rect.2)
    &&& fits_i32(signed_rect.0 + signed_rect.2 - other.x)
    &&& fits_i32(other.x + other.width - signed_rect.0)
    &&& fits_i32(signed_rect.1 + signed_rect.3)
    &&& fits_i32(signed_rect.1 + signed_rect.3 - other.x)
    &&& fits_i32(other.x + other.width - signed_rect.1)
}

/// Decides [`intersection_fits`].
pub fn can_intersect(signed_rect: (i32, i32, i32, i32), other: Area) -> (fits: bool)
    ensures
        fits == intersection_fits(signed_rect, other),
{
    let right: i64 = other.x as i64 + other.width as i64;
    let bottom: i64 = other.y as i64 + other.height as i64;
    let x: i64 = signed_rect.0 as i64;
    let y: i64 = signed_rect.1 as i64;
    let far_x: i64 = x + signed_rect.2 as i64;
    let far_y: i64 = y + signed_rect.3 as i64;
    right <= 0xFFFF && bottom <= 0xFFFF && in_i32(far_x) && in_i32(far_x - other.x as i64)
        && in_i32(right - x) && in_i32(far_y) && in_i32(far_y - other.x as i64) && in_i32(
        right - y,
    )
}

/// Decides [`fits_i32`] for a value of `i64`.
fn in_i32(v: i64) -> (fits: bool)
    ensures
        fits == fits_i32(v as int),
{
    -0x8000_0000 <= v && v <= 0x7FFF_FFFF
}

/// The part of `signed_rect` that is styled on the screen `other`.
pub fn signed_rect_intersection(signed_rect: (i32, i32, i32, i32), other: Area) -> (part: Area)
    requires
        intersection_fits(signed_rect, other),
    ensures
        (part.x as int, part.y as int, part.width as int, part.height as int)
            == spec_signed_rect_intersection(signed_rect, other),
{
    let x: u16 = signed_rect.0.max(other.x as i32).min((other.x + other.width) as i32) as u16;
    let y: u16 = signed_rect.1.max(other.y as i32).min((other.y + other.height) as i32) as u16;
    let width: u16 = signed_rect.2.min(signed_rect.0 + signed_rect.2 - other.x as i32).min(
        (other.x + other.width) as i32 - signed_rect.0,
    ).max(0).min(other.width as i32) as u16;
    let height: u16 = signed_rect.3.min(signed_rect.1 + signed_rect.3 - other.x as i32).min(
        (other.x + other.width) as i32 - signed_rect.1,
    ).max(0).min(other.width as i32) as u16;

    Area { x, y, width, height }
}

} // verus!
