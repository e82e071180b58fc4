//! Renders node-and-link graphs onto an RGBA pixel buffer: shape footprints,
//! line plotting, canvas layout and group colour gradients, with their
//! behaviour stated as contracts and proved.

use vstd::prelude::*;

pub mod canvas;
pub mod geometry;
pub mod map;
pub mod network;
pub mod node;
pub mod shape;
pub mod tools;

pub use canvas::{gen_canvas, Canvas, Color};
pub use geometry::{plot, Coordinate};
pub use map::{
    compute_layout, gen_map_dimensions, gen_min_max, gen_stuff, generate_image_buffer,
    groups_and_links, map_groups, map_links, map_nodes, min_max, node_and_links, render,
    Compositor, Layout,
};
pub use network::Network;
pub use node::{Draw, Group, Link, MapError, Node};
pub use shape::{Circle, Shape, Square, Triangle, MAX_SHAPE_SIZE, MAX_SQUARE_OR_CIRCLE_SIZE};

verus! {

} // verus!
