use pathfinder::map::{compute_layout, gen_map_dimensions, gen_stuff, render, Compositor};
use pathfinder::node::{Draw, Group, Link, MapError, Node};
use pathfinder::shape::{Circle, Square, Triangle};
use pathfinder::tools::{border, calculate_hash, offset_point};
use pathfinder::Shape;
use pathfinder::{gen_canvas, Canvas, Color, Coordinate, Network};

fn c(x: i16, y: i16) -> Coordinate {
    Coordinate::new(x, y)
}

fn pixel(img: &Canvas, x: u32, y: u32) -> [u8; 4] {
    let bytes = img.to_bytes();
    let i = ((y * img.width() + x) * 4) as usize;
    [bytes[i], bytes[i + 1], bytes[i + 2], bytes[i + 3]]
}

#[test]
fn blank_canvas_is_transparent() {
    let img = gen_canvas(3, 2);
    assert_eq!(img.width(), 3);
    assert_eq!(img.height(), 2);
    assert_eq!(img.to_bytes(), vec![0u8; 24]);
}

#[test]
fn layout_of_nothing_is_empty_input() {
    let none: Vec<Node<Square>> = Vec::new();
    assert_eq!(compute_layout(&none, 4).unwrap_err(), MapError::EmptyInput);
    assert_eq!(render(&none, 4).unwrap_err(), MapError::EmptyInput);
    let empty_group: Vec<Group<Square>> = vec![Group::new_simple(3, 3)];
    assert_eq!(render(&empty_group, 4).unwrap_err(), MapError::EmptyInput);
}

#[test]
fn layout_of_one_anchor() {
    let p = c(-7, 12);
    assert_eq!(gen_map_dimensions(((p.x, p.x), (p.y, p.y))), (0, 0));
    let nodes: Vec<Node<Square>> = vec![Node::new("p", p)];
    let l = compute_layout(&nodes, 4).unwrap();
    assert_eq!((l.width, l.height), (8, 8));
    assert_eq!(l.offset, (7, -12));
    assert_eq!(l.min, p);
    assert_eq!(l.max, p);
    assert_eq!(compute_layout(&nodes, 0).unwrap_err(), MapError::EmptyInput);
}

#[test]
fn layout_bounds_and_offset() {
    let nodes: Vec<Node<Square>> = vec![
        Node::new("a", c(-3, 5)),
        Node::new("b", c(10, -2)),
        Node::new("c", c(4, 9)),
    ];
    let l = compute_layout(&nodes, 4).unwrap();
    assert_eq!(l.min, c(-3, -2));
    assert_eq!(l.max, c(10, 9));
    assert_eq!(l.offset, (3, 2));
    assert_eq!((l.width, l.height), (13 + 8, 11 + 8));
    assert_eq!(gen_stuff(((-32768, 0), (5, 6))), (32768, -5));
    assert_eq!(gen_map_dimensions(((-32768, 32767), (0, 1))), (65535, 1));
}

#[test]
fn layout_counts_link_ends_and_group_children() {
    let links = vec![Link::new(&c(-4, 0), &c(6, 3))];
    let l = compute_layout(&links, 1).unwrap();
    assert_eq!((l.width, l.height), (12, 5));
    let mut g: Group<Square> = Group::new("g", c(100, 100));
    g.push(Node::new("a", c(0, 0)));
    g.push(Node::new("b", c(5, 2)));
    let l = compute_layout(&[g], 1).unwrap();
    assert_eq!(l.min, c(0, 0));
    assert_eq!((l.width, l.height), (7, 4));
}

#[test]
fn gradient_far_away_is_clamped() {
    let mut g: Group<Square> = Group::new_simple(0, 0);
    g.settings.color = Color::new(200, 150, 100, 77);
    assert_eq!(g.gen_color(c(1000, 1000)), Color::new(0, 0, 0, 77));
    assert_eq!(g.gen_color(c(-1000, -1000)), Color::new(255, 255, 255, 77));
    assert_eq!(g.gen_color(c(32767, 32767)), Color::new(0, 0, 0, 77));
}

#[test]
fn gradient_exact_value() {
    let mut g: Group<Square> = Group::new_simple(0, 0);
    g.settings.color = Color::new(90, 60, 30, 255);
    // radius 7, average 60, modifier -60 * (7 + 0) / 14 = -30
    assert_eq!(g.get_dynamic_radius(), 7);
    assert_eq!(g.gen_color(c(7, 0)), Color::new(60, 30, 0, 255));
    // modifier -60 * (-3 - 1) / 14 = 17.14.. -> 17
    assert_eq!(g.gen_color(c(-3, -1)), Color::new(107, 77, 47, 255));
    // modifier -60 * 1 / 14 = -4.28.. -> -4
    assert_eq!(g.gen_color(c(1, 0)), Color::new(86, 56, 26, 255));
}

#[test]
fn gradient_with_zero_radius_scales_by_one() {
    let mut g: Group<Square> = Group::new_simple(0, 0);
    g.settings.color = Color::new(30, 30, 30, 255);
    g.settings.radius = Some(0);
    // modifier -30 * 1 / 2 = -15
    assert_eq!(g.gen_color(c(1, 0)), Color::new(15, 15, 15, 255));
}

#[test]
fn group_node_at_center_keeps_base_color() {
    let mut g: Group<Square> = Group::new_simple(0, 0);
    g.settings.color = Color::new(100, 100, 100, 255);
    let n = g.new_node_inner(c(0, 0), "a");
    assert_eq!(n.color, Color::new(100, 100, 100, 255));
    assert_eq!(g.nodes.len(), 1);
}

#[test]
fn dynamic_radius_grows_with_nodes() {
    let mut g: Group<Square> = Group::new("g", c(0, 0));
    assert_eq!(g.get_dynamic_radius(), 7);
    for i in 0..5 {
        g.push(Node::new(&format!("{}", i), c(i, i)));
    }
    assert_eq!(g.get_dynamic_radius(), 9);
    g.settings.radius = Some(3);
    assert_eq!(g.get_dynamic_radius(), 3);
}

#[test]
fn random_nodes_stay_in_band() {
    let mut g: Group<Square> = Group::new("g", c(10, -10));
    g.settings.radius = Some(2);
    for _ in 0..50 {
        let n = g.new_node_min_max("n", 3, 6);
        let dx = (n.geo.x as i32 - 10).abs();
        let dy = (n.geo.y as i32 + 10).abs();
        assert!((3..=6).contains(&dx));
        assert!((3..=6).contains(&dy));
        assert_eq!(n.radius, Some(2));
    }
    g.new_node("m");
    let n = g.new_node_min_auto("k", 0);
    assert!((n.geo.x as i32 - 10).abs() <= 5);
    assert_eq!(g.nodes.len(), 52);
}

#[test]
fn two_linked_nodes_render() {
    let b: Node<Triangle> = Node::new("B", c(10, 10));
    let mut a: Node<Triangle> = Node::new("A", c(0, 0));
    a.link(&b);
    let img = render(&[a, b], 4).unwrap();
    assert_eq!(img.width(), 10 + 2 * 4);
    assert_eq!(img.height(), 10 + 2 * 4);
    let background = [0, 0, 0, 0];
    assert_eq!(pixel(&img, 0, 0), background);
    assert_eq!(pixel(&img, 17, 0), background);
    assert_eq!(pixel(&img, 0, 17), background);
    assert_eq!(pixel(&img, 17, 17), background);
    for k in 2..=12 {
        assert_eq!(pixel(&img, k, k), [0, 0, 0, 255]);
    }
}

#[test]
fn square_node_paints_its_corner() {
    let mut n: Node<Square> = Node::new("n", c(5, 5));
    n.color = Color::new(1, 2, 3, 4);
    let img = render(&[n], 2).unwrap();
    assert_eq!((img.width(), img.height()), (4, 4));
    assert_eq!(pixel(&img, 0, 0), [1, 2, 3, 4]);
    assert_eq!(pixel(&img, 1, 1), [1, 2, 3, 4]);
    assert_eq!(pixel(&img, 2, 2), [0, 0, 0, 0]);
}

#[test]
fn later_drawables_paint_over_earlier() {
    let mut first: Node<Square> = Node::new("a", c(0, 0));
    first.color = Color::new(255, 0, 0, 255);
    let mut second: Node<Square> = Node::new("b", c(1, 1));
    second.color = Color::new(0, 0, 255, 255);
    let img = render(&[first, second], 2).unwrap();
    assert_eq!(pixel(&img, 0, 0), [255, 0, 0, 255]);
    assert_eq!(pixel(&img, 1, 1), [0, 0, 255, 255]);
}

#[test]
fn render_twice_is_identical() {
    let b: Node<Square> = Node::new("B", c(-4, 9));
    let mut a: Node<Square> = Node::new("A", c(3, -2));
    a.link(&b);
    a.color = Color::new(9, 8, 7, 255);
    let list = vec![a, b];
    let first = render(&list, 4).unwrap();
    let second = render(&list, 4).unwrap();
    assert_eq!(first.to_bytes(), second.to_bytes());
    assert_eq!((first.width(), first.height()), (second.width(), second.height()));
}

#[test]
fn circle_at_the_edge_is_out_of_bounds() {
    let n: Node<Circle> = Node::new("c", c(0, 0));
    assert_eq!(render(&[n], 4).unwrap_err(), MapError::OutOfBounds);
}

#[test]
fn link_to_unlisted_node_is_out_of_bounds() {
    let far: Node<Square> = Node::new("far", c(500, 500));
    let mut a: Node<Square> = Node::new("a", c(0, 0));
    a.link(&far);
    assert_eq!(render(&[a], 4).unwrap_err(), MapError::OutOfBounds);
}

#[test]
fn oversized_shape_is_invalid() {
    let mut n: Node<Square> = Node::new("n", c(0, 0));
    n.radius = Some(40000);
    let m: Node<Square> = Node::new("m", c(3, 3));
    assert_eq!(render(&[m, n], 4).unwrap_err(), MapError::InvalidShapeSize);
    let p: Node<Square> = Node::new("p", c(3, 3));
    assert_eq!(render(&[p], 40000).unwrap_err(), MapError::InvalidShapeSize);
}

#[test]
fn compositor_reuses_its_canvas() {
    let a: Node<Square> = Node::new("a", c(0, 0));
    let b: Node<Square> = Node::new("b", c(6, 6));
    let m = Compositor::new().map(&[a, b]).unwrap();
    assert_eq!(m.add, (0, 0));
    assert_eq!(m.size, 4);
    let link = Link::new(&c(0, 0), &c(6, 6));
    let m = m.map(&[link]).unwrap();
    let img = m.image.unwrap();
    assert_eq!((img.width(), img.height()), (14, 14));
    assert_eq!(pixel(&img, 8, 8), [0, 0, 0, 255]);
    assert_eq!(pixel(&img, 13, 0), [0, 0, 0, 0]);
}

#[test]
fn sizes_and_coordinates() {
    let mut n: Node<Square> = Node::new("n", c(1, 2));
    assert_eq!(n.get_size(), 4);
    n.radius = Some(9);
    assert_eq!(n.get_size(), 9);
    assert_eq!(*n.get_coordinate(), c(1, 2));
    let mut g: Group<Square> = Group::new("g", c(3, 4));
    assert_eq!(g.get_size(), 0);
    g.push(n);
    g.push(Node::new("m", c(0, 0)));
    assert_eq!(g.get_size(), 9);
    g.settings.radius = Some(2);
    assert_eq!(g.get_size(), 11);
    assert_eq!(*g.get_coordinate(), c(3, 4));
    let l = Link::new(&c(1, 1), &c(2, 2));
    assert_eq!(l.get_size(), 1);
    assert_eq!(*l.get_coordinate(), c(2, 2));
}

#[test]
fn links_compare_by_end_points() {
    let mut a = Link::new(&c(1, 1), &c(2, 2));
    let b = Link::new(&c(1, 1), &c(2, 2));
    a.color = Color::new(5, 5, 5, 5);
    assert!(a == b);
    assert!(a != Link::new(&c(1, 1), &c(2, 3)));
}

#[test]
fn node_link_records_both_ends() {
    let b: Node<Square> = Node::new("B", c(100, 100));
    let mut a: Node<Square> = Node::new("A", c(0, 0));
    a.link(&b);
    assert_eq!(a.connections[0].to, b.geo);
    assert_eq!(a.connections[0].from, a.geo);
    let gb: Group<Square> = Group::new("B", c(100, 100));
    let mut ga: Group<Square> = Group::new("A", c(0, 0));
    ga.link(&gb);
    assert_eq!(ga.settings.connections[0].to, gb.settings.geo);
}

#[test]
fn names_hash_with_fnv1a() {
    assert_eq!(calculate_hash(""), 0xcbf2_9ce4_8422_2325);
    assert_eq!(calculate_hash("a"), 0xaf63_dc4c_8601_ec8c);
    let n: Node<Square> = Node::new("a", c(0, 0));
    assert_eq!(n.hash, 0xaf63_dc4c_8601_ec8c);
    assert_ne!(calculate_hash("A"), calculate_hash("B"));
}

#[test]
fn border_clamps_channels() {
    assert_eq!(border(100, 50), 150);
    assert_eq!(border(100, -150), 0);
    assert_eq!(border(200, 100), 255);
    assert_eq!(border(7, 0), 7);
}

#[test]
fn network_finds_by_hash() {
    let net = Network::new(vec![
        Node::<Square>::new("a", c(0, 0)),
        Node::<Square>::new("b", c(1, 1)),
    ]);
    let probe: Node<Square> = Node::new("b", c(9, 9));
    let missing: Node<Square> = Node::new("z", c(0, 0));
    assert!(net.contains(&probe));
    assert_eq!(net.contains_index(&probe), Some(1));
    assert!(!net.contains(&missing));
    assert_eq!(net.contains_index(&missing), None);
}

#[test]
fn wide_link_paints_shifted_copies() {
    let link = Link::new(&c(0, 0), &c(4, 0));
    let img = link.draw_width(gen_canvas(8, 4), 0, 0, 0, 2).unwrap();
    for k in 0..3u32 {
        for x in 0..5u32 {
            assert_eq!(pixel(&img, x + k, k), [0, 0, 0, 255]);
        }
    }
    assert_eq!(pixel(&img, 0, 1), [0, 0, 0, 0]);
    assert_eq!(pixel(&img, 0, 3), [0, 0, 0, 0]);
    let too_wide = link.draw_width(gen_canvas(8, 4), 0, 0, 0, 4);
    assert_eq!(too_wide.unwrap_err(), MapError::OutOfBounds);
}

#[test]
fn node_bounds_of_nothing_is_empty_input() {
    let none: Vec<Node<Square>> = Vec::new();
    assert_eq!(pathfinder::gen_min_max(&none).unwrap_err(), MapError::EmptyInput);
    let nodes: Vec<Node<Square>> = vec![Node::new("a", c(4, -1)), Node::new("b", c(-2, 8))];
    assert_eq!(pathfinder::gen_min_max(&nodes).unwrap(), ((-2, 4), (-1, 8)));
}

#[test]
fn offset_point_moves_and_clamps() {
    assert_eq!(offset_point(&c(10, -10), 3, 5, false, true), c(13, -15));
    assert_eq!(offset_point(&c(10, -10), 3, 5, true, false), c(7, -5));
    assert_eq!(offset_point(&c(32760, -32760), 100, 100, false, true), c(32767, -32768));
}

#[test]
fn shape_size_limits() {
    assert_eq!(Square::size_limit(), 32768);
    assert_eq!(Circle::size_limit(), 32768);
    assert_eq!(Triangle::size_limit(), 32767);
    let mut t: Node<Triangle> = Node::new("t", c(0, 0));
    t.radius = Some(32768);
    assert_eq!(render(&[t], 4).unwrap_err(), MapError::InvalidShapeSize);
}

#[test]
fn link_paints_the_same_from_either_end() {
    let there = Link::new(&c(1, 2), &c(14, 7));
    let back = Link::new(&c(14, 7), &c(1, 2));
    let a = there.draw(gen_canvas(20, 12), 0, 0, 4).unwrap();
    let b = back.draw(gen_canvas(20, 12), 0, 0, 4).unwrap();
    assert_eq!(a.to_bytes(), b.to_bytes());
    assert_ne!(a.to_bytes(), vec![0u8; 20 * 12 * 4]);
}
