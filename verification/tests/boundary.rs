use kernel::boundary_geometry::boundary_loop::{assemble_loop, BoundaryElement, LoopConfig};
use kernel::boundary_geometry::checks::Axis;
use kernel::boundary_geometry::{BoundaryArc, BoundaryLine, BoundaryPolygon, Direction};
use kernel::error::{KernelError, LoopCheck};
use kernel::fixed::Scalar;
use kernel::geometry::point::Point;
use kernel::vector::Vec3;

fn scalar(v: f64) -> Scalar {
    Scalar::from_raw((v * 4294967296.0).round() as i64)
}

fn vec3(x: f64, y: f64, z: f64) -> Vec3 {
    Vec3::new(scalar(x), scalar(y), scalar(z))
}

fn line(a: (f64, f64, f64), b: (f64, f64, f64)) -> BoundaryElement {
    BoundaryElement::BoundaryLine(BoundaryLine::new(vec3(a.0, a.1, a.2), vec3(b.0, b.1, b.2)))
}

fn config() -> LoopConfig {
    LoopConfig { closure_tolerance: scalar(1e-6), arc_segments: 16 }
}

fn first_line(e: &BoundaryElement) -> (Vec3, Vec3) {
    match e {
        BoundaryElement::BoundaryLine(l) => (l.a.0, l.b.0),
        _ => panic!("a line was expected"),
    }
}

#[test]
fn closed_triangle_is_assembled_counter_clockwise() {
    let elements = vec![
        line((0., 0., 0.), (1., 0., 0.)),
        line((1., 0., 0.), (1., 1., 0.)),
        line((1., 1., 0.), (0., 0., 0.)),
    ];
    let assembled = assemble_loop(elements, &config()).unwrap();
    assert_eq!(assembled.winding, Direction::CCW);
    assert_eq!(assembled.axis, Axis::Z);
    assert_eq!(assembled.normal(), vec3(0., 0., 1.));
    assert_eq!(assembled.elements.len(), 3);
    assert_eq!(first_line(&assembled.elements[0]), (vec3(0., 0., 0.), vec3(1., 0., 0.)));
}

#[test]
fn clockwise_triangle_is_reversed_as_a_whole() {
    let elements = vec![
        line((0., 0., 0.), (1., 1., 0.)),
        line((1., 1., 0.), (1., 0., 0.)),
        line((1., 0., 0.), (0., 0., 0.)),
    ];
    let assembled = assemble_loop(elements, &config()).unwrap();
    assert_eq!(assembled.winding, Direction::CCW);
    assert_eq!(assembled.axis, Axis::Z);
    assert_eq!(first_line(&assembled.elements[0]), (vec3(0., 0., 0.), vec3(1., 0., 0.)));
    assert_eq!(first_line(&assembled.elements[1]), (vec3(1., 0., 0.), vec3(1., 1., 0.)));
    assert_eq!(first_line(&assembled.elements[2]), (vec3(1., 1., 0.), vec3(0., 0., 0.)));
}

#[test]
fn lines_that_do_not_share_an_end_are_refused() {
    let elements = vec![line((0., 0., 0.), (1., 0., 0.)), line((2., 0., 0.), (2., 1., 0.))];
    let err = assemble_loop(elements, &config()).err().unwrap();
    assert_eq!(
        err,
        KernelError::InvalidLoop { check: LoopCheck::Continuity, first: 0, second: 1 }
    );
}

#[test]
fn open_chain_fails_closure() {
    let elements = vec![
        line((0., 0., 0.), (1., 0., 0.)),
        line((1., 0., 0.), (1., 1., 0.)),
        line((1., 1., 0.), (0., 1., 0.)),
    ];
    let err = assemble_loop(elements, &config()).err().unwrap();
    assert_eq!(err, KernelError::InvalidLoop { check: LoopCheck::Closure, first: 2, second: 0 });
}

#[test]
fn bow_tie_fails_simplicity() {
    let elements = vec![
        line((0., 0., 0.), (2., 2., 0.)),
        line((2., 2., 0.), (2., 0., 0.)),
        line((2., 0., 0.), (0., 2., 0.)),
        line((0., 2., 0.), (0., 0., 0.)),
    ];
    let err = assemble_loop(elements, &config()).err().unwrap();
    assert_eq!(
        err,
        KernelError::InvalidLoop { check: LoopCheck::Simplicity, first: 0, second: 2 }
    );
}

#[test]
fn edges_that_turn_both_ways_fail_winding() {
    // an arrow head: seen from its first corner the edges turn one way, then the other
    let elements = vec![
        line((0., 0., 0.), (4., 0., 0.)),
        line((4., 0., 0.), (4., 4., 0.)),
        line((4., 4., 0.), (3., 1., 0.)),
        line((3., 1., 0.), (0., 4., 0.)),
        line((0., 4., 0.), (0., 0., 0.)),
    ];
    let err = assemble_loop(elements, &config()).err().unwrap();
    assert_eq!(err, KernelError::InvalidLoop { check: LoopCheck::Winding, first: 1, second: 2 });
}

#[test]
fn flat_loop_fails_winding() {
    let elements = vec![line((0., 0., 0.), (1., 0., 0.)), line((1., 0., 0.), (0., 0., 0.))];
    let err = assemble_loop(elements, &config()).err().unwrap();
    assert_eq!(err, KernelError::InvalidLoop { check: LoopCheck::Winding, first: 0, second: 0 });
}

#[test]
fn empty_loop_and_bad_configuration_are_invalid_arguments() {
    assert_eq!(assemble_loop(Vec::new(), &config()).err().unwrap(), KernelError::InvalidArgument);
    let elements = vec![line((0., 0., 0.), (1., 0., 0.))];
    let negative = LoopConfig { closure_tolerance: scalar(-1.0), arc_segments: 16 };
    assert_eq!(assemble_loop(elements, &negative).err().unwrap(), KernelError::InvalidArgument);
    let elements = vec![line((0., 0., 0.), (1., 0., 0.))];
    let zero = LoopConfig { closure_tolerance: scalar(0.), arc_segments: 16 };
    assert_eq!(assemble_loop(elements, &zero).err().unwrap(), KernelError::InvalidArgument);
    let elements = vec![line((0., 0., 0.), (1., 0., 0.))];
    let no_chords = LoopConfig { closure_tolerance: scalar(1e-6), arc_segments: 0 };
    assert_eq!(assemble_loop(elements, &no_chords).err().unwrap(), KernelError::InvalidArgument);
}

#[test]
fn polygon_is_flattened_to_its_edges() {
    let chain = BoundaryPolygon::new(vec![
        Point::new(vec3(0., 0., 0.)),
        Point::new(vec3(2., 0., 0.)),
        Point::new(vec3(2., 2., 0.)),
        Point::new(vec3(0., 2., 0.)),
    ]);
    let elements =
        vec![BoundaryElement::BoundaryPolygon(chain), line((0., 2., 0.), (0., 0., 0.))];
    let assembled = assemble_loop(elements, &config()).unwrap();
    assert_eq!(assembled.axis, Axis::Z);
    assert_eq!(assembled.elements.len(), 2);
}

#[test]
fn polygon_with_one_vertex_is_refused() {
    let chain = BoundaryPolygon::new(vec![Point::new(vec3(0., 0., 0.))]);
    let elements = vec![BoundaryElement::BoundaryPolygon(chain)];
    assert_eq!(assemble_loop(elements, &config()).err().unwrap(), KernelError::InvalidArgument);
}

#[test]
fn half_disc_with_an_arc_is_assembled() {
    let arc = BoundaryArc::new(
        vec3(0., 0., 0.),
        scalar(1.),
        vec3(1., 0., 0.),
        vec3(0., 1., 0.),
        Direction::CW,
    )
    .unwrap();
    let elements = vec![
        BoundaryElement::BoundaryArc(arc),
        line((0., 1., 0.), (0., 0., 0.)),
        line((0., 0., 0.), (1., 0., 0.)),
    ];
    let assembled = assemble_loop(elements, &config()).unwrap();
    assert_eq!(assembled.axis, Axis::Z);
    assert_eq!(assembled.winding, Direction::CCW);
}

#[test]
fn arc_through_its_centre_line_is_degenerate() {
    let arc = BoundaryArc::new(
        vec3(0., 0., 0.),
        scalar(1.),
        vec3(1., 0., 0.),
        vec3(-1., 0., 0.),
        Direction::CW,
    )
    .unwrap();
    let elements =
        vec![BoundaryElement::BoundaryArc(arc), line((-1., 0., 0.), (1., 0., 0.))];
    assert_eq!(assemble_loop(elements, &config()).err().unwrap(), KernelError::DegenerateInput);
}

#[test]
fn boundary_arc_off_its_circle_is_refused() {
    let err = BoundaryArc::new(
        vec3(0., 0., 0.),
        scalar(1.),
        vec3(2., 0., 0.),
        vec3(0., 1., 0.),
        Direction::CW,
    )
    .err()
    .unwrap();
    assert_eq!(err, KernelError::DegenerateInput);
}

#[test]
fn triangle_in_another_plane_winds_about_its_own_axis() {
    let elements = vec![
        line((0., 0., 0.), (0., 1., 0.)),
        line((0., 1., 0.), (0., 1., 1.)),
        line((0., 1., 1.), (0., 0., 0.)),
    ];
    let assembled = assemble_loop(elements, &config()).unwrap();
    assert_eq!(assembled.axis, Axis::X);
    assert_eq!(assembled.normal(), vec3(1., 0., 0.));
}

#[test]
fn assembled_loop_is_drawn_as_segments() {
    let arc = BoundaryArc::new(
        vec3(0., 0., 0.),
        scalar(1.),
        vec3(1., 0., 0.),
        vec3(0., 1., 0.),
        Direction::CW,
    )
    .unwrap();
    let elements = vec![
        BoundaryElement::BoundaryArc(arc),
        line((0., 1., 0.), (0., 0., 0.)),
        line((0., 0., 0.), (1., 0., 0.)),
    ];
    let assembled = assemble_loop(elements, &LoopConfig::default()).unwrap();
    let lines = assembled.to_lines(4).unwrap();
    assert_eq!(lines.len(), 6);
    assert_eq!(assembled.to_lines(0).err().unwrap(), KernelError::InvalidArgument);
    assert_eq!(LoopConfig::default().arc_segments, 16);
}

#[test]
fn an_element_turns_as_the_sum_of_its_edges() {
    // the arrow head as one chain: its edges turn both ways, the chain as a whole one way
    let chain = BoundaryPolygon::new(vec![
        Point::new(vec3(0., 0., 0.)),
        Point::new(vec3(4., 0., 0.)),
        Point::new(vec3(4., 4., 0.)),
        Point::new(vec3(3., 1., 0.)),
        Point::new(vec3(0., 4., 0.)),
    ]);
    let elements =
        vec![BoundaryElement::BoundaryPolygon(chain), line((0., 4., 0.), (0., 0., 0.))];
    let assembled = assemble_loop(elements, &config()).unwrap();
    assert_eq!(assembled.winding, Direction::CCW);
    assert_eq!(assembled.axis, Axis::Z);
}
