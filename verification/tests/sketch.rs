use kernel::error::KernelError;
use kernel::fixed::Scalar;
use kernel::geometry::arc::{Arc, ArcDirection};
use kernel::geometry::line::{ImplicitLine, Line, ParametricLine, TwoPointLine};
use kernel::geometry::point::Point;
use kernel::sketch::relations::{
    Coincident, CoincidentOther, ElementKind, Perpendicular, Relation, Tangent, TangentOther,
};
use kernel::sketch::accounting::{count_equations, count_free_parameters};
use kernel::sketch::solver::{SolveReport, SolverConfig};
use kernel::sketch::{Sketch, SketchArc, SketchElement, SketchLine, SketchPlane, SketchPoint};
use kernel::vector::Vec3;

fn scalar(v: f64) -> Scalar {
    Scalar::from_raw((v * 4294967296.0).round() as i64)
}

fn units(s: Scalar) -> f64 {
    s.raw as f64 / 4294967296.0
}

fn vec3(x: f64, y: f64, z: f64) -> Vec3 {
    Vec3::new(scalar(x), scalar(y), scalar(z))
}

fn segment(a: (f64, f64, f64), b: (f64, f64, f64)) -> SketchElement {
    SketchElement::Line(SketchLine(Line::TwoPoint(TwoPointLine::new(
        vec3(a.0, a.1, a.2),
        vec3(b.0, b.1, b.2),
    ))))
}

fn point(p: (f64, f64, f64)) -> SketchElement {
    SketchElement::Point(SketchPoint(Point::new(vec3(p.0, p.1, p.2))))
}

fn arc(center: (f64, f64, f64), radius: f64, start: (f64, f64, f64), end: (f64, f64, f64)) -> SketchElement {
    SketchElement::Arc(SketchArc(Arc {
        radius: scalar(radius),
        start: vec3(start.0, start.1, start.2),
        end: vec3(end.0, end.1, end.2),
        center: vec3(center.0, center.1, center.2),
        direction: ArcDirection::CW,
    }))
}

fn config() -> SolverConfig {
    SolverConfig { tolerance: scalar(1e-6), max_iterations: 50 }
}

fn ends(e: &SketchElement) -> (Vec3, Vec3) {
    match e {
        SketchElement::Line(SketchLine(Line::TwoPoint(t))) => (t.a.0, t.b.0),
        _ => panic!("a two-point line was expected"),
    }
}

#[test]
fn sketch_without_relations_reports_its_parameters_as_freedom() {
    let mut sketch = Sketch::new(SketchPlane::xy());
    sketch.add_element(segment((0., 0., 0.), (1., 0., 0.)));
    sketch.add_element(point((3., 4., 5.)));
    sketch.add_element(arc((0., 0., 0.), 1., (1., 0., 0.), (0., 1., 0.)));
    sketch.add_element(SketchElement::Line(SketchLine(Line::Implicit(ImplicitLine {
        a: scalar(1.),
        b: scalar(2.),
        c: scalar(0.),
        d: scalar(3.),
    }))));
    let before = sketch.elements.clone();
    let report = sketch.solve(&config()).unwrap();
    assert_eq!(report, SolveReport { degrees_of_freedom: 6 + 3 + 10 + 4, iterations: 0, conflicts: 0 });
    assert_eq!(sketch.elements, before);
}

#[test]
fn horizontal_line_and_a_free_line_stay_as_they_are() {
    let mut sketch = Sketch::new(SketchPlane::xy());
    let first = sketch.add_element(segment((0., 0., 0.), (1., 0., 0.)));
    sketch.add_element(segment((0., 0., 0.), (0., 1., 1.)));
    sketch.add_relation(Relation::Horizontal(first)).unwrap();
    let before = sketch.elements.clone();
    let report = sketch.solve(&config()).unwrap();
    assert_eq!(report.conflicts, 0);
    assert_eq!(report.iterations, 0);
    assert_eq!(report.degrees_of_freedom, 11);
    assert_eq!(sketch.elements, before);
}

#[test]
fn tangent_between_pinned_elements_is_over_constrained() {
    let mut sketch = Sketch::new(SketchPlane::xy());
    let a = sketch.add_element(arc((0., 0., 0.), 1., (1., 0., 0.), (0., 1., 0.)));
    let l = sketch.add_element(segment((-5., 3., 0.), (5., 3., 0.)));
    let tangent = sketch
        .add_relation(Relation::Tangent(Tangent { arc: a, other: TangentOther::Line(l) }))
        .unwrap();
    let pin_arc = sketch.add_relation(Relation::Fixed(a)).unwrap();
    let pin_line = sketch.add_relation(Relation::Fixed(l)).unwrap();
    let before = sketch.elements.clone();
    let err = sketch.solve(&config()).err().unwrap();
    assert_eq!(err, KernelError::OverConstrained { relations: vec![tangent, pin_arc, pin_line] });
    assert_eq!(sketch.elements, before);
}

#[test]
fn relation_on_a_missing_element_is_refused_when_added() {
    let mut sketch = Sketch::new(SketchPlane::xy());
    sketch.add_element(segment((0., 0., 0.), (1., 0., 0.)));
    let err = sketch.add_relation(Relation::Horizontal(7)).err().unwrap();
    assert_eq!(err, KernelError::InvalidElementReference { element: 7 });
    assert_eq!(sketch.relations.len(), 0);
    let err = sketch.add_relation(Relation::Fixed(1)).err().unwrap();
    assert_eq!(err, KernelError::InvalidElementReference { element: 1 });
}

#[test]
fn relation_on_an_element_of_the_wrong_kind_is_refused() {
    let mut sketch = Sketch::new(SketchPlane::xy());
    let p = sketch.add_element(point((0., 0., 0.)));
    let l = sketch.add_element(segment((0., 0., 0.), (1., 0., 0.)));
    let err = sketch.add_relation(Relation::Horizontal(p)).err().unwrap();
    assert_eq!(err, KernelError::InvalidElementReference { element: p });
    let err = sketch
        .add_relation(Relation::Coincident(Coincident { point: l, other: CoincidentOther::Line(l) }))
        .err()
        .unwrap();
    assert_eq!(err, KernelError::InvalidElementReference { element: l });
    let err = sketch.add_relation(Relation::Equal(l, p)).err().unwrap();
    assert_eq!(err, KernelError::InvalidElementReference { element: p });
    assert_eq!(sketch.add_relation(Relation::Equal(l, l)).unwrap(), 0);
}

#[test]
fn solver_levels_a_slanted_line() {
    let mut sketch = Sketch::new(SketchPlane::xy());
    let l = sketch.add_element(segment((0., 0., 0.), (2., 0.5, 0.)));
    sketch.add_relation(Relation::Horizontal(l)).unwrap();
    let report = sketch.solve(&config()).unwrap();
    assert!(report.iterations >= 1);
    assert_eq!(report.degrees_of_freedom, 5);
    let (a, b) = ends(&sketch.elements[l]);
    println!("{:?} {:?} after {} iterations", a, b, report.iterations);
    assert!((units(a.y) - units(b.y)).abs() <= 1e-6);
    // the least move splits the gap between the two ends
    assert!((units(a.y) - 0.25).abs() < 1e-3);
    assert!((units(b.y) - 0.25).abs() < 1e-3);
    assert!((units(a.x) - 0.0).abs() < 1e-3);
    assert!((units(b.x) - 2.0).abs() < 1e-3);
}

#[test]
fn solver_moves_the_free_line_and_leaves_the_pinned_one() {
    let mut sketch = Sketch::new(SketchPlane::xy());
    let fixed = sketch.add_element(segment((0., 0., 0.), (2., 0., 0.)));
    let free = sketch.add_element(segment((1., 0., 0.), (1.5, 2., 0.)));
    sketch.add_relation(Relation::Fixed(fixed)).unwrap();
    sketch
        .add_relation(Relation::Perpendicular(Perpendicular { line: fixed, perp: free }))
        .unwrap();
    let report = sketch.solve(&config()).unwrap();
    assert_eq!(report.degrees_of_freedom, 5);
    assert_eq!(ends(&sketch.elements[fixed]), (vec3(0., 0., 0.), vec3(2., 0., 0.)));
    let (a, b) = ends(&sketch.elements[free]);
    println!("{:?} {:?} after {} iterations", a, b, report.iterations);
    assert!((units(b.x) - units(a.x)).abs() < 1e-5);
}

#[test]
fn solver_brings_a_line_to_touch_a_pinned_arc() {
    let mut sketch = Sketch::new(SketchPlane::xy());
    let a = sketch.add_element(arc((0., 0., 0.), 1., (1., 0., 0.), (0., 1., 0.)));
    let l = sketch.add_element(segment((-5., 3., 0.), (5., 3., 0.)));
    sketch.add_relation(Relation::Tangent(Tangent { arc: a, other: TangentOther::Line(l) })).unwrap();
    sketch.add_relation(Relation::Fixed(a)).unwrap();
    let report = sketch.solve(&config()).unwrap();
    assert_eq!(report.degrees_of_freedom, 5);
    let (p, q) = ends(&sketch.elements[l]);
    println!("{:?} {:?} after {} iterations", p, q, report.iterations);
    let (px, py, qx, qy) = (units(p.x), units(p.y), units(q.x), units(q.y));
    let distance = ((qx - px) * (0. - py) - (qy - py) * (0. - px)).abs()
        / ((qx - px).powi(2) + (qy - py).powi(2)).sqrt();
    assert!((distance - 1.0).abs() < 1e-5);
}

#[test]
fn solver_puts_a_point_on_a_circle() {
    let mut sketch = Sketch::new(SketchPlane::xy());
    let a = sketch.add_element(arc((0., 0., 0.), 2., (2., 0., 0.), (0., 2., 0.)));
    let p = sketch.add_element(point((3., 3., 0.)));
    sketch.add_relation(Relation::Fixed(a)).unwrap();
    sketch
        .add_relation(Relation::Coincident(Coincident { point: p, other: CoincidentOther::Arc(a) }))
        .unwrap();
    sketch.solve(&config()).unwrap();
    let at = match sketch.elements[p] {
        SketchElement::Point(SketchPoint(Point(v))) => v,
        _ => panic!("a point was expected"),
    };
    let r = (units(at.x).powi(2) + units(at.y).powi(2) + units(at.z).powi(2)).sqrt();
    assert!((r - 2.0).abs() < 1e-5);
    // the nearest point of the circle lies on the diagonal
    assert!((units(at.x) - units(at.y)).abs() < 1e-3);
}

#[test]
fn solver_gives_up_when_the_budget_is_spent() {
    let mut sketch = Sketch::new(SketchPlane::xy());
    let l = sketch.add_element(segment((0., 0., 0.), (2., 900., 0.)));
    sketch.add_relation(Relation::Horizontal(l)).unwrap();
    let before = sketch.elements.clone();
    let tight = SolverConfig { tolerance: scalar(1e-6), max_iterations: 1 };
    let err = sketch.solve(&tight).err().unwrap();
    assert_eq!(err, KernelError::SolverDiverged { iterations: 1 });
    assert_eq!(sketch.elements, before);
}

#[test]
fn solver_refuses_a_bad_configuration() {
    let mut sketch = Sketch::new(SketchPlane::xy());
    let zero = SolverConfig { tolerance: scalar(0.), max_iterations: 10 };
    assert_eq!(sketch.solve(&zero).err().unwrap(), KernelError::InvalidArgument);
    let none = SolverConfig { tolerance: scalar(1e-6), max_iterations: 0 };
    assert_eq!(sketch.solve(&none).err().unwrap(), KernelError::InvalidArgument);
}

#[test]
fn solver_hands_on_the_failure_of_a_conversion() {
    let mut sketch = Sketch::new(SketchPlane::xy());
    let l = sketch.add_element(SketchElement::Line(SketchLine(Line::Implicit(ImplicitLine {
        a: scalar(0.),
        b: scalar(0.),
        c: scalar(1.),
        d: scalar(3.),
    }))));
    sketch.add_relation(Relation::Horizontal(l)).unwrap();
    assert_eq!(sketch.solve(&config()).err().unwrap(), KernelError::UnsupportedConversion);
}

#[test]
fn redundant_relations_that_hold_are_named_in_full() {
    let mut sketch = Sketch::new(SketchPlane::xy());
    let p = sketch.add_element(point((0., 0., 0.)));
    let l = sketch.add_element(segment((-1., 0., 0.), (1., 0., 0.)));
    sketch.add_relation(Relation::Fixed(p)).unwrap();
    sketch.add_relation(Relation::Fixed(l)).unwrap();
    sketch
        .add_relation(Relation::Coincident(Coincident { point: p, other: CoincidentOther::Line(l) }))
        .unwrap();
    let err = sketch.solve(&config()).err().unwrap();
    assert_eq!(err, KernelError::OverConstrained { relations: vec![0, 1, 2] });
}

#[test]
fn removing_a_relation_moves_the_later_ones_down() {
    let mut sketch = Sketch::new(SketchPlane::xy());
    let l = sketch.add_element(segment((0., 0., 0.), (1., 0., 0.)));
    sketch.add_relation(Relation::Horizontal(l)).unwrap();
    sketch.add_relation(Relation::Vertical(l)).unwrap();
    assert_eq!(sketch.remove_relation(0).unwrap(), Relation::Horizontal(l));
    assert_eq!(sketch.relations, vec![Relation::Vertical(l)]);
    assert_eq!(sketch.remove_relation(5).err().unwrap(), KernelError::InvalidArgument);
}

#[test]
fn sketch_is_drawn_as_segments() {
    let mut sketch = Sketch::new(SketchPlane::xy());
    sketch.add_element(segment((0., 0., 0.), (1., 0., 0.)));
    sketch.add_element(point((3., 4., 5.)));
    sketch.add_element(arc((0., 0., 0.), 1., (1., 0., 0.), (0., 1., 0.)));
    sketch.add_element(SketchElement::Line(SketchLine(Line::Parametric(ParametricLine::new(
        vec3(1., 1., 1.),
        vec3(0., 0., 2.),
    )))));
    let lines = sketch.to_lines(16).unwrap();
    assert_eq!(lines.len(), 1 + 16 + 1);
    assert_eq!(lines[0], Line::TwoPoint(TwoPointLine::new(vec3(0., 0., 0.), vec3(1., 0., 0.))));
    assert_eq!(lines[17], Line::TwoPoint(TwoPointLine::new(vec3(1., 1., 1.), vec3(1., 1., 3.))));
    assert_eq!(sketch.to_lines(0).err().unwrap(), KernelError::InvalidArgument);
}

#[test]
fn elements_tell_their_kind_and_their_parameters() {
    let l = segment((1., 2., 3.), (4., 5., 6.));
    let p = point((7., 8., 9.));
    let a = arc((0., 0., 0.), 1., (1., 0., 0.), (0., 1., 0.));
    let i = SketchElement::Line(SketchLine(Line::Implicit(ImplicitLine {
        a: scalar(1.),
        b: scalar(2.),
        c: scalar(3.),
        d: scalar(4.),
    })));
    assert_eq!(l.kind(), ElementKind::Line);
    assert_eq!(p.kind(), ElementKind::Point);
    assert_eq!(a.kind(), ElementKind::Arc);
    assert_eq!(l.parameter_count(), 6);
    assert_eq!(p.parameter_count(), 3);
    assert_eq!(a.parameter_count(), 10);
    assert_eq!(i.parameter_count(), 4);
    assert_eq!(l.get_parameter(0), scalar(1.));
    assert_eq!(l.get_parameter(5), scalar(6.));
    assert_eq!(p.get_parameter(1), scalar(8.));
    assert_eq!(a.get_parameter(3), scalar(1.));
    assert_eq!(a.get_parameter(4), scalar(1.));
    assert_eq!(a.get_parameter(8), scalar(1.));
    assert_eq!(i.get_parameter(2), scalar(3.));
    assert_eq!(l.with_parameter(4, scalar(0.)), segment((1., 2., 3.), (4., 0., 6.)));
    assert_eq!(p.with_parameter(2, scalar(0.)), point((7., 8., 0.)));
    assert_eq!(a.with_parameter(3, scalar(2.)), arc((0., 0., 0.), 2., (1., 0., 0.), (0., 1., 0.)));
    assert_eq!(a.with_parameter(9, scalar(5.)), arc((0., 0., 0.), 1., (1., 0., 0.), (0., 1., 5.)));
}

#[test]
fn relations_count_their_equations() {
    let relations = vec![
        Relation::Horizontal(0),
        Relation::Vertical(0),
        Relation::Coincident(Coincident { point: 1, other: CoincidentOther::Line(0) }),
        Relation::Coincident(Coincident { point: 1, other: CoincidentOther::Arc(2) }),
        Relation::Perpendicular(Perpendicular { line: 0, perp: 0 }),
        Relation::Tangent(Tangent { arc: 2, other: TangentOther::Line(0) }),
        Relation::Fixed(1),
        Relation::Colinear(0, 0),
        Relation::Coradial(2, 2),
        Relation::Parallel(0, 0),
        Relation::Concentric(2, 2),
        Relation::Midpoint(1, 0),
        Relation::Intersection(1, 0, 0),
        Relation::Equal(0, 0),
    ];
    let counts: Vec<u8> = relations.iter().map(|r| r.equation_count()).collect();
    assert_eq!(counts, vec![1, 1, 2, 1, 1, 1, 0, 4, 4, 2, 3, 3, 4, 1]);
    assert_eq!(count_equations(&relations), 28);
    let elements = vec![
        segment((0., 0., 0.), (1., 0., 0.)),
        point((0., 0., 0.)),
        arc((0., 0., 0.), 1., (1., 0., 0.), (0., 1., 0.)),
    ];
    assert_eq!(count_free_parameters(&elements, &relations), 16);
    assert!(Relation::Intersection(1, 0, 4).names(4));
    assert!(!Relation::Intersection(1, 0, 4).names(3));
}

#[test]
fn solver_meets_several_relations_at_once() {
    let mut sketch = Sketch::new(SketchPlane::xy());
    let base = sketch.add_element(segment((0., 0., 0.), (4., 0., 0.)));
    let side = sketch.add_element(segment((4.2, 0.3, 0.), (3.5, 3., 0.)));
    let corner = sketch.add_element(point((3.9, 0.2, 0.)));
    let mid = sketch.add_element(point((1., 1., 0.)));
    sketch.add_relation(Relation::Fixed(base)).unwrap();
    sketch.add_relation(Relation::Perpendicular(Perpendicular { line: base, perp: side })).unwrap();
    sketch
        .add_relation(Relation::Coincident(Coincident { point: corner, other: CoincidentOther::Line(side) }))
        .unwrap();
    sketch
        .add_relation(Relation::Coincident(Coincident { point: corner, other: CoincidentOther::Line(base) }))
        .unwrap();
    sketch.add_relation(Relation::Midpoint(mid, base)).unwrap();
    sketch.add_relation(Relation::Vertical(side)).unwrap();
    let report = sketch.solve(&config()).unwrap();
    println!("{} iterations", report.iterations);
    assert_eq!(report.degrees_of_freedom, 6 + 3 + 3 - (1 + 2 + 2 + 3 + 1));
    assert_eq!(ends(&sketch.elements[base]), (vec3(0., 0., 0.), vec3(4., 0., 0.)));
    let at = match sketch.elements[mid] {
        SketchElement::Point(SketchPoint(Point(v))) => v,
        _ => panic!("a point was expected"),
    };
    assert!((units(at.x) - 2.0).abs() < 1e-5);
    assert!(units(at.y).abs() < 1e-5);
    let (a, b) = ends(&sketch.elements[side]);
    assert!((units(a.x) - units(b.x)).abs() < 1e-5);
    let c = match sketch.elements[corner] {
        SketchElement::Point(SketchPoint(Point(v))) => v,
        _ => panic!("a point was expected"),
    };
    assert!(units(c.y).abs() < 1e-5);
    assert!((units(c.x) - units(a.x)).abs() < 1e-4);
}

#[test]
fn arcs_touch_in_the_way_that_is_nearer() {
    // two circles nearly touching from outside are brought to touch from outside
    let mut sketch = Sketch::new(SketchPlane::xy());
    let a = sketch.add_element(arc((0., 0., 0.), 2., (2., 0., 0.), (0., 2., 0.)));
    let b = sketch.add_element(arc((3.5, 0., 0.), 1., (4.5, 0., 0.), (3.5, 1., 0.)));
    sketch.add_relation(Relation::Fixed(a)).unwrap();
    sketch.add_relation(Relation::Tangent(Tangent { arc: a, other: TangentOther::Arc(b) })).unwrap();
    sketch.solve(&config()).unwrap();
    let moved = match sketch.elements[b] {
        SketchElement::Arc(SketchArc(arc)) => arc,
        _ => panic!("an arc was expected"),
    };
    let d = (units(moved.center.x).powi(2) + units(moved.center.y).powi(2)).sqrt();
    assert!((d - (2.0 + units(moved.radius))).abs() < 1e-5);
    // a small circle deep inside a large one is brought to touch from inside
    let mut sketch = Sketch::new(SketchPlane::xy());
    let a = sketch.add_element(arc((0., 0., 0.), 5., (5., 0., 0.), (0., 5., 0.)));
    let b = sketch.add_element(arc((3.5, 0., 0.), 1., (4.5, 0., 0.), (3.5, 1., 0.)));
    sketch.add_relation(Relation::Fixed(a)).unwrap();
    sketch.add_relation(Relation::Tangent(Tangent { arc: a, other: TangentOther::Arc(b) })).unwrap();
    sketch.solve(&config()).unwrap();
    let moved = match sketch.elements[b] {
        SketchElement::Arc(SketchArc(arc)) => arc,
        _ => panic!("an arc was expected"),
    };
    let d = (units(moved.center.x).powi(2) + units(moved.center.y).powi(2)).sqrt();
    assert!((d - (5.0 - units(moved.radius))).abs() < 1e-5);
}

#[test]
fn sketch_with_a_line_that_has_no_two_points_cannot_be_drawn() {
    let mut sketch = Sketch::new(SketchPlane::xy());
    sketch.add_element(segment((1., 1., 1.), (1., 1., 1.)));
    assert_eq!(sketch.to_lines(4).err().unwrap(), KernelError::UnsupportedConversion);
}

#[test]
fn the_planes_of_a_sketch_are_the_named_planes() {
    assert_eq!(SketchPlane::xy().0.normal, vec3(0., 0., 1.));
    assert_eq!(SketchPlane::xz().0.normal, vec3(0., 1., 0.));
    assert_eq!(SketchPlane::yz().0.normal, vec3(1., 0., 0.));
}

#[test]
fn points_are_brought_together() {
    let mut sketch = Sketch::new(SketchPlane::xy());
    let p = sketch.add_element(point((1., 2., 3.)));
    let q = sketch.add_element(point((1.5, 2.5, 2.))); 
    sketch.add_relation(Relation::Fixed(p)).unwrap();
    sketch
        .add_relation(Relation::Coincident(Coincident { point: q, other: CoincidentOther::Point(p) }))
        .unwrap();
    let report = sketch.solve(&config()).unwrap();
    assert_eq!(report.degrees_of_freedom, 0);
    assert_eq!(sketch.elements[p], point((1., 2., 3.)));
    let at = match sketch.elements[q] {
        SketchElement::Point(SketchPoint(Point(v))) => v,
        _ => panic!("a point was expected"),
    };
    assert!((units(at.x) - 1.0).abs() < 1e-6);
    assert!((units(at.y) - 2.0).abs() < 1e-6);
    assert!((units(at.z) - 3.0).abs() < 1e-6);
}

#[test]
fn points_that_coincide_already_are_no_conflict() {
    let mut sketch = Sketch::new(SketchPlane::xy());
    let p = sketch.add_element(point((1., 2., 3.)));
    let q = sketch.add_element(point((1., 2., 3.)));
    let l = sketch.add_element(segment((0., 0., 0.), (1., 1., 0.)));
    sketch.add_relation(Relation::Fixed(p)).unwrap();
    sketch.add_relation(Relation::Fixed(q)).unwrap();
    sketch.add_relation(Relation::Fixed(l)).unwrap();
    let same = sketch
        .add_relation(Relation::Coincident(Coincident { point: q, other: CoincidentOther::Point(p) }))
        .unwrap();
    let level = sketch.add_relation(Relation::Horizontal(l)).unwrap();
    let err = sketch.solve(&config()).err().unwrap();
    match err {
        KernelError::OverConstrained { relations } => {
            assert!(!relations.contains(&same));
            assert_eq!(relations, vec![2, level]);
        }
        other => panic!("over-constrained was expected, not {:?}", other),
    }
}

#[test]
fn the_default_budget_is_a_hundred_iterations() {
    let config = SolverConfig::default();
    assert_eq!(config.max_iterations, 100);
    assert_eq!(config.tolerance.raw, 0x1000);
}

#[test]
fn several_sketches_are_drawn_one_after_the_other() {
    let mut first = Sketch::new(SketchPlane::xy());
    first.add_element(segment((0., 0., 0.), (1., 0., 0.)));
    let mut second = Sketch::new(SketchPlane::xz());
    second.add_element(arc((0., 0., 0.), 1., (1., 0., 0.), (0., 1., 0.)));
    second.add_element(segment((2., 0., 0.), (3., 0., 0.)));
    let sketches = vec![first, second];
    let lines = kernel::sketch::generate_lines(&sketches, 3).unwrap();
    assert_eq!(lines.len(), 1 + 3 + 1);
    assert_eq!(lines[0], Line::TwoPoint(TwoPointLine::new(vec3(0., 0., 0.), vec3(1., 0., 0.))));
    assert_eq!(lines[4], Line::TwoPoint(TwoPointLine::new(vec3(2., 0., 0.), vec3(3., 0., 0.))));
    assert_eq!(kernel::sketch::generate_lines(&sketches, 0).err().unwrap(), KernelError::InvalidArgument);
    assert_eq!(kernel::sketch::generate_lines(&Vec::new(), 0).unwrap(), Vec::new());
}

#[test]
fn degrees_of_freedom_are_parameters_less_equations() {
    let mut sketch = Sketch::new(SketchPlane::xy());
    assert_eq!(sketch.degrees_of_freedom(), 0);
    let l = sketch.add_element(segment((0., 0., 0.), (1., 0., 0.)));
    let p = sketch.add_element(point((0., 0., 0.)));
    assert_eq!(sketch.degrees_of_freedom(), 9);
    sketch.add_relation(Relation::Midpoint(p, l)).unwrap();
    assert_eq!(sketch.degrees_of_freedom(), 6);
    sketch.add_relation(Relation::Fixed(l)).unwrap();
    assert_eq!(sketch.degrees_of_freedom(), 0);
    sketch.add_relation(Relation::Fixed(l)).unwrap();
    assert_eq!(sketch.degrees_of_freedom(), 0);
    sketch.add_relation(Relation::Horizontal(l)).unwrap();
    assert_eq!(sketch.degrees_of_freedom(), -1);
}

#[test]
fn residuals_are_what_the_relations_ask_to_vanish() {
    let mut sketch = Sketch::new(SketchPlane::xy());
    let l = sketch.add_element(segment((1., 1., 0.), (4., 5., 0.)));
    let m = sketch.add_element(SketchElement::Line(SketchLine(Line::Parametric(ParametricLine::new(
        vec3(0., 0., 0.),
        vec3(0., 2., 0.),
    )))));
    let p = sketch.add_element(point((2., 3., 1.)));
    let a = sketch.add_element(arc((0., 0., 0.), 2., (2., 0., 0.), (0., 2., 0.)));
    let b = sketch.add_element(arc((3., 4., 0.), 1., (4., 4., 0.), (3., 5., 0.)));
    let q = sketch.add_element(point((2., 3., 1.)));
    let relations = vec![
        (Relation::Horizontal(l), vec![4.]),
        (Relation::Vertical(l), vec![3.]),
        (Relation::Horizontal(m), vec![2.]),
        // the direction (3, 4, 0) crossed with the way (1, 2, 1) from the line to the point
        (Relation::Coincident(Coincident { point: p, other: CoincidentOther::Line(l) }), vec![4., -3., 2.]),
        // the point lies 5 from the centre of the second arc... less its radius
        (Relation::Coincident(Coincident { point: q, other: CoincidentOther::Point(p) }), vec![0., 0., 0.]),
        (Relation::Perpendicular(Perpendicular { line: l, perp: m }), vec![8.]),
        // the centre lies 0.2 from the line, the radius is 2
        (Relation::Tangent(Tangent { arc: a, other: TangentOther::Line(l) }), vec![-1.8]),
        // the centres are 5 apart, the radii add to 3 and differ by 1
        (Relation::Tangent(Tangent { arc: a, other: TangentOther::Arc(b) }), vec![2.]),
        (Relation::Fixed(l), vec![]),
        (Relation::Colinear(l, m), vec![0., 0., 6., 0., 0., 1.]),
        (Relation::Coradial(a, b), vec![-3., -4., 0., 1.]),
        (Relation::Parallel(l, m), vec![0., 0., 6.]),
        (Relation::Concentric(b, a), vec![3., 4., 0.]),
        (Relation::Midpoint(p, l), vec![-0.5, 0., 1.]),
        (Relation::Intersection(p, l, m), vec![4., -3., 2., 2., 0., -4.]),
        (Relation::Equal(l, m), vec![3.]),
        (Relation::Equal(a, b), vec![1.]),
    ];
    let mut expected = Vec::new();
    for (relation, values) in relations {
        sketch.add_relation(relation).unwrap();
        expected.extend(values);
    }
    let residuals = sketch.residuals().unwrap();
    assert_eq!(residuals.len(), expected.len());
    for (k, (got, want)) in residuals.iter().zip(expected.iter()).enumerate() {
        assert!((units(*got) - want).abs() < 1e-8, "residual {} is {}, not {}", k, units(*got), want);
    }
    let point_on_circle = Relation::Coincident(Coincident { point: p, other: CoincidentOther::Arc(a) });
    let mut sketch2 = Sketch::new(SketchPlane::xy());
    sketch2.add_element(point((0., 3., 4.)));
    sketch2.add_element(arc((0., 0., 0.), 2., (2., 0., 0.), (0., 2., 0.)));
    sketch2
        .add_relation(Relation::Coincident(Coincident { point: 0, other: CoincidentOther::Arc(1) }))
        .unwrap();
    assert_eq!(sketch2.residuals().unwrap(), vec![scalar(3.)]);
    assert!(point_on_circle.names(p));
}

#[test]
fn residuals_of_a_sketch_with_a_stray_relation_are_refused() {
    let mut sketch = Sketch::new(SketchPlane::xy());
    sketch.add_element(segment((0., 0., 0.), (1., 0., 0.)));
    sketch.relations.push(Relation::Horizontal(0));
    sketch.relations.push(Relation::Vertical(3));
    assert_eq!(sketch.residuals().err().unwrap(), KernelError::InvalidElementReference { element: 3 });
    assert_eq!(sketch.solve(&config()).err().unwrap(), KernelError::InvalidElementReference { element: 3 });
}
