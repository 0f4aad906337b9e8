use kernel::error::KernelError;
use kernel::fixed::Scalar;
use kernel::geometry::arc::{Arc, ArcDirection};
use kernel::geometry::line::{ImplicitLine, Line, ParametricLine, TwoPointLine};
use kernel::geometry::point::Point;
use kernel::geometry::{Circle, Plane};
use kernel::vector::{Vec3, UNIT_TOLERANCE};

fn scalar(v: f64) -> Scalar {
    Scalar::from_raw((v * 4294967296.0).round() as i64)
}

fn vec3(x: f64, y: f64, z: f64) -> Vec3 {
    Vec3::new(scalar(x), scalar(y), scalar(z))
}

fn single(s: Scalar) -> f32 {
    (s.raw as f64 / 4294967296.0) as f32
}

fn singles(v: Vec3) -> [f32; 3] {
    [single(v.x), single(v.y), single(v.z)]
}

fn length(v: Vec3) -> f64 {
    let x = v.x.raw as f64 / 4294967296.0;
    let y = v.y.raw as f64 / 4294967296.0;
    let z = v.z.raw as f64 / 4294967296.0;
    (x * x + y * y + z * z).sqrt()
}

#[test]
fn test_project_point_onto_plane() {
    let plane = Plane::new(vec3(0., 1., 0.), vec3(0., 0., 0.)).unwrap();
    let point = Point::new(vec3(5., 7., 2.));

    let projected = point.project_to_plane(&plane);

    assert_eq!(singles(projected.0), [5., 0., 2.]);

    let plane = Plane::new(vec3(0., 1., 1.), vec3(0., 0., 0.)).unwrap();

    let projected = point.project_to_plane(&plane);

    assert_eq!(singles(projected.0), [5., 2.5, -2.5]);
}

#[test]
fn test_to_polyline() {
    let arc = Arc {
        radius: scalar(5.),
        start: vec3(5., 0., 0.),
        end: vec3(0., 5., 0.),
        center: vec3(0., 0., 0.),
        direction: ArcDirection::CW,
    };

    let polyline = arc.to_polyline(6).unwrap();

    assert_eq!(polyline.lines.len(), 6);
}

#[test]
fn quarter_arc_points_lie_on_the_circle() {
    let arc = Arc {
        radius: scalar(5.),
        start: vec3(5., 0., 0.),
        end: vec3(0., 5., 0.),
        center: vec3(0., 0., 0.),
        direction: ArcDirection::CW,
    };
    let lines = arc.to_lines(6).unwrap();
    for (k, line) in lines.iter().enumerate() {
        let tpl = match line {
            Line::TwoPoint(t) => t,
            _ => panic!("a chord is a two-point line"),
        };
        let angle = (k as f64) * std::f64::consts::FRAC_PI_2 / 6.0;
        let a = tpl.a.0;
        println!("{} {:?} {}", k, singles(a), length(a));
        assert!((length(a) - 5.0).abs() < 1e-6);
        assert!((a.x.raw as f64 / 4294967296.0 - 5.0 * angle.cos()).abs() < 1e-6);
        assert!((a.y.raw as f64 / 4294967296.0 - 5.0 * angle.sin()).abs() < 1e-6);
    }
}

#[test]
fn three_quarter_arc_runs_the_long_way() {
    let arc = Arc {
        radius: scalar(2.),
        start: vec3(2., 0., 0.),
        end: vec3(0., 2., 0.),
        center: vec3(0., 0., 0.),
        direction: ArcDirection::CCW,
    };
    let lines = arc.to_lines(3).unwrap();
    let mid = match lines[1] {
        Line::TwoPoint(t) => t,
        _ => panic!("a chord is a two-point line"),
    };
    // a quarter turn the other way, twice
    let a = mid.a.0;
    let b = mid.b.0;
    println!("{:?} {:?}", singles(a), singles(b));
    assert!((a.x.raw as f64 / 4294967296.0 - 0.0).abs() < 1e-6);
    assert!((a.y.raw as f64 / 4294967296.0 + 2.0).abs() < 1e-6);
    assert!((b.x.raw as f64 / 4294967296.0 + 2.0).abs() < 1e-6);
    assert!((b.y.raw as f64 / 4294967296.0 - 0.0).abs() < 1e-6);
}

fn quarter_arc(direction: ArcDirection) -> Arc {
    Arc {
        radius: scalar(5.),
        start: vec3(5., 0., 0.),
        end: vec3(0., 5., 0.),
        center: vec3(0., 0., 0.),
        direction,
    }
}

fn ends(line: &Line) -> (Vec3, Vec3) {
    match line {
        Line::TwoPoint(t) => (t.a.0, t.b.0),
        _ => panic!("a chord is a two-point line"),
    }
}

#[test]
fn plane_normals_are_normalised() {
    let plane = Plane::new(vec3(0., 0., 9.), vec3(1., 2., 3.)).unwrap();
    assert_eq!(plane.normal, vec3(0., 0., 1.));
    assert_eq!(plane.center, vec3(1., 2., 3.));
    for normal in [vec3(0., 1., 1.), vec3(1., 2., 3.), vec3(-7., 0.5, 1e-3)] {
        let plane = Plane::new(normal, vec3(0., 0., 0.)).unwrap();
        let n = plane.normal;
        let (x, y, z) = (n.x.raw as i128, n.y.raw as i128, n.z.raw as i128);
        let gap = (x * x + y * y + z * z - (1i128 << 64)).abs();
        assert!(gap <= UNIT_TOLERANCE as i128);
    }
}

#[test]
fn plane_without_a_normal_is_refused() {
    assert_eq!(Plane::new(vec3(0., 0., 0.), vec3(1., 1., 1.)).err().unwrap(), KernelError::DegenerateInput);
    assert_eq!(Plane::new(vec3(1e-6, 0., 0.), vec3(1., 1., 1.)).err().unwrap(), KernelError::DegenerateInput);
}

#[test]
fn the_three_named_planes_pass_through_the_origin() {
    assert_eq!(Plane::xy().normal, vec3(0., 0., 1.));
    assert_eq!(Plane::xz().normal, vec3(0., 1., 0.));
    assert_eq!(Plane::yz().normal, vec3(1., 0., 0.));
    assert_eq!(Plane::xy().center, vec3(0., 0., 0.));
    assert_eq!(Plane::xz().center, vec3(0., 0., 0.));
    assert_eq!(Plane::yz().center, vec3(0., 0., 0.));
}

#[test]
fn circle_needs_a_positive_radius() {
    let circle = Circle::new(vec3(1., 2., 3.), scalar(2.)).unwrap();
    assert_eq!(circle.center, vec3(1., 2., 3.));
    assert_eq!(circle.radius, scalar(2.));
    assert_eq!(Circle::new(vec3(0., 0., 0.), scalar(0.)).err().unwrap(), KernelError::DegenerateInput);
    assert_eq!(Circle::new(vec3(0., 0., 0.), scalar(-1.)).err().unwrap(), KernelError::DegenerateInput);
}

#[test]
fn projection_onto_an_axis_plane_is_idempotent() {
    let plane = Plane::new(vec3(0., 0., 1.), vec3(0., 0., 2.)).unwrap();
    for p in [vec3(5., 7., 2.), vec3(-1.25, 3., 9.5), vec3(0.1, 0.2, -0.3)] {
        let once = Point::new(p).project_to_plane(&plane);
        let twice = once.project_to_plane(&plane);
        assert_eq!(once.0.z, scalar(2.));
        assert_eq!(once.0.x, p.x);
        assert_eq!(once.0.y, p.y);
        assert_eq!(twice, once);
    }
}

#[test]
fn a_point_on_the_plane_is_its_own_projection() {
    let plane = Plane::new(vec3(0., 1., 1.), vec3(0., 0., 0.)).unwrap();
    let on = Point::new(vec3(3., 0., 0.));
    assert_eq!(on.project_to_plane(&plane), on);
}

#[test]
fn a_second_projection_moves_a_point_by_a_few_units_at_most() {
    let plane = Plane::new(vec3(1., 2., 3.), vec3(0.5, -1., 2.)).unwrap();
    for p in [vec3(0., 0., 7.), vec3(100., -50., 25.), vec3(-3.5, 8.25, 0.125)] {
        let offset = p.sub(plane.center).dot(plane.normal);
        let slack = offset.raw.abs() / 0x2000_0000 + 10;
        let once = Point::new(p).project_to_plane(&plane);
        let twice = once.project_to_plane(&plane);
        assert!((twice.0.x.raw - once.0.x.raw).abs() <= slack);
        assert!((twice.0.y.raw - once.0.y.raw).abs() <= slack);
        assert!((twice.0.z.raw - once.0.z.raw).abs() <= slack);
    }
}

#[test]
fn parametric_line_becomes_two_points_at_zero_and_one() {
    let line = Line::Parametric(ParametricLine::new(vec3(1., 1., 1.), vec3(0., 0., 2.)));
    let two = line.to_two_point_line().unwrap();
    assert_eq!(two, TwoPointLine::new(vec3(1., 1., 1.), vec3(1., 1., 3.)));
    assert_eq!(line.to_two_point().unwrap(), two);
    assert_eq!(line.to_parametric().unwrap(), ParametricLine::new(vec3(1., 1., 1.), vec3(0., 0., 2.)));
}

#[test]
fn two_point_line_becomes_a_point_and_a_direction() {
    let line = Line::TwoPoint(TwoPointLine::new(vec3(1., 2., 3.), vec3(4., 6., 3.)));
    assert_eq!(line.to_parametric().unwrap(), ParametricLine::new(vec3(1., 2., 3.), vec3(3., 4., 0.)));
    assert_eq!(line.to_two_point_line().unwrap(), TwoPointLine::new(vec3(1., 2., 3.), vec3(4., 6., 3.)));
}

#[test]
fn implicit_line_is_cut_with_the_ground_plane() {
    let line = Line::Implicit(ImplicitLine { a: scalar(1.), b: scalar(0.), c: scalar(5.), d: scalar(-2.) });
    assert_eq!(line.to_parametric().unwrap(), ParametricLine::new(vec3(2., 0., 0.), vec3(0., 1., 0.)));
    assert_eq!(line.to_two_point_line().unwrap(), TwoPointLine::new(vec3(2., 0., 0.), vec3(2., 1., 0.)));
    let slanted = Line::Implicit(ImplicitLine { a: scalar(1.), b: scalar(1.), c: scalar(0.), d: scalar(-2.) });
    assert_eq!(slanted.to_two_point_line().unwrap(), TwoPointLine::new(vec3(1., 1., 0.), vec3(0., 2., 0.)));
}

#[test]
fn lines_without_two_points_cannot_be_converted() {
    let still = Line::Parametric(ParametricLine::new(vec3(1., 1., 1.), vec3(0., 0., 0.)));
    assert_eq!(still.to_two_point_line().err().unwrap(), KernelError::UnsupportedConversion);
    assert_eq!(still.to_parametric().err().unwrap(), KernelError::UnsupportedConversion);
    let point = Line::TwoPoint(TwoPointLine::new(vec3(1., 1., 1.), vec3(1., 1., 1.)));
    assert_eq!(point.to_two_point_line().err().unwrap(), KernelError::UnsupportedConversion);
    assert_eq!(point.to_two_point().err().unwrap(), KernelError::UnsupportedConversion);
    assert_eq!(point.to_parametric().err().unwrap(), KernelError::UnsupportedConversion);
    let flat = Line::Implicit(ImplicitLine { a: scalar(0.), b: scalar(0.), c: scalar(0.), d: scalar(1.) });
    assert_eq!(flat.to_two_point_line().err().unwrap(), KernelError::UnsupportedConversion);
    assert_eq!(flat.to_parametric().err().unwrap(), KernelError::UnsupportedConversion);
    let level = Line::Implicit(ImplicitLine { a: scalar(0.), b: scalar(0.), c: scalar(1.), d: scalar(1.) });
    assert_eq!(level.to_two_point_line().err().unwrap(), KernelError::UnsupportedConversion);
}

#[test]
fn line_is_projected_by_its_two_points() {
    let line = Line::TwoPoint(TwoPointLine::new(vec3(0., 0., 0.), vec3(1., 2., 3.)));
    let projected = line.project_to_plane(&Plane::xy()).unwrap();
    assert_eq!(projected, Line::TwoPoint(TwoPointLine::new(vec3(0., 0., 0.), vec3(1., 2., 0.))));
    let ray = Line::Parametric(ParametricLine::new(vec3(0., 1., 5.), vec3(2., 0., 1.)));
    let projected = ray.project_to_plane(&Plane::xy()).unwrap();
    assert_eq!(projected, Line::TwoPoint(TwoPointLine::new(vec3(0., 1., 0.), vec3(2., 1., 0.))));
}

#[test]
fn line_along_the_normal_has_no_projection() {
    let line = Line::TwoPoint(TwoPointLine::new(vec3(1., 1., 0.), vec3(1., 1., 5.)));
    assert_eq!(line.project_to_plane(&Plane::xy()).err().unwrap(), KernelError::DegenerateProjection);
    let skew = Plane::new(vec3(0., 1., 1.), vec3(0., 0., 0.)).unwrap();
    let along = Line::TwoPoint(TwoPointLine::new(vec3(0., 0., 0.), vec3(0., 1., 1.)));
    assert_eq!(along.project_to_plane(&skew).err().unwrap(), KernelError::DegenerateProjection);
    assert_eq!(
        along.generate_projected_quad(&skew, scalar(1.)).err().unwrap(),
        KernelError::DegenerateProjection
    );
    let point = Line::TwoPoint(TwoPointLine::new(vec3(1., 1., 1.), vec3(1., 1., 1.)));
    assert_eq!(point.project_to_plane(&Plane::xy()).err().unwrap(), KernelError::UnsupportedConversion);
}

#[test]
fn ribbon_has_the_width_asked_for() {
    let line = Line::TwoPoint(TwoPointLine::new(vec3(0., 0., 3.), vec3(2., 0., 4.)));
    let quad = line.generate_projected_quad(&Plane::xy(), scalar(1.)).unwrap();
    let (tl, bl) = (vec3(0., -0.5, 0.), vec3(0., 0.5, 0.));
    let (tr, br) = (vec3(2., -0.5, 0.), vec3(2., 0.5, 0.));
    assert_eq!(quad, [bl, tr, tl, bl, br, tr]);
}

#[test]
fn two_point_line_has_a_direction_and_two_ends() {
    let line = TwoPointLine::new(vec3(1., 1., 1.), vec3(1., 4., 1.));
    assert_eq!(line.normal().unwrap(), vec3(0., 1., 0.));
    assert_eq!(
        line.to_points(),
        [[scalar(1.), scalar(1.), scalar(1.)], [scalar(1.), scalar(4.), scalar(1.)]]
    );
    let point = TwoPointLine::new(vec3(1., 1., 1.), vec3(1., 1., 1.));
    assert_eq!(point.normal().err().unwrap(), KernelError::DegenerateInput);
}

#[test]
fn arc_data_are_validated() {
    let arc = Arc::new(scalar(5.), vec3(5., 0., 0.), vec3(0., 5., 0.), vec3(0., 0., 0.), ArcDirection::CCW)
        .unwrap();
    assert_eq!(arc, quarter_arc(ArcDirection::CCW));
    let bad = [
        Arc::new(scalar(0.), vec3(0., 0., 0.), vec3(0., 0., 0.), vec3(0., 0., 0.), ArcDirection::CW),
        Arc::new(scalar(-5.), vec3(5., 0., 0.), vec3(0., 5., 0.), vec3(0., 0., 0.), ArcDirection::CW),
        Arc::new(scalar(5.), vec3(6., 0., 0.), vec3(0., 5., 0.), vec3(0., 0., 0.), ArcDirection::CW),
        Arc::new(scalar(5.), vec3(5., 0., 0.), vec3(0., 4., 0.), vec3(0., 0., 0.), ArcDirection::CW),
        Arc::new(scalar(5.), vec3(5., 0., 0.), vec3(5., 0., 0.), vec3(0., 0., 0.), ArcDirection::CW),
    ];
    for r in bad {
        assert_eq!(r.err().unwrap(), KernelError::DegenerateInput);
    }
}

#[test]
fn arc_needs_a_chord_at_least() {
    assert_eq!(quarter_arc(ArcDirection::CW).to_lines(0).err().unwrap(), KernelError::InvalidArgument);
    assert_eq!(quarter_arc(ArcDirection::CW).to_polyline(0).err().unwrap(), KernelError::InvalidArgument);
}

#[test]
fn arc_on_a_line_through_its_centre_has_no_frame() {
    let arc = Arc {
        radius: scalar(1.),
        start: vec3(1., 0., 0.),
        end: vec3(-1., 0., 0.),
        center: vec3(0., 0., 0.),
        direction: ArcDirection::CW,
    };
    assert_eq!(arc.to_lines(4).err().unwrap(), KernelError::DegenerateInput);
    let collapsed = Arc {
        radius: scalar(1.),
        start: vec3(0., 0., 0.),
        end: vec3(1., 0., 0.),
        center: vec3(0., 0., 0.),
        direction: ArcDirection::CW,
    };
    assert_eq!(collapsed.to_lines(4).err().unwrap(), KernelError::DegenerateInput);
}

#[test]
fn chords_form_a_chain_from_start_to_end() {
    for direction in [ArcDirection::CW, ArcDirection::CCW] {
        for n in [1u32, 2, 3, 7, 16] {
            let arc = quarter_arc(direction);
            let lines = arc.to_lines(n).unwrap();
            assert_eq!(lines.len(), n as usize);
            assert_eq!(ends(&lines[0]).0, arc.start);
            assert_eq!(ends(&lines[n as usize - 1]).1, arc.end);
            for k in 0..n as usize - 1 {
                assert_eq!(ends(&lines[k]).1, ends(&lines[k + 1]).0);
            }
        }
    }
}

#[test]
fn single_chord_joins_start_and_end() {
    let lines = quarter_arc(ArcDirection::CW).to_lines(1).unwrap();
    assert_eq!(lines, vec![Line::TwoPoint(TwoPointLine::new(vec3(5., 0., 0.), vec3(0., 5., 0.)))]);
}

#[test]
fn last_turned_point_comes_close_to_the_end() {
    // the chord before the last ends one step short of the end of the arc
    let arc = Arc {
        radius: scalar(2.),
        start: vec3(1., 1., 3.),
        end: vec3(-1., 3., 3.),
        center: vec3(-1., 1., 3.),
        direction: ArcDirection::CW,
    };
    let lines = arc.to_lines(8).unwrap();
    let (a, b) = ends(&lines[7]);
    let chord = length(b.sub(a));
    let expected = 2.0 * 2.0 * (std::f64::consts::FRAC_PI_2 / 16.0).sin();
    assert!((chord - expected).abs() < 1e-6);
    for line in &lines {
        let (a, _) = ends(line);
        assert!((length(a.sub(arc.center)) - 2.0).abs() < 1e-6);
        assert_eq!(a.z, scalar(3.));
    }
}

#[test]
fn ribbons_follow_their_lines() {
    let lines = vec![
        Line::TwoPoint(TwoPointLine::new(vec3(0., 0., 3.), vec3(2., 0., 4.))),
        Line::TwoPoint(TwoPointLine::new(vec3(0., 0., 0.), vec3(0., 4., 0.))),
    ];
    let corners = kernel::geometry::line::generate_vertices(&lines, &Plane::xy(), scalar(1.)).unwrap();
    assert_eq!(corners.len(), 12);
    assert_eq!(corners[0], vec3(0., 0.5, 0.));
    assert_eq!(corners[1], vec3(2., -0.5, 0.));
    assert_eq!(corners[6], vec3(-0.5, 0., 0.));
    assert_eq!(corners[7], vec3(0.5, 4., 0.));
    let bad = vec![Line::TwoPoint(TwoPointLine::new(vec3(0., 0., 0.), vec3(0., 0., 4.)))];
    assert_eq!(
        kernel::geometry::line::generate_vertices(&bad, &Plane::xy(), scalar(1.)).err().unwrap(),
        KernelError::DegenerateProjection
    );
}
