use attendance::geo::distance_cm;

#[test]
fn distance_to_self_is_zero() {
    assert_eq!(distance_cm(52_520_000, 13_405_000, 52_520_000, 13_405_000), 0);
    assert_eq!(distance_cm(0, 0, 0, 0), 0);
    assert_eq!(distance_cm(-90_000_000, 180_000_000, -90_000_000, 180_000_000), 0);
}

#[test]
fn distance_is_symmetric() {
    let a = (52_520_000i64, 13_405_000i64);
    let b = (48_856_600i64, 2_352_200i64);
    assert_eq!(distance_cm(a.0, a.1, b.0, b.1), distance_cm(b.0, b.1, a.0, a.1));
    let c = (-33_868_800i64, 151_209_300i64);
    assert_eq!(distance_cm(a.0, a.1, c.0, c.1), distance_cm(c.0, c.1, a.0, a.1));
}

#[test]
fn one_degree_of_longitude_at_the_equator() {
    // The haversine distance between (0, 0) and (0, 1 degree) is about
    // 111,195 m; the fixed-point evaluation must stay within one percent.
    let d = distance_cm(0, 0, 0, 1_000_000);
    let expected: f64 = 11_119_500.0;
    let got = d as f64;
    assert!((got - expected).abs() <= expected * 0.01, "got {got} cm");
}

#[test]
fn berlin_to_paris_is_plausible() {
    // Berlin to Paris is about 878 km by great circle.
    let d = distance_cm(52_520_000, 13_405_000, 48_856_600, 2_352_200) as f64;
    let expected: f64 = 87_800_000.0;
    assert!((d - expected).abs() <= expected * 0.01, "got {d} cm");
}

#[test]
fn antipodal_points_are_half_a_circumference_apart() {
    // Half the Earth circumference at radius 6,371,000 m is about
    // 20,015 km. The truncated Taylor sine is least accurate at the
    // quadrant edge, so the antipodal case gets a wider tolerance than
    // the short-range cases above.
    let d = distance_cm(0, 0, 0, 180_000_000) as f64;
    let expected: f64 = 2_001_500_000.0;
    assert!((d - expected).abs() <= expected * 0.02, "got {d} cm");
}
