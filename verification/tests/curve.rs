use evenpog::params::EvenPogParams;
use evenpog::shaper::{band, node_edge, Segment, ShaperCurve, BREAKPOINTS, LAST_BAND, NODES};

const EDGES: [f32; 12] = [-1.0, -0.8, -0.6, -0.4, -0.2, -0.1, 0.1, 0.2, 0.4, 0.6, 0.8, 1.0];

/// The curve's output, from the segment that the library picks.
fn shape(curve: &ShaperCurve, x: f32) -> f32 {
    let s = curve.segment(x.to_bits());
    let (low, high) = (f32::from_bits(s.low_edge), f32::from_bits(s.high_edge));
    let w = ((high - x) / (high - low)).clamp(0.0, 1.0);
    w * f32::from_bits(s.low_value) + (1.0 - w) * f32::from_bits(s.high_value)
}

#[test]
fn table_sizes() {
    assert_eq!(NODES, 12);
    assert_eq!(BREAKPOINTS, 10);
    assert_eq!(LAST_BAND, 10);
}

#[test]
fn node_edges_are_the_documented_values() {
    for (node, edge) in EDGES.iter().enumerate() {
        assert_eq!(node_edge(node), edge.to_bits());
    }
}

#[test]
fn band_counts_the_inner_nodes_below() {
    let mut x = -1.5f32;
    while x <= 1.5 {
        let expected = EDGES[1..11].iter().filter(|edge| **edge < x).count();
        assert_eq!(band(x.to_bits()), expected, "{}", x);
        x += 0.000731;
    }
}

#[test]
fn band_of_the_reference_inputs() {
    let expected = [
        (-1.0f32, 0usize),
        (-0.9, 0),
        (-0.5, 2),
        (0.0, 5),
        (0.15, 6),
        (0.5, 8),
        (0.9, 10),
        (1.0, 10),
    ];
    for (x, b) in expected {
        assert_eq!(band(x.to_bits()), b, "{}", x);
    }
}

#[test]
fn a_sample_on_a_node_belongs_to_the_band_below() {
    for node in 1..11usize {
        assert_eq!(band(EDGES[node].to_bits()), node - 1);
        let above = f32::from_bits(if EDGES[node] > 0.0 {
            EDGES[node].to_bits() + 1
        } else {
            EDGES[node].to_bits() - 1
        });
        assert!(above > EDGES[node]);
        assert_eq!(band(above.to_bits()), node);
    }
}

#[test]
fn band_of_unusual_patterns() {
    assert_eq!(band((-0.0f32).to_bits()), 5);
    assert_eq!(band(f32::NEG_INFINITY.to_bits()), 0);
    assert_eq!(band(f32::INFINITY.to_bits()), 10);
    assert_eq!(band((-5.0f32).to_bits()), 0);
    assert_eq!(band(5.0f32.to_bits()), 10);
    assert_eq!(band(0x7FC0_0000), 10);
    assert_eq!(band(0xFFC0_0000), 0);
}

#[test]
fn segment_gives_the_two_nodes_of_the_band() {
    let multipliers: [u32; 10] = [11, 12, 13, 14, 15, 16, 17, 18, 19, 20];
    let curve = ShaperCurve::new(multipliers);
    let values: [u32; 12] = [11, 12, 13, 14, 15, 0, 0, 16, 17, 18, 19, 20];
    for node in 0..12usize {
        assert_eq!(curve.node_value(node), values[node]);
    }
    let mut x = -1.2f32;
    while x <= 1.2 {
        let b = band(x.to_bits());
        assert_eq!(
            curve.segment(x.to_bits()),
            Segment {
                band: b,
                low_edge: EDGES[b].to_bits(),
                high_edge: EDGES[b + 1].to_bits(),
                low_value: values[b],
                high_value: values[b + 1],
            }
        );
        x += 0.0137;
    }
}

#[test]
fn segment_encloses_samples_of_the_domain() {
    let curve = EvenPogParams::new().curve();
    let mut x = -1.0f32;
    while x <= 1.0 {
        let s = curve.segment(x.to_bits());
        assert!(f32::from_bits(s.low_edge) <= x && x <= f32::from_bits(s.high_edge), "{}", x);
        if s.band > 0 {
            assert!(f32::from_bits(s.low_edge) < x);
        }
        x += 0.00097;
    }
}

#[test]
fn default_curve_on_the_reference_inputs() {
    let curve = EvenPogParams::new().curve();
    // On a node the output is the node's value, bit for bit.
    assert_eq!(shape(&curve, -1.0).to_bits(), (-1.0f32).to_bits());
    assert_eq!(shape(&curve, 1.0).to_bits(), 1.0f32.to_bits());
    assert_eq!(shape(&curve, 0.0), 0.0);
    // Between nodes the default curve is the identity outside the dead zone
    // and climbs from 0 at 0.1 to 0.2 at 0.2.
    for (x, y) in [(-0.9f32, -0.9f32), (-0.5, -0.5), (0.15, 0.1), (0.5, 0.5), (0.9, 0.9)] {
        assert!((shape(&curve, x) - y).abs() < 1e-6, "{} gives {}", x, shape(&curve, x));
    }
}

#[test]
fn default_curve_is_continuous_and_bounded() {
    let curve = EvenPogParams::new().curve();
    let mut x = -1.0f32;
    let mut previous = shape(&curve, x);
    while x <= 1.0 {
        let y = shape(&curve, x);
        assert!((-1.0..=1.0).contains(&y));
        assert!((y - previous).abs() < 0.01, "jump at {}", x);
        previous = y;
        x += 0.001;
    }
    assert_eq!(shape(&curve, 0.05), 0.0);
    assert_eq!(shape(&curve, -0.1), 0.0);
}
