use glam::Vec2;
use micromayhem::quantize::{dequantize_axis, quantize_axis, QuantizedPosition, SUB_STEPS};

const CELL: f32 = 100.0;

fn to_steps(x: f32) -> i64 {
    (x * SUB_STEPS as f32 / CELL).floor() as i64
}

fn from_steps(s: i64) -> f32 {
    s as f32 * CELL / SUB_STEPS as f32
}

#[test]
fn test_approximate_position() {
    let positions = [
        Vec2::new(1.16, -5.42),
        Vec2::new(0.0, 0.0),
        Vec2::new(251.95, 312.5),
    ];

    for &position in positions.iter() {
        let q = QuantizedPosition::quantize(to_steps(position.x), to_steps(position.y));
        let (x, y) = q.dequantize();
        let converted = Vec2::new(from_steps(x), from_steps(y));
        let diff = position - converted;

        assert!(diff.length() < 1.0);
        assert!(diff.x.abs() < CELL / SUB_STEPS as f32);
        assert!(diff.y.abs() < CELL / SUB_STEPS as f32);
    }
}

#[test]
fn quantize_splits_cell_and_offset() {
    let q = QuantizedPosition::quantize(645, -14);
    assert_eq!(q, QuantizedPosition { grid_x: 2, grid_y: -1, sub_x: 133, sub_y: 242 });
    assert_eq!(q.dequantize(), (645, -14));
}

#[test]
fn quantize_origin() {
    let q = QuantizedPosition::quantize(0, 0);
    assert_eq!(q, QuantizedPosition { grid_x: 0, grid_y: 0, sub_x: 0, sub_y: 0 });
}

#[test]
fn quantize_saturates_beyond_grid() {
    assert_eq!(quantize_axis(1_000_000), (127, 255));
    assert_eq!(quantize_axis(-1_000_000), (-128, 0));
    assert_eq!(quantize_axis(32767), (127, 255));
    assert_eq!(quantize_axis(-32768), (-128, 0));
}

#[test]
fn dequantize_axis_formula() {
    assert_eq!(dequantize_axis(-1, 255), -1);
    assert_eq!(dequantize_axis(3, 10), 778);
}
