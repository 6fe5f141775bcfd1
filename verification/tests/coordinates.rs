use hexworld::coords::{
    axial_to_fixed, fixed_to_axial, fixed_to_height, floor_div_i64, floor_mod_i64, AxialPoint,
    HeightType, Position2, FIX_ONE, HEX_INNER_RADIUS,
};
use hexworld::world::{chunk_index_of, local_index_of};

#[test]
fn floor_division_rounds_toward_negative_infinity() {
    assert_eq!(floor_div_i64(7, 2), 3);
    assert_eq!(floor_div_i64(-7, 2), -4);
    assert_eq!(floor_div_i64(-8, 2), -4);
    assert_eq!(floor_mod_i64(7, 2), 1);
    assert_eq!(floor_mod_i64(-7, 2), 1);
    assert_eq!(floor_mod_i64(-8, 2), 0);
}

#[test]
fn height_conversion_truncates_to_containing_step() {
    // 0.9999... units is still step 0; exactly 1.0 is step 1.
    assert!(fixed_to_height(FIX_ONE - 1) == Some(HeightType(0)));
    assert!(fixed_to_height(FIX_ONE) == Some(HeightType(1)));
    assert!(fixed_to_height(2 * FIX_ONE - 1) == Some(HeightType(1)));
    assert!(fixed_to_height(0) == Some(HeightType(0)));
    // Below the world floor and beyond the highest unit: rejected, not
    // wrapped.
    assert!(fixed_to_height(-1).is_none());
    assert!(fixed_to_height(65536i64 * 65536).is_none());
    assert!(fixed_to_height(65535i64 * 65536) == Some(HeightType(65535)));
}

#[test]
fn height_to_real_is_step_multiple() {
    assert_eq!(HeightType(3).to_fixed(), 3 * FIX_ONE);
    assert_eq!(HeightType(0).to_fixed(), 0);
    assert_eq!(HeightType::from_units(9).units(), 9);
}

#[test]
fn axial_conversion_round_trips_on_centers() {
    for (q, r) in [
        (0, 0),
        (1, 0),
        (0, 1),
        (-1, 0),
        (0, -1),
        (5, -3),
        (-200, 117),
        (4096, -4096),
    ] {
        let a = AxialPoint { q, r };
        let back = fixed_to_axial(axial_to_fixed(a));
        assert!(back == a, "center of ({q}, {r}) must map back to it");
    }
}

#[test]
fn points_near_a_center_stay_in_its_hexagon() {
    let a = AxialPoint { q: 3, r: -2 };
    let center = axial_to_fixed(a);
    for (dx, dy) in [(0, 0), (20000, 0), (-20000, 0), (0, 20000), (0, -20000), (15000, 15000)] {
        let p = Position2 { x: center.x + dx, y: center.y + dy };
        assert!(fixed_to_axial(p) == a);
    }
}

#[test]
fn point_near_neighbour_center_maps_to_neighbour() {
    let a = AxialPoint { q: 0, r: 0 };
    let east = AxialPoint { q: 1, r: 0 };
    // Slightly east of the midpoint between the two centers.
    let p = Position2 { x: HEX_INNER_RADIUS + 2000, y: 0 };
    assert!(fixed_to_axial(p) == east);
    let q = Position2 { x: HEX_INNER_RADIUS - 2000, y: 0 };
    assert!(fixed_to_axial(q) == a);
}

#[test]
fn chunk_addressing_uses_floor_semantics() {
    let a = AxialPoint { q: -1, r: 0 };
    let ci = chunk_index_of(a);
    assert!(ci.0 == AxialPoint { q: -1, r: 0 });
    assert_eq!(local_index_of(a), 15 * 16);
    let b = AxialPoint { q: 17, r: -16 };
    let cb = chunk_index_of(b);
    assert!(cb.0 == AxialPoint { q: 1, r: -1 });
    assert_eq!(local_index_of(b), 16);
}
