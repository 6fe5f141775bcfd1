use hexworld::coords::{AxialPoint, ChunkIndex, HeightType, PillarIndex};
use hexworld::gen::WorldGenerator;
use hexworld::pillar::{GroundMaterial, HexPillar, PillarSection};
use hexworld::world::World;

fn solid_pillar(bottom: u16, top: u16) -> HexPillar {
    HexPillar::new(
        vec![PillarSection::new(
            GroundMaterial::Dirt,
            HeightType(bottom),
            HeightType(top),
        )],
        vec![],
    )
}

fn bounds(p: &HexPillar) -> Vec<(u16, u16)> {
    p.sections().iter().map(|s| (s.bottom.0, s.top.0)).collect()
}

#[test]
fn excavate_middle_splits_section() {
    // Digging one unit at height 55 out of [0,100) leaves [0,55) and
    // [56,100): exactly the region [55,56) is removed.
    let mut p = solid_pillar(0, 100);
    assert!(p.excavate(HeightType(55)).is_ok());
    assert_eq!(bounds(&p), vec![(0, 55), (56, 100)]);
}

#[test]
fn excavate_same_unit_twice_is_not_found() {
    // The second call targets an already-empty slice: it fails and the
    // pillar is left exactly as it was.
    let mut p = solid_pillar(0, 100);
    assert!(p.excavate(HeightType(55)).is_ok());
    let before = bounds(&p);
    assert!(p.excavate(HeightType(55)).is_err());
    assert_eq!(bounds(&p), before);
}

#[test]
fn excavate_at_section_top_needs_no_split() {
    let mut p = solid_pillar(0, 100);
    assert!(p.excavate(HeightType(99)).is_ok());
    assert_eq!(bounds(&p), vec![(0, 99)]);
}

#[test]
fn excavate_at_section_bottom() {
    let mut p = solid_pillar(10, 12);
    assert!(p.excavate(HeightType(10)).is_ok());
    assert_eq!(bounds(&p), vec![(11, 12)]);
}

#[test]
fn excavate_degenerate_section_is_deleted() {
    let mut p = solid_pillar(55, 56);
    assert!(p.excavate(HeightType(55)).is_ok());
    assert_eq!(bounds(&p), Vec::<(u16, u16)>::new());
}

#[test]
fn excavate_in_air_gap_is_not_found() {
    let mut p = HexPillar::new(
        vec![
            PillarSection::new(GroundMaterial::Dirt, HeightType(0), HeightType(50)),
            PillarSection::new(GroundMaterial::Dirt, HeightType(60), HeightType(80)),
        ],
        vec![],
    );
    let before = bounds(&p);
    assert!(p.excavate(HeightType(55)).is_err());
    assert_eq!(bounds(&p), before);
}

#[test]
fn excavate_above_all_material_is_not_found() {
    let mut p = solid_pillar(0, 100);
    assert!(p.excavate(HeightType(100)).is_err());
    assert_eq!(bounds(&p), vec![(0, 100)]);
}

#[test]
fn invariant_holds_after_any_sequence() {
    // Sorted order, non-overlap and bottom < top survive an arbitrary
    // mix of splits, trims, deletions and failures.
    let mut p = solid_pillar(0, 100);
    for h in [55, 55, 99, 0, 42, 43, 41, 70, 100, 1, 2] {
        let _ = p.excavate(HeightType(h));
        assert!(HexPillar::sections_well_formed(p.sections()));
        for s in p.sections() {
            assert!(s.bottom.0 < s.top.0);
        }
        for w in p.sections().windows(2) {
            assert!(w[0].top.0 <= w[1].bottom.0);
        }
    }
}

#[test]
fn world_excavation_reports_dirty_chunk() {
    let mut world = World::new(WorldGenerator::with_seed(42));
    world.load(ChunkIndex(AxialPoint { q: 0, r: 0 }));
    let pos = PillarIndex(AxialPoint { q: 0, r: 0 });
    let dirty = world.excavate(pos, HeightType(99)).expect("unit 99 is solid");
    assert!(dirty == ChunkIndex(AxialPoint { q: 0, r: 0 }));
    let pillar = world.pillar_at(pos).unwrap();
    assert_eq!(bounds(pillar), vec![(0, 99)]);
}

#[test]
fn world_excavation_in_missing_chunk_fails() {
    let mut world = World::new(WorldGenerator::with_seed(42));
    let pos = PillarIndex(AxialPoint { q: 500, r: 500 });
    assert!(world.excavate(pos, HeightType(10)).is_err());
}
