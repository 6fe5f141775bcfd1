//! The voxel column model: material sections, surface props, and the
//! `HexPillar` aggregate, together with the excavation mutation that edits
//! a pillar's section list in place while preserving its invariant.

use crate::coords::HeightType;
use vstd::prelude::*;

verus! {

/// Terrain material of one section. Materials carry no behavior beyond
/// identity; presentation code maps them to appearance.
#[derive(Clone, Copy, PartialEq, Eq, Structural, Debug)]
pub enum GroundMaterial {
    Dirt,
    Grass,
    Stone,
}

/// Shape parameters of one generated plant.
#[derive(Clone, Copy, PartialEq, Eq, Structural, Debug)]
pub struct Plant {
    /// Height of the trunk, in discrete height units.
    pub trunk_height: u16,
    /// Number of branches on the trunk.
    pub branch_count: u8,
    /// Radius of the leaf crown, in tenths of a hexagon radius.
    pub leaf_spread: u8,
}

/// Payload of a surface prop; one variant per prop kind.
#[derive(Clone, Copy, PartialEq, Eq, Structural, Debug)]
pub enum PropType {
    Plant(Plant),
}

/// A surface feature anchored to a pillar at a baseline height.
#[derive(Clone, Copy, PartialEq, Eq, Structural, Debug)]
pub struct Prop {
    pub baseline: HeightType,
    pub prop: PropType,
}

/// A half-open vertical interval `[bottom, top)` of one material.
#[derive(Clone, Copy, PartialEq, Eq, Structural, Debug)]
pub struct PillarSection {
    pub ground: GroundMaterial,
    pub bottom: HeightType,
    pub top: HeightType,
}

/// Error of an excavation whose target holds no material: recoverable,
/// the world is left unchanged.
#[derive(Clone, Copy, PartialEq, Eq, Structural, Debug)]
pub struct NotFound;

impl PillarSection {
    /// A section is a proper interval: `bottom < top`.
    pub open spec fn wf(self) -> bool {
        self.bottom.0 < self.top.0
    }

    /// Whether the discrete unit `[h, h+1)` lies inside this section.
    pub open spec fn covers(self, h: int) -> bool {
        self.bottom.0 <= h < self.top.0
    }

    /// Whether the height `h` lies strictly inside this section's interval,
    /// excluding both boundaries.
    pub open spec fn strictly_contains(self, h: int) -> bool {
        self.bottom.0 < h < self.top.0
    }

    pub fn new(ground: GroundMaterial, bottom: HeightType, top: HeightType) -> (s: PillarSection)
        requires
            bottom.0 < top.0,
        ensures
            s == (PillarSection { ground, bottom, top }),
            s.wf(),
    {
        PillarSection { ground, bottom, top }
    }
}

/// The section lists' structural invariant: every section is a proper
/// interval, and adjacent sections are sorted by `bottom` and do not
/// overlap (`section[i].top <= section[i+1].bottom`). Gaps are permitted:
/// they represent air.
pub open spec fn wf_sections(ss: Seq<PillarSection>) -> bool {
    &&& forall|i: int| 0 <= i < ss.len() ==> (#[trigger] ss[i]).wf()
    &&& forall|i: int|
        0 <= i && i + 1 < ss.len() ==> (#[trigger] ss[i]).top.0 <= ss[i + 1].bottom.0
}

/// In a well-formed section list, bottoms (and tops) grow along the list;
/// in particular a later section lies entirely above an earlier one.
pub proof fn lemma_wf_sections_ordered(ss: Seq<PillarSection>, i: int, k: int)
    requires
        wf_sections(ss),
        0 <= i < k < ss.len(),
    ensures
        ss[i].top.0 <= ss[k].bottom.0,
    decreases k - i,
{
    if i + 1 < k {
        lemma_wf_sections_ordered(ss, i, k - 1);
    }
}

/// Ghost model of one pillar: its ordered section list and its props.
pub struct PillarModel {
    pub sections: Seq<PillarSection>,
    pub props: Seq<Prop>,
}

/// One vertical hex column: an ordered list of material sections plus the
/// surface props attached to it. The section list is only ever mutated
/// through [`HexPillar::excavate`], which preserves [`wf_sections`].
#[derive(Clone, PartialEq, Debug)]
pub struct HexPillar {
    sections: Vec<PillarSection>,
    props: Vec<Prop>,
}

impl View for HexPillar {
    type V = PillarModel;

    closed spec fn view(&self) -> PillarModel {
        PillarModel { sections: self.sections@, props: self.props@ }
    }
}

/// The two remainders of a covering section after the unit `[h, h+1)` is
/// dug out of it: the part below and the part above, each kept only when
/// it is non-degenerate.
pub open spec fn dug_pieces(s: PillarSection, h: int) -> Seq<PillarSection> {
    let lower = PillarSection { ground: s.ground, bottom: s.bottom, top: HeightType(h as u16) };
    let upper = PillarSection {
        ground: s.ground,
        bottom: HeightType((h + 1) as u16),
        top: s.top,
    };
    if s.bottom.0 < h && h + 1 < s.top.0 {
        seq![lower, upper]
    } else if s.bottom.0 < h {
        seq![lower]
    } else if h + 1 < s.top.0 {
        seq![upper]
    } else {
        seq![]
    }
}

/// The whole section list after the unit `[h, h+1)` is dug out of the
/// section at index `i`.
pub open spec fn excavate_splice(ss: Seq<PillarSection>, i: int, h: int) -> Seq<PillarSection> {
    ss.take(i) + dug_pieces(ss[i], h) + ss.skip(i + 1)
}

/// Index `i` holds the first (under `wf_sections`: the only) section
/// covering the unit `[h, h+1)`.
pub open spec fn is_first_covering(ss: Seq<PillarSection>, i: int, h: int) -> bool {
    &&& 0 <= i < ss.len()
    &&& ss[i].covers(h)
    &&& forall|k: int| 0 <= k < i ==> !(#[trigger] ss[k]).covers(h)
}

impl HexPillar {
    /// Structural invariant of the pillar.
    pub open spec fn wf(self) -> bool {
        wf_sections(self@.sections)
    }

    /// Assembles a pillar from a section list that already satisfies the
    /// ordering invariant, and its props.
    pub fn new(sections: Vec<PillarSection>, props: Vec<Prop>) -> (p: HexPillar)
        requires
            wf_sections(sections@),
        ensures
            p@.sections == sections@,
            p@.props == props@,
            p.wf(),
    {
        HexPillar { sections, props }
    }

    /// The ordered section list.
    pub fn sections(&self) -> (s: &Vec<PillarSection>)
        ensures
            s@ == self@.sections,
    {
        &self.sections
    }

    /// The surface props.
    pub fn props(&self) -> (s: &Vec<Prop>)
        ensures
            s@ == self@.props,
    {
        &self.props
    }

    /// Runtime check of [`wf_sections`], for callers that assemble a
    /// section list from unchecked data.
    #[verifier::rlimit(50)]
    pub fn sections_well_formed(sections: &Vec<PillarSection>) -> (r: bool)
        ensures
            r == wf_sections(sections@),
    {
        let n = sections.len();
        let mut i: usize = 0;
        while i < n
            invariant
                n == sections@.len(),
                0 <= i <= n,
                forall|k: int| 0 <= k < i ==> (#[trigger] sections@[k]).wf(),
                forall|k: int|
                    0 <= k < i && k + 1 < n ==> (#[trigger] sections@[k]).top.0 <= sections@[k
                        + 1].bottom.0,
            decreases n - i,
        {
            if sections[i].bottom.0 >= sections[i].top.0 {
                return false;
            }
            if i + 1 < n && sections[i].top.0 > sections[i + 1].bottom.0 {
                return false;
            }
            i += 1;
        }
        true
    }

    /// The index of the section whose open interval strictly contains the
    /// discrete height `h` (both boundaries excluded), if any.
    pub fn section_at_height(&self, h: i64) -> (r: Option<usize>)
        ensures
            match r {
                Some(i) => i < self@.sections.len() && self@.sections[i as int].strictly_contains(
                    h as int,
                ),
                None => forall|k: int|
                    0 <= k < self@.sections.len() ==> !(#[trigger] self@.sections[k]).strictly_contains(
                        h as int,
                    ),
            },
    {
        let n = self.sections.len();
        let mut i: usize = 0;
        while i < n
            invariant
                n == self@.sections.len(),
                0 <= i <= n,
                forall|k: int| 0 <= k < i ==> !(#[trigger] self@.sections[k]).strictly_contains(
                    h as int,
                ),
            decreases n - i,
        {
            let s = &self.sections[i];
            if (s.bottom.0 as i64) < h && h < (s.top.0 as i64) {
                return Some(i);
            }
            i += 1;
        }
        None
    }

    /// The lowest section reaching above `hu`: the first index whose `top`
    /// exceeds `hu`, or the list length when every section stays at or
    /// below it.
    fn first_reaching(&self, hu: u16) -> (i: usize)
        ensures
            i <= self@.sections.len(),
            forall|k: int| 0 <= k < i ==> (#[trigger] self@.sections[k]).top.0 <= hu,
            i < self@.sections.len() ==> self@.sections[i as int].top.0 > hu,
    {
        let n = self.sections.len();
        let mut i: usize = 0;
        while i < n && self.sections[i].top.0 <= hu
            invariant
                n == self@.sections.len(),
                0 <= i <= n,
                forall|k: int| 0 <= k < i ==> (#[trigger] self@.sections[k]).top.0 <= hu,
            decreases n - i,
        {
            i += 1;
        }
        i
    }

    /// Removes exactly one vertical step of material: the discrete unit
    /// `[h, h+1)`. The covering section is split, trimmed, or deleted; when
    /// no section covers the unit the pillar is left unchanged and
    /// `NotFound` is returned. Props are never touched. The structural
    /// invariant is preserved by every outcome.
    #[verifier::rlimit(100)]
    pub fn excavate(&mut self, h: HeightType) -> (r: Result<(), NotFound>)
        requires
            old(self).wf(),
        ensures
            final(self).wf(),
            final(self)@.props == old(self)@.props,
            match r {
                Ok(()) => exists|i: int|
                    #[trigger] is_first_covering(old(self)@.sections, i, h.0 as int)
                        && final(self)@.sections =~= excavate_splice(
                        old(self)@.sections,
                        i,
                        h.0 as int,
                    ),
                Err(NotFound) => final(self)@ == old(self)@ && forall|k: int|
                    0 <= k < old(self)@.sections.len() ==> !(#[trigger] old(
                        self,
                    )@.sections[k]).covers(h.0 as int),
            },
    {
        let ghost old_ss = self@.sections;
        let hu = h.0;
        let n = self.sections.len();
        // Scan from the lowest section for the first one reaching above h.
        let i = self.first_reaching(hu);
        if i < n && self.sections[i].bottom.0 <= hu {
            // The unit [h, h+1) lies inside section i: bottom <= h < top.
            assert(is_first_covering(old_ss, i as int, hu as int));
            let s = self.sections.remove(i);
            if hu < s.top.0 - 1 {
                // A part of the section remains above the removed unit.
                self.sections.insert(
                    i,
                    PillarSection { ground: s.ground, bottom: HeightType(hu + 1), top: s.top },
                );
            }
            if s.bottom.0 < hu {
                // A part of the section remains below the removed unit.
                self.sections.insert(
                    i,
                    PillarSection { ground: s.ground, bottom: s.bottom, top: HeightType(hu) },
                );
            }
            proof {
                lemma_remove_insert_is_splice(old_ss, i as int, hu as int, self@.sections);
                lemma_excavate_splice_wf(old_ss, i as int, hu as int);
            }
            Ok(())
        } else {
            proof {
                if i < n {
                    assert forall|k: int| 0 <= k < old_ss.len() implies !(#[trigger] old_ss[k]).covers(
                        hu as int,
                    ) by {
                        if k > i {
                            lemma_wf_sections_ordered(old_ss, i as int, k);
                        }
                    }
                } else {
                    assert forall|k: int| 0 <= k < old_ss.len() implies !(#[trigger] old_ss[k]).covers(
                        hu as int,
                    ) by {}
                }
            }
            Err(NotFound)
        }
    }
}

/// Removing the covering section and inserting its non-degenerate
/// remainders back at its place yields exactly [`excavate_splice`].
#[verifier::rlimit(100)]
pub proof fn lemma_remove_insert_is_splice(
    ss: Seq<PillarSection>,
    i: int,
    h: int,
    post: Seq<PillarSection>,
)
    requires
        0 <= i < ss.len(),
        ss[i].covers(h),
        post == ({
            let s = ss[i];
            let base = ss.remove(i);
            let upper = PillarSection {
                ground: s.ground,
                bottom: HeightType((h + 1) as u16),
                top: s.top,
            };
            let lower = PillarSection { ground: s.ground, bottom: s.bottom, top: HeightType(h as u16) };
            let step1 = if h + 1 < s.top.0 {
                base.insert(i, upper)
            } else {
                base
            };
            if s.bottom.0 < h {
                step1.insert(i, lower)
            } else {
                step1
            }
        }),
    ensures
        post =~= excavate_splice(ss, i, h),
{
    let s = ss[i];
    let base = ss.remove(i);
    assert(base =~= ss.take(i) + ss.skip(i + 1));
    assert(post =~= excavate_splice(ss, i, h));
}

/// Digging one unit out of the covering section keeps the section list
/// well formed: the remainders stay inside the old section's bounds, so
/// ordering against both neighbours is kept.
#[verifier::rlimit(100)]
pub proof fn lemma_excavate_splice_wf(ss: Seq<PillarSection>, i: int, h: int)
    requires
        wf_sections(ss),
        0 <= i < ss.len(),
        ss[i].covers(h),
    ensures
        wf_sections(excavate_splice(ss, i, h)),
{
    let result = excavate_splice(ss, i, h);
    let pieces = dug_pieces(ss[i], h);
    let m = pieces.len() as int;
    assert(result.len() == ss.len() - 1 + m);
    assert(forall|k: int| 0 <= k < i ==> #[trigger] result[k] == ss[k]);
    assert(forall|k: int| 0 <= k < m ==> #[trigger] result[i + k] == pieces[k]);
    assert(forall|k: int|
        i + m <= k < result.len() ==> #[trigger] result[k] == ss[k + 1 - m]);
    // Each piece is a proper sub-interval of the old section i.
    assert(forall|k: int| 0 <= k < m ==> (#[trigger] pieces[k]).wf());
    assert(forall|k: int|
        0 <= k < m ==> ss[i].bottom.0 <= (#[trigger] pieces[k]).bottom.0
            && pieces[k].top.0 <= ss[i].top.0);
    assert(m == 2 ==> pieces[0].top.0 <= pieces[1].bottom.0);
    assert forall|k: int| 0 <= k < result.len() implies (#[trigger] result[k]).wf() by {
        if i <= k < i + m {
            assert(result[k] == pieces[k - i]);
        }
    }
    assert forall|k: int| 0 <= k && k + 1 < result.len() implies (#[trigger] result[k]).top.0
        <= result[k + 1].bottom.0 by {
        let k2 = k + 1;
        if k2 < i {
            // both in the prefix
        } else if k2 == i && m > 0 {
            // prefix meets first piece
            assert(result[k] == ss[k]);
            assert(result[k2] == pieces[0]);
        } else if k2 == i && m == 0 {
            // prefix meets suffix: ss[i - 1].top <= ss[i].bottom <= ss[i].top <= ss[i + 1].bottom
            assert(result[k] == ss[k]);
            assert(result[k2] == ss[i + 1]);
        } else if i <= k && k2 < i + m {
            // both pieces
            assert(result[k] == pieces[k - i]);
            assert(result[k2] == pieces[k2 - i]);
        } else if i <= k && k < i + m && k2 == i + m {
            // last piece meets suffix
            assert(result[k] == pieces[k - i]);
            assert(result[k2] == ss[i + 1]);
        } else {
            // both in the suffix
            assert(result[k] == ss[k + 1 - m]);
            assert(result[k2] == ss[k2 + 1 - m]);
        }
    }
}

} // verus!
