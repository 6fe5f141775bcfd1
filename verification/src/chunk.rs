//! The chunk: a fixed-size square block of hex pillars, the unit of
//! generation and loading.

use crate::coords::{HeightType, CHUNK_SIZE};
use crate::pillar::{
    excavate_splice, is_first_covering, HexPillar, NotFound, PillarModel,
};
use vstd::prelude::*;

verus! {

/// Owns exactly `CHUNK_SIZE * CHUNK_SIZE` pillars in row-major order over
/// the local axial offsets: local `(q, r)` lives at index
/// `q * CHUNK_SIZE + r`. The same convention is used by the generator and
/// by every lookup.
#[derive(Clone, PartialEq, Debug)]
pub struct Chunk {
    pillars: Vec<HexPillar>,
}

impl View for Chunk {
    type V = Seq<PillarModel>;

    closed spec fn view(&self) -> Seq<PillarModel> {
        self.pillars@.map_values(|p: HexPillar| p@)
    }
}

impl Chunk {
    /// Structural invariant: full size, and every pillar well formed.
    pub open spec fn wf(self) -> bool {
        &&& self@.len() == CHUNK_SIZE * CHUNK_SIZE
    &&& forall|k: int|
            0 <= k < self@.len() ==> crate::pillar::wf_sections((#[trigger] self@[k]).sections)
    }

    /// Assembles a chunk from its complete pillar list.
    pub fn from_pillars(pillars: Vec<HexPillar>) -> (c: Chunk)
        requires
            pillars@.len() == CHUNK_SIZE * CHUNK_SIZE,
            forall|k: int| 0 <= k < pillars@.len() ==> (#[trigger] pillars@[k]).wf(),
        ensures
            c@ == pillars@.map_values(|p: HexPillar| p@),
            c.wf(),
    {
        let c = Chunk { pillars };
        proof {
            assert forall|k: int| 0 <= k < c@.len() implies crate::pillar::wf_sections(
                (#[trigger] c@[k]).sections,
            ) by {
                assert(c@[k] == c.pillars@[k]@);
            }
        }
        c
    }

    /// The pillars, in row-major order.
    pub fn pillars(&self) -> (ps: &Vec<HexPillar>)
        ensures
            ps@.map_values(|p: HexPillar| p@) == self@,
    {
        &self.pillars
    }

    /// The pillar at local offset `(q, r)`.
    pub fn pillar_at(&self, q: usize, r: usize) -> (p: &HexPillar)
        requires
            q < CHUNK_SIZE,
            r < CHUNK_SIZE,
            self.wf(),
        ensures
            p@ == self@[q * CHUNK_SIZE + r],
            p.wf(),
    {
        proof {
            assert(q * CHUNK_SIZE + r < CHUNK_SIZE * CHUNK_SIZE) by (nonlinear_arith)
                requires
                    q < CHUNK_SIZE,
                    r < CHUNK_SIZE,
            ;
        }
        let idx = q * CHUNK_SIZE + r;
        let p = &self.pillars[idx];
        proof {
            assert(p@ == self@[idx as int]);
        }
        p
    }

    /// Excavates one discrete unit at local offset `(q, r)`; see
    /// [`HexPillar::excavate`]. Only that pillar changes.
    #[verifier::rlimit(100)]
    #[verifier::spinoff_prover]
    pub fn excavate(&mut self, q: usize, r: usize, h: HeightType) -> (res: Result<(), NotFound>)
        requires
            q < CHUNK_SIZE,
            r < CHUNK_SIZE,
            old(self).wf(),
        ensures
            final(self).wf(),
            final(self)@.len() == old(self)@.len(),
            forall|k: int|
                0 <= k < old(self)@.len() && k != q * CHUNK_SIZE + r ==> final(self)@[k] == old(
                    self,
                )@[k],
            ({
                let idx = q * CHUNK_SIZE + r;
                let before = old(self)@[idx as int];
                let after = final(self)@[idx as int];
                after.props == before.props && match res {
                    Ok(()) => exists|i: int|
                        #[trigger] is_first_covering(before.sections, i, h.0 as int)
                            && after.sections =~= excavate_splice(before.sections, i, h.0 as int),
                    Err(NotFound) => after == before && forall|k: int|
                        0 <= k < before.sections.len() ==> !(#[trigger] before.sections[k]).covers(
                            h.0 as int,
                        ),
                }
            }),
    {
        proof {
            assert(q * CHUNK_SIZE + r < CHUNK_SIZE * CHUNK_SIZE) by (nonlinear_arith)
                requires
                    q < CHUNK_SIZE,
                    r < CHUNK_SIZE,
            ;
        }
        let idx = q * CHUNK_SIZE + r;
        let mut p = self.pillars.remove(idx);
        proof {
            assert(p@ == old(self)@[idx as int]);
            assert(p.wf());
        }
        let res = p.excavate(h);
        self.pillars.insert(idx, p);
        proof {
            assert(self.pillars@ =~= old(self).pillars@.update(idx as int, p));
            assert(self@ =~= old(self)@.update(idx as int, p@));
        }
        res
    }
}

} // verus!
