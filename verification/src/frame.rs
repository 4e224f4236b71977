//! The decisions of one frame: which faces are drawn, and in which order.
//!
//! A face looks away from the camera when its normal does not point against
//! the view direction; such a face is culled. The faces that are left are
//! ordered back to front, and a face with a corner outside the depth range of
//! the view volume is dropped whole. What is left is drawn in that order, so
//! that nearer faces cover deeper ones.

use crate::arrange::{
    arranged, has_no_ties, is_back_to_front, lemma_arranged_keeps_chosen,
    lemma_back_to_front_agree, lemma_same_items_same_kept, lists, lists_the_kept,
};
use crate::painter::{
    depth_order, draws_before, is_depth_order, is_ordered, lemma_ordered_runs_agree,
};
use crate::rank::{is_negative, is_number, magnitude, rank, rank_of_bits};
use vstd::prelude::*;
use vstd::seq_lib::*;

verus! {

/// What the pipeline has measured of one face. Each measure is an integer
/// that is ordered as the measured quantity is.
#[derive(Clone, Copy, Debug, PartialEq, Eq, Structural)]
pub struct Face {
    /// The normal of the face along the view direction of the camera; zero
    /// stands for a face seen edge-on.
    pub facing: i64,
    /// The depth of the face in front of the camera, in units of the smallest
    /// difference that tells two faces apart.
    pub depth: i64,
    /// The depth of the first corner after projection.
    pub z1: i64,
    /// The depth of the second corner after projection.
    pub z2: i64,
    /// The depth of the third corner after projection.
    pub z3: i64,
}

/// The depths between the near and the far plane of the view volume, both
/// planes included, measured as the corners of a face are.
#[derive(Clone, Copy, Debug, PartialEq, Eq, Structural)]
pub struct DepthRange {
    pub near: i64,
    pub far: i64,
}

impl Face {
    /// Whether the face looks away from the camera or is seen edge-on.
    pub open spec fn culled(self) -> bool {
        self.facing >= 0
    }

    /// A face with the given measures.
    pub fn new(facing: i64, depth: i64, z1: i64, z2: i64, z3: i64) -> (face: Face)
        ensures
            face == (Face { facing, depth, z1, z2, z3 }),
    {
        Face { facing, depth, z1, z2, z3 }
    }

    /// The face that was measured in doubles, each given by its bits: the
    /// normal along the view direction and the depths of the three corners
    /// after projection. The depth of the face comes in whole units.
    pub fn measure(facing: u64, depth: i64, z1: u64, z2: u64, z3: u64) -> (face: Face)
        ensures
            face.facing == rank(facing),
            face.depth == depth,
            face.z1 == rank(z1),
            face.z2 == rank(z2),
            face.z3 == rank(z3),
    {
        Face {
            facing: rank_of_bits(facing),
            depth,
            z1: rank_of_bits(z1),
            z2: rank_of_bits(z2),
            z3: rank_of_bits(z3),
        }
    }

    /// Whether the face is skipped because it looks away from the camera: its
    /// normal points along the view direction, or at a right angle to it.
    pub fn is_cull(&self) -> (cull: bool)
        ensures
            cull == self.culled(),
    {
        self.facing >= 0
    }
}

impl DepthRange {
    /// Whether the depth `z` lies in the range, the planes included.
    pub open spec fn holds(self, z: i64) -> bool {
        self.near <= z <= self.far
    }

    /// Whether every corner of `face` lies in the range.
    pub open spec fn holds_face(self, face: Face) -> bool {
        self.holds(face.z1) && self.holds(face.z2) && self.holds(face.z3)
    }

    /// The range from `near` to `far`.
    pub fn new(near: i64, far: i64) -> (range: DepthRange)
        ensures
            range == (DepthRange { near, far }),
    {
        DepthRange { near, far }
    }

    /// The range between two planes whose depths are doubles, each given by
    /// its bits. Where one of them is no number, the range holds nothing.
    pub fn between(near: u64, far: u64) -> (range: DepthRange)
        ensures
            is_number(near) && is_number(far) ==> range.near == rank(near) && range.far == rank(
                far,
            ),
            !(is_number(near) && is_number(far)) ==> forall|z: i64| !range.holds(z),
    {
        let low: i64 = rank_of_bits(near);
        let high: i64 = rank_of_bits(far);
        if low == i64::MIN || high == i64::MIN {
            proof {
                if is_number(near) {
                    lemma_rank_of_a_number(near);
                }
                if is_number(far) {
                    lemma_rank_of_a_number(far);
                }
            }
            DepthRange { near: 1, far: 0 }
        } else {
            DepthRange { near: low, far: high }
        }
    }

    /// Whether the depth `z` lies between the planes or on one of them.
    pub fn contains(&self, z: i64) -> (inside: bool)
        ensures
            inside == self.holds(z),
    {
        self.near <= z && z <= self.far
    }

    /// Whether `face` is kept: it is dropped as soon as one corner lies
    /// outside the range, and kept whole otherwise.
    pub fn keeps(&self, face: &Face) -> (kept: bool)
        ensures
            kept == self.holds_face(*face),
            kept == !(!self.holds(face.z1) || !self.holds(face.z2) || !self.holds(face.z3)),
    {
        self.contains(face.z1) && self.contains(face.z2) && self.contains(face.z3)
    }
}

/// The depths of a list of faces.
pub open spec fn face_depths(faces: Seq<Face>) -> Seq<i64> {
    Seq::new(faces.len(), |k: int| faces[k].depth)
}

/// Whether a face is drawn: it is not culled, and the range keeps it.
pub open spec fn is_drawn(face: Face, range: DepthRange) -> bool {
    !face.culled() && range.holds_face(face)
}

/// Whether `kept` lists, in rising order, the positions of the faces that are
/// not culled.
pub open spec fn is_cull_result(faces: Seq<Face>, kept: Seq<usize>) -> bool {
    &&& forall|k: int|
        0 <= k < kept.len() ==> (#[trigger] kept[k]) < faces.len() && !faces[kept[k] as int].culled()
    &&& forall|p: int| 0 <= p < faces.len() && !faces[p].culled() ==> #[trigger] lists(kept, p)
    &&& forall|a: int, b: int| 0 <= a < b < kept.len() ==> kept[a] < kept[b]
}

/// Whether `order` is the order in which a frame draws `faces`: it lists the
/// position of every face that is drawn and of no other, a deeper face before
/// a nearer one, and faces of equal depth in the order of their positions.
pub open spec fn is_draw_order(faces: Seq<Face>, range: DepthRange, order: Seq<usize>) -> bool {
    &&& forall|k: int|
        0 <= k < order.len() ==> (#[trigger] order[k]) < faces.len() && is_drawn(
            faces[order[k] as int],
            range,
        )
    &&& forall|p: int|
        0 <= p < faces.len() && is_drawn(faces[p], range) ==> #[trigger] lists(order, p)
    &&& is_ordered(face_depths(faces), order)
}

/// Culls a list of faces: the positions of the faces that do not look away
/// from the camera, in the order of the list.
pub fn cull(faces: &Vec<Face>) -> (kept: Vec<usize>)
    ensures
        is_cull_result(faces@, kept@),
{
    let mut kept: Vec<usize> = Vec::new();
    let mut p: usize = 0;
    while p < faces.len()
        invariant
            p <= faces.len(),
            forall|k: int|
                0 <= k < kept.len() ==> (#[trigger] kept[k]) < p && !faces[kept[k] as int].culled(),
            forall|q: int| 0 <= q < p && !faces[q].culled() ==> #[trigger] lists(kept@, q),
            forall|a: int, b: int| 0 <= a < b < kept.len() ==> kept[a] < kept[b],
        decreases faces.len() - p,
    {
        let ghost before = kept@;
        if !faces[p].is_cull() {
            kept.push(p);
            proof {
                assert forall|q: int| 0 <= q < p + 1 && !faces[q].culled() implies #[trigger] lists(
                    kept@,
                    q,
                ) by {
                    if q < p {
                        assert(lists(before, q));
                        let k = choose|k: int| 0 <= k < before.len() && before[k] == q;
                        assert(kept[k] == q);
                    } else {
                        assert(kept[before.len() as int] == q);
                    }
                }
            }
        }
        p = p + 1;
    }
    kept
}

/// The order in which a frame draws its faces.
///
/// A face is drawn when it is not culled and the range keeps it. The result
/// lists the positions of the faces that are drawn, each once, back to front:
/// a deeper face before a nearer one, faces of equal depth in the order of
/// the list.
pub fn draw_order(faces: &Vec<Face>, range: &DepthRange) -> (order: Vec<usize>)
    ensures
        is_draw_order(faces@, *range, order@),
{
    let kept = cull(faces);
    let mut depths: Vec<i64> = Vec::new();
    let mut k: usize = 0;
    while k < kept.len()
        invariant
            k <= kept.len(),
            depths.len() == k,
            is_cull_result(faces@, kept@),
            forall|m: int| 0 <= m < k ==> depths[m] == faces[kept[m] as int].depth,
        decreases kept.len() - k,
    {
        depths.push(faces[kept[k]].depth);
        k = k + 1;
    }
    let sorted = depth_order(&depths);
    let mut order: Vec<usize> = Vec::new();
    let mut s: usize = 0;
    while s < sorted.len()
        invariant
            s <= sorted.len(),
            depths.len() == kept.len(),
            is_cull_result(faces@, kept@),
            forall|m: int| 0 <= m < kept.len() ==> depths[m] == faces[kept[m] as int].depth,
            is_depth_order(depths@, sorted@),
            forall|k: int|
                0 <= k < order.len() ==> (#[trigger] order[k]) < faces.len() && is_drawn(
                    faces[order[k] as int],
                    *range,
                ),
            forall|t: int|
                0 <= t < s && range.holds_face(faces[kept[sorted[t] as int] as int]) ==> lists(
                    order@,
                    #[trigger] kept[sorted[t] as int] as int,
                ),
            forall|a: int, b: int|
                0 <= a < b < order.len() ==> draws_before(
                    face_depths(faces@),
                    order[a] as int,
                    order[b] as int,
                ),
            forall|a: int, t: int|
                0 <= a < order.len() && s <= t < sorted.len() ==> draws_before(
                    face_depths(faces@),
                    #[trigger] order[a] as int,
                    kept[#[trigger] sorted[t] as int] as int,
                ),
        decreases sorted.len() - s,
    {
        let p: usize = kept[sorted[s]];
        let ghost before = order@;
        proof {
            assert forall|t: int| s < t < sorted.len() implies draws_before(
                face_depths(faces@),
                p as int,
                kept[#[trigger] sorted[t] as int] as int,
            ) by {
                assert(draws_before(depths@, sorted[s as int] as int, sorted[t] as int));
            }
        }
        if range.keeps(&faces[p]) {
            order.push(p);
            proof {
                assert forall|t: int|
                    0 <= t < s + 1 && range.holds_face(
                        faces[kept[sorted[t] as int] as int],
                    ) implies lists(order@, #[trigger] kept[sorted[t] as int] as int) by {
                    if t < s {
                        let q = kept[sorted[t] as int];
                        assert(lists(before, q as int));
                        let k = choose|k: int| 0 <= k < before.len() && before[k] == q;
                        assert(order[k] == q);
                    } else {
                        assert(order[before.len() as int] == p);
                    }
                }
            }
        }
        s = s + 1;
    }
    proof {
        assert forall|p: int| 0 <= p < faces.len() && is_drawn(faces[p], *range) implies #[trigger] lists(
            order@,
            p,
        ) by {
            assert(lists(kept@, p));
            let m = choose|m: int| 0 <= m < kept.len() && kept[m] == p;
            assert(lists(sorted@, m));
            let t = choose|t: int| 0 <= t < sorted.len() && sorted[t] == m;
            assert(kept[sorted[t] as int] == p);
        }
    }
    order
}

/// A frame has one draw order and no other.
pub proof fn lemma_draw_order_is_unique(
    faces: Seq<Face>,
    range: DepthRange,
    first: Seq<usize>,
    second: Seq<usize>,
)
    requires
        is_draw_order(faces, range, first),
        is_draw_order(faces, range, second),
    ensures
        first == second,
{
    assert forall|p: usize| first.contains(p) <==> second.contains(p) by {
        if first.contains(p) {
            let k = choose|k: int| 0 <= k < first.len() && first[k] == p;
            assert(first[k] < faces.len());
            assert(lists(second, p as int));
        }
        if second.contains(p) {
            let k = choose|k: int| 0 <= k < second.len() && second[k] == p;
            assert(second[k] < faces.len());
            assert(lists(first, p as int));
        }
    }
    lemma_ordered_runs_agree(face_depths(faces), first, second);
}

/// The depth of a face, as a function of the face.
pub open spec fn depth_of_face() -> spec_fn(Face) -> i64 {
    |face: Face| face.depth
}

/// The test whether a face is drawn, as a function of the face.
pub open spec fn drawn_in(range: DepthRange) -> spec_fn(Face) -> bool {
    |face: Face| is_drawn(face, range)
}

/// The faces of a list that are drawn, in the order of the list.
pub open spec fn drawn_faces(faces: Seq<Face>, range: DepthRange) -> Seq<Face> {
    faces.filter(drawn_in(range))
}

/// A frame draws the faces that are not culled and that the range keeps, each
/// as often as it was given, and draws them back to front.
pub proof fn lemma_draw_order_arranges(faces: Seq<Face>, range: DepthRange, order: Seq<usize>)
    requires
        is_draw_order(faces, range, order),
    ensures
        arranged(faces, order).to_multiset() == drawn_faces(faces, range).to_multiset(),
        is_back_to_front(arranged(faces, order), depth_of_face()),
{
    let depths = face_depths(faces);
    assert(order.no_duplicates()) by {
        assert forall|a: int, b: int|
            0 <= a < order.len() && 0 <= b < order.len() && a != b implies order[a]
            != order[b] by {
            if a < b {
                assert(draws_before(depths, order[a] as int, order[b] as int));
            } else {
                assert(draws_before(depths, order[b] as int, order[a] as int));
            }
        }
    }
    assert(lists_the_kept(faces, order, drawn_in(range)));
    lemma_arranged_keeps_chosen(faces, order, drawn_in(range));
    assert forall|a: int, b: int| 0 <= a < b < order.len() implies depth_of_face()(
        arranged(faces, order)[a],
    ) >= depth_of_face()(arranged(faces, order)[b]) by {
        assert(draws_before(depths, order[a] as int, order[b] as int));
    }
}

/// What a frame draws does not depend on the order in which its faces are
/// given: of two lists that hold the same faces equally often, without two
/// different drawn faces of one depth, the draw orders arrange both into the
/// same list.
pub proof fn lemma_draw_order_of_permutation(
    faces: Seq<Face>,
    shuffled: Seq<Face>,
    range: DepthRange,
    order: Seq<usize>,
    shuffled_order: Seq<usize>,
)
    requires
        faces.to_multiset() == shuffled.to_multiset(),
        has_no_ties(drawn_faces(faces, range), depth_of_face()),
        is_draw_order(faces, range, order),
        is_draw_order(shuffled, range, shuffled_order),
    ensures
        arranged(faces, order) == arranged(shuffled, shuffled_order),
{
    let first = arranged(faces, order);
    let second = arranged(shuffled, shuffled_order);
    let drawn = drawn_faces(faces, range);
    lemma_draw_order_arranges(faces, range, order);
    lemma_draw_order_arranges(shuffled, range, shuffled_order);
    lemma_same_items_same_kept(faces, shuffled, drawn_in(range));
    assert(has_no_ties(first, depth_of_face())) by {
        assert forall|a: int, b: int|
            0 <= a < first.len() && 0 <= b < first.len() && depth_of_face()(first[a])
                == depth_of_face()(first[b]) implies first[a] == first[b] by {
            assert(first.contains(first[a]));
            assert(first.contains(first[b]));
            to_multiset_contains(first, first[a]);
            to_multiset_contains(first, first[b]);
            to_multiset_contains(drawn, first[a]);
            to_multiset_contains(drawn, first[b]);
            let i = choose|i: int| 0 <= i < drawn.len() && drawn[i] == first[a];
            let j = choose|j: int| 0 <= j < drawn.len() && drawn[j] == first[b];
            assert(drawn[i] == drawn[j]);
        }
    }
    lemma_back_to_front_agree(first, second, depth_of_face());
}

/// The rank of a number lies above the least integer.
proof fn lemma_rank_of_a_number(bits: u64)
    requires
        is_number(bits),
    ensures
        rank(bits) > i64::MIN,
{
}

/// A face that was measured in doubles is culled where the normal along the
/// view direction is a number and zero or more, and only there.
pub proof fn lemma_cull_of_a_double(facing: u64)
    ensures
        rank(facing) >= 0 <==> is_number(facing) && (!is_negative(facing) || magnitude(facing)
            == 0),
{
}

} // verus!
