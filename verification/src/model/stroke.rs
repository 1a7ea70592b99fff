//! Strokes: handwriting as geometry plus time. Every point carries the
//! absolute timeline second at which it was drawn.
use vstd::prelude::*;

use crate::scalar::Real;

verus! {

/// Stroke ids are readable strings such as `st1`.
pub type StrokeId = String;

/// One point of a stroke; `t` is an absolute time on the recording.
#[derive(Clone, Copy, Debug)]
pub struct StrokePoint {
    pub x: Real,
    pub y: Real,
    pub t: Real,
}

impl StrokePoint {
    /// The point (x, y) drawn at time `t`.
    pub fn new(x: Real, y: Real, t: Real) -> (r: Self)
        ensures
            r.x == x,
            r.y == y,
            r.t == t,
    {
        StrokePoint { x, y, t }
    }
}

#[derive(Clone, Debug)]
pub struct Stroke {
    pub id: StrokeId,
    /// Only strokes of the shown page are drawn.
    pub page_id: String,
    /// `#RRGGBB`
    pub color: String,
    /// Line width in page units.
    pub width: Real,
    pub points: Vec<StrokePoint>,
    /// Time of the first point (kept for quick statistics).
    pub start_time: Real,
    /// Time of the last point.
    pub end_time: Real,
}

/// Whether point `p` has been drawn by time `t` (`p.t <= t`).
pub open spec fn drawn_by(p: StrokePoint, t: Real) -> bool {
    p.t.spec_le(t)
}

/// The points split into a drawn prefix and a not-drawn rest at time `t`,
/// as is the case when their times never decrease.
pub open spec fn partitioned_at(points: Seq<StrokePoint>, t: Real) -> bool {
    forall|i: int, j: int| 0 <= i < j < points.len() && drawn_by(#[trigger] points[j], t) ==> drawn_by(#[trigger] points[i], t)
}

/// `c` is how many points are drawn at time `t`: zero before the first
/// point; for partitioned points exactly the length of the drawn prefix;
/// otherwise (where a binary search has no meaningful answer) some count.
pub open spec fn point_count_matches(points: Seq<StrokePoint>, t: Real, c: int) -> bool {
    &&& 0 <= c <= points.len()
    &&& (points.len() == 0 || t.spec_lt(points[0].t)) ==> c == 0
    &&& partitioned_at(points, t) ==> {
        &&& forall|i: int| 0 <= i < c ==> drawn_by(#[trigger] points[i], t)
        &&& forall|i: int| c <= i < points.len() ==> !drawn_by(#[trigger] points[i], t)
    }
}

impl Stroke {
    /// An empty stroke on page `page_id`.
    pub fn new(id: &str, page_id: &str, color: &str, width: Real) -> (r: Self)
        ensures
            r.id@ == id@,
            r.page_id@ == page_id@,
            r.color@ == color@,
            r.width == width,
            r.points@.len() == 0,
            r.start_time.bits == 0,
            r.end_time.bits == 0,
    {
        Stroke {
            id: id.to_owned(),
            page_id: page_id.to_owned(),
            color: color.to_owned(),
            width,
            points: Vec::new(),
            start_time: Real::zero(),
            end_time: Real::zero(),
        }
    }

    /// Appends a point; the first point also sets the start time.
    pub fn push(&mut self, x: Real, y: Real, t: Real)
        ensures
            final(self).points@ == old(self).points@.push(StrokePoint { x, y, t }),
            final(self).start_time == (if old(self).points@.len() == 0 {
                t
            } else {
                old(self).start_time
            }),
            final(self).end_time == t,
            final(self).id == old(self).id,
            final(self).page_id == old(self).page_id,
            final(self).color == old(self).color,
            final(self).width == old(self).width,
    {
        if self.points.len() == 0 {
            self.start_time = t;
        }
        self.end_time = t;
        self.points.push(StrokePoint::new(x, y, t));
    }

    /// Recomputes start and end time from the points (zero when empty).
    pub fn refresh_bounds(&mut self)
        ensures
            final(self).points == old(self).points,
            final(self).start_time == (if old(self).points@.len() == 0 {
                Real { bits: 0 }
            } else {
                old(self).points@[0].t
            }),
            final(self).end_time == (if old(self).points@.len() == 0 {
                Real { bits: 0 }
            } else {
                old(self).points@.last().t
            }),
            final(self).id == old(self).id,
            final(self).page_id == old(self).page_id,
            final(self).color == old(self).color,
            final(self).width == old(self).width,
    {
        let n = self.points.len();
        if n == 0 {
            self.start_time = Real::zero();
            self.end_time = Real::zero();
        } else {
            self.start_time = self.points[0].t;
            self.end_time = self.points[n - 1].t;
        }
    }

    /// How many points are drawn at time `t` (the prefix to draw).
    ///
    /// Points are recorded in time order, so this is a binary search.
    pub fn point_count_at(&self, t: Real) -> (r: usize)
        ensures
            point_count_matches(self.points@, t, r as int),
    {
        let n = self.points.len();
        if n == 0 || t.lt(&self.points[0].t) {
            return 0;
        }
        // Binary search for the first point not drawn by t.
        let mut lo: usize = 0;
        let mut hi: usize = n;
        while lo < hi
            invariant
                n == self.points@.len(),
                lo <= hi <= n,
                partitioned_at(self.points@, t) ==> forall|i: int| 0 <= i < lo ==> drawn_by(#[trigger] self.points@[i], t),
                partitioned_at(self.points@, t) ==> forall|i: int| hi <= i < n ==> !drawn_by(#[trigger] self.points@[i], t),
            decreases hi - lo,
        {
            let mid = lo + (hi - lo) / 2;
            if self.points[mid].t.le(&t) {
                proof {
                    if partitioned_at(self.points@, t) {
                        assert forall|i: int| 0 <= i < mid + 1 implies drawn_by(#[trigger] self.points@[i], t) by {
                            if i < mid {
                                assert(drawn_by(self.points@[mid as int], t));
                            }
                        }
                    }
                }
                lo = mid + 1;
            } else {
                proof {
                    if partitioned_at(self.points@, t) {
                        assert forall|i: int| mid <= i < n implies !drawn_by(#[trigger] self.points@[i], t) by {
                            if i > mid && drawn_by(self.points@[i], t) {
                                assert(drawn_by(self.points@[mid as int], t));
                            }
                        }
                    }
                }
                hi = mid;
            }
        }
        lo
    }
}

} // verus!
