use vstd::prelude::*;
use zot::Zot;

use crate::errors::InternalError;
use crate::idx::{NexusIdx, SegmentIdx, TrapezoidIdx};
use crate::inputs::Coords;
use crate::math::{is_left_of_line, left_of_line};
use crate::segment::Segment;

verus! {

/// Whether a segment leaves a nexus upwards or downwards
#[derive(Debug, Eq, PartialEq, Structural, Copy, Clone)]
pub enum DividerDirection {
    /// The segment goes up from the nexus
    Ascending,
    /// The segment goes down from the nexus
    Descending,
}

/// A segment at a nexus, with the trapezoid on its right.
#[derive(Copy, Clone)]
pub struct Divider {
    /// The segment
    pub si: SegmentIdx,
    /// The trapezoid on the segment's right, next to the nexus
    pub ti_right: TrapezoidIdx,
    /// Which way the segment leaves the nexus
    pub direction: DividerDirection,
}

impl Divider {
    /// The divider of segment `si` with `ti_right` on its right.
    pub fn new(si: SegmentIdx, ti_right: TrapezoidIdx, direction: DividerDirection) -> (r: Self)
        ensures
            r.si == si,
            r.ti_right == ti_right,
            r.direction == direction,
    {
        Divider { si, ti_right, direction }
    }
}

#[verifier::external_type_specification]
#[verifier::external_body]
#[verifier::reject_recursive_types(T)]
pub struct ExZot<T>(Zot<T>);

/// The dividers a `Zot` holds, in order.
pub uninterp spec fn divider_slots(z: Zot<Divider>) -> Seq<Divider>;

/// The dividers of a nexus, as a value the library can inspect.
#[derive(Copy, Clone)]
pub enum DividerSlots {
    /// No divider
    Zero,
    /// One divider
    One(Divider),
    /// Two dividers, left one first
    Two(Divider, Divider),
}

impl DividerSlots {
    /// The dividers, in order.
    pub open spec fn seq(self) -> Seq<Divider> {
        match self {
            DividerSlots::Zero => seq![],
            DividerSlots::One(d) => seq![d],
            DividerSlots::Two(a, b) => seq![a, b],
        }
    }
}

/// The sequence holding the value of `o`, if any.
pub open spec fn option_seq(o: Option<Divider>) -> Seq<Divider> {
    match o {
        Some(d) => seq![d],
        None => seq![],
    }
}

/// `Zot::Zero`: no divider.
#[verifier::external_body]
fn dividers_zero() -> (r: Zot<Divider>)
    ensures
        divider_slots(r) == Seq::<Divider>::empty(),
{
    Zot::Zero
}

/// `Zot::One`: a single divider.
#[verifier::external_body]
fn dividers_one(d: Divider) -> (r: Zot<Divider>)
    ensures
        divider_slots(r) == seq![d],
{
    Zot::One(d)
}

/// `Zot::Two`: two dividers, in the given order.
#[verifier::external_body]
fn dividers_two(a: Divider, b: Divider) -> (r: Zot<Divider>)
    ensures
        divider_slots(r) == seq![a, b],
{
    Zot::Two(a, b)
}

/// `Zot::from_options`: the values present among `a` and `b`, in order.
#[verifier::external_body]
fn dividers_from_options(a: Option<Divider>, b: Option<Divider>) -> (r: Zot<Divider>)
    ensures
        divider_slots(r) == option_seq(a) + option_seq(b),
{
    Zot::from_options(a, b)
}

/// Tells the variants of a `Zot` apart.
#[verifier::external_body]
fn dividers_view(z: &Zot<Divider>) -> (r: DividerSlots)
    ensures
        r.seq() == divider_slots(*z),
{
    match z {
        Zot::Zero => DividerSlots::Zero,
        Zot::One(d) => DividerSlots::One(*d),
        Zot::Two(a, b) => DividerSlots::Two(*a, *b),
    }
}

/// The trapezoids around a nexus once both of its segments are known.
#[derive(Copy, Clone)]
pub enum FinalNexusType {
    /// Both segments go up: three trapezoids above, one below
    V {
        ti_upleft: TrapezoidIdx,
        ti_upcenter: TrapezoidIdx,
        ti_upright: TrapezoidIdx,
        ti_down: TrapezoidIdx,
    },
    /// One segment goes up and one down: two trapezoids above and two below
    I {
        ti_upleft: TrapezoidIdx,
        ti_upright: TrapezoidIdx,
        ti_downleft: TrapezoidIdx,
        ti_downright: TrapezoidIdx,
    },
    /// Both segments go down: one trapezoid above, three below
    A {
        ti_up: TrapezoidIdx,
        ti_downleft: TrapezoidIdx,
        ti_downcenter: TrapezoidIdx,
        ti_downright: TrapezoidIdx,
    },
}

/// The shape of a [FinalNexusType] (0 for `V`, 1 for `I`, 2 for `A`) and
/// the positions of its four trapezoids, in the order of its fields.
pub open spec fn final_type_view(t: FinalNexusType) -> (int, nat, nat, nat, nat) {
    match t {
        FinalNexusType::V { ti_upleft, ti_upcenter, ti_upright, ti_down } => (
            0,
            ti_upleft@,
            ti_upcenter@,
            ti_upright@,
            ti_down@,
        ),
        FinalNexusType::I { ti_upleft, ti_upright, ti_downleft, ti_downright } => (
            1,
            ti_upleft@,
            ti_upright@,
            ti_downleft@,
            ti_downright@,
        ),
        FinalNexusType::A { ti_up, ti_downleft, ti_downcenter, ti_downright } => (
            2,
            ti_up@,
            ti_downleft@,
            ti_downcenter@,
            ti_downright@,
        ),
    }
}

/// A polygon vertex inserted into the trapezoidation, with the trapezoids
/// around it and the (at most two) segments joined at it.
pub struct Nexus {
    vi: usize,
    c: Coords,
    ti_upleft: TrapezoidIdx,
    ti_downleft: TrapezoidIdx,
    dividers: Zot<Divider>,
}

/// The dividers of `divs` (at most two) going in `direction`, in order.
pub open spec fn dividers_in(divs: Seq<Divider>, direction: DividerDirection) -> Seq<Divider> {
    (if divs.len() > 0 && divs[0].direction == direction {
        seq![divs[0]]
    } else {
        Seq::<Divider>::empty()
    }) + (if divs.len() > 1 && divs[1].direction == direction {
        seq![divs[1]]
    } else {
        Seq::<Divider>::empty()
    })
}

/// How segment `s` leaves nexus `ni`: descending from its upper end,
/// ascending from its lower end, and `None` when `ni` is neither end.
pub open spec fn segment_direction(s: Segment, ni: NexusIdx) -> Option<DividerDirection> {
    if ni@ == s.spec_ni_max()@ {
        Some(DividerDirection::Descending)
    } else if ni@ == s.spec_ni_min()@ {
        Some(DividerDirection::Ascending)
    } else {
        None
    }
}

/// The dividers of a nexus after divider `div` joins the single divider
/// `div0`: when both go the same way, the new one goes first if the old
/// segment has the new segment's far end on its left; otherwise an
/// ascending divider goes first.
pub open spec fn joined_dividers(div0: Divider, div: Divider, ss: Seq<Segment>, far: Coords) -> Seq<Divider> {
    let swap = if div0.direction == div.direction {
        let s0 = ss[div0.si@ as int];
        left_of_line(s0.spec_c_min(), s0.spec_c_max(), far)
    } else {
        div.direction == DividerDirection::Ascending
    };
    if swap {
        seq![div, div0]
    } else {
        seq![div0, div]
    }
}

/// The far end of segment `s` as seen from a nexus it leaves in `direction`.
pub open spec fn far_end(s: Segment, direction: DividerDirection) -> NexusIdx {
    match direction {
        DividerDirection::Ascending => s.spec_ni_max(),
        DividerDirection::Descending => s.spec_ni_min(),
    }
}

/// Whether nexus `n` borders trapezoid `ti`: as its leftmost trapezoid
/// above or below, or right of one of its segments.
pub open spec fn borders(n: Nexus, ti: TrapezoidIdx) -> bool {
    ||| n.spec_upleft()@ == ti@
    ||| n.spec_downleft()@ == ti@
    ||| exists|k: int| 0 <= k < n.spec_dividers().len() && (#[trigger] n.spec_dividers()[k]).ti_right@ == ti@
}

/// Nexus `n` is `o` with its first reference to `ti_old` (the upper left,
/// the lower left, then the dividers in order) turned into `ti_new`.
pub open spec fn replaced(o: Nexus, n: Nexus, ti_old: TrapezoidIdx, ti_new: TrapezoidIdx) -> bool {
    let divs = o.spec_dividers();
    &&& n.spec_vi() == o.spec_vi()
    &&& n.spec_c() == o.spec_c()
    &&& if o.spec_upleft()@ == ti_old@ {
        &&& n.spec_upleft() == ti_new
        &&& n.spec_downleft() == o.spec_downleft()
        &&& n.spec_dividers() == divs
    } else if o.spec_downleft()@ == ti_old@ {
        &&& n.spec_upleft() == o.spec_upleft()
        &&& n.spec_downleft() == ti_new
        &&& n.spec_dividers() == divs
    } else {
        let k = if divs[0].ti_right@ == ti_old@ { 0int } else { 1int };
        &&& n.spec_upleft() == o.spec_upleft()
        &&& n.spec_downleft() == o.spec_downleft()
        &&& n.spec_dividers() == divs.update(k, Divider { ti_right: ti_new, ..divs[k] })
    }
}

/// The trapezoid below nexus `n` that segment `s` continues into (see
/// [Nexus::get_down_trapezoid_in_direction]); `None` when `s` starts at the
/// nexus.
pub open spec fn down_toward(n: Nexus, ns: Seq<Nexus>, ss: Seq<Segment>, s: Segment) -> Option<TrapezoidIdx> {
    let ds = dividers_in(n.spec_dividers(), DividerDirection::Descending);
    if ds.len() == 0 {
        Some(n.spec_downleft())
    } else if ns[s.spec_ni_min()@ as int].spec_vi() == n.spec_vi() {
        None
    } else {
        let div_r = ds.last();
        let c = if ns[s.spec_ni_max()@ as int].spec_vi() == n.spec_vi() {
            ns[ss[div_r.si@ as int].spec_ni_min()@ as int].spec_c()
        } else {
            n.spec_c()
        };
        Some(if left_of_line(s.spec_c_min(), s.spec_c_max(), c) { div_r.ti_right } else { n.spec_downleft() })
    }
}

/// The trapezoids on one side of a nexus, left to right: the leftmost one,
/// then the one right of each segment leaving that way.
pub open spec fn trapezoids_toward(n: Nexus, direction: DividerDirection) -> Seq<TrapezoidIdx> {
    let leftmost = if direction == DividerDirection::Ascending {
        n.spec_upleft()
    } else {
        n.spec_downleft()
    };
    seq![leftmost] + dividers_in(n.spec_dividers(), direction).map_values(|d: Divider| d.ti_right)
}

impl Nexus {
    /// The vertex index of the nexus.
    pub closed spec fn spec_vi(&self) -> usize {
        self.vi
    }

    /// The position of the nexus.
    pub closed spec fn spec_c(&self) -> Coords {
        self.c
    }

    /// The leftmost trapezoid above.
    pub closed spec fn spec_upleft(&self) -> TrapezoidIdx {
        self.ti_upleft
    }

    /// The leftmost trapezoid below.
    pub closed spec fn spec_downleft(&self) -> TrapezoidIdx {
        self.ti_downleft
    }

    /// The segments joined at the nexus, left one first.
    pub closed spec fn spec_dividers(&self) -> Seq<Divider> {
        divider_slots(self.dividers)
    }

    /// The trapezoids around the nexus when two segments are joined at it:
    /// two descending segments make an `A`, two ascending a `V`, and
    /// otherwise an `I` (see [final_type_view]).
    pub open spec fn spec_final_view(&self) -> (int, nat, nat, nat, nat) {
        let d0 = self.spec_dividers()[0];
        let d1 = self.spec_dividers()[1];
        if d0.direction == DividerDirection::Descending {
            (2, self.spec_upleft()@, self.spec_downleft()@, d0.ti_right@, d1.ti_right@)
        } else if d1.direction == DividerDirection::Ascending {
            (0, self.spec_upleft()@, d0.ti_right@, d1.ti_right@, self.spec_downleft()@)
        } else {
            (1, self.spec_upleft()@, d0.ti_right@, self.spec_downleft()@, d1.ti_right@)
        }
    }

    /// A nexus for vertex `vi` at `c`, between trapezoid `ti_up` above and
    /// `ti_down` below, with no segment yet.
    pub fn new(vi: usize, c: Coords, ti_up: TrapezoidIdx, ti_down: TrapezoidIdx) -> (r: Self)
        ensures
            r.spec_vi() == vi,
            r.spec_c() == c,
            r.spec_upleft() == ti_up,
            r.spec_downleft() == ti_down,
            r.spec_dividers() == Seq::<Divider>::empty(),
    {
        Nexus { vi, c, ti_upleft: ti_up, ti_downleft: ti_down, dividers: dividers_zero() }
    }

    /// The trapezoids around the nexus: an error unless two segments are
    /// joined at it. Two descending segments make an `A`, two ascending an
    /// `V`, and otherwise an `I`.
    pub fn final_type(&self) -> (r: Result<FinalNexusType, InternalError>)
        ensures
            r is Ok <==> self.spec_dividers().len() == 2,
            r matches Ok(t) ==> final_type_view(t) == self.spec_final_view(),
    {
        match dividers_view(&self.dividers) {
            DividerSlots::Two(div0, div1) => {
                Ok(
                    if div0.direction == DividerDirection::Descending {
                        FinalNexusType::A {
                            ti_up: self.ti_upleft,
                            ti_downleft: self.ti_downleft,
                            ti_downcenter: div0.ti_right,
                            ti_downright: div1.ti_right,
                        }
                    } else if div1.direction == DividerDirection::Ascending {
                        FinalNexusType::V {
                            ti_upleft: self.ti_upleft,
                            ti_upcenter: div0.ti_right,
                            ti_upright: div1.ti_right,
                            ti_down: self.ti_downleft,
                        }
                    } else {
                        FinalNexusType::I {
                            ti_upleft: self.ti_upleft,
                            ti_upright: div0.ti_right,
                            ti_downleft: self.ti_downleft,
                            ti_downright: div1.ti_right,
                        }
                    },
                )
            },
            _ => Err(InternalError::new("Nexus does not have two joined segments")),
        }
    }

    /// The vertex index of the nexus.
    pub fn vertex(&self) -> (r: usize)
        ensures
            r == self.spec_vi(),
    {
        self.vi
    }

    /// The position of the nexus.
    pub fn coords(&self) -> (r: Coords)
        ensures
            r == self.spec_c(),
    {
        self.c
    }

    /// Replaces the first reference to trapezoid `ti_old` (looking at the
    /// upper left, the lower left, then the dividers in order) by `ti_new`;
    /// an error when the nexus does not border `ti_old`.
    pub fn replace_trapezoid(&mut self, ti_old: TrapezoidIdx, ti_new: TrapezoidIdx) -> (r: Result<(), InternalError>)
        requires
            old(self).spec_dividers().len() <= 2,
        ensures
            final(self).spec_vi() == old(self).spec_vi(),
            final(self).spec_c() == old(self).spec_c(),
            final(self).spec_dividers().len() == old(self).spec_dividers().len(),
            old(self).spec_upleft()@ == ti_old@ ==> {
                &&& r is Ok
                &&& final(self).spec_upleft() == ti_new
                &&& final(self).spec_downleft() == old(self).spec_downleft()
                &&& final(self).spec_dividers() == old(self).spec_dividers()
            },
            old(self).spec_upleft()@ != ti_old@ && old(self).spec_downleft()@ == ti_old@ ==> {
                &&& r is Ok
                &&& final(self).spec_upleft() == old(self).spec_upleft()
                &&& final(self).spec_downleft() == ti_new
                &&& final(self).spec_dividers() == old(self).spec_dividers()
            },
            old(self).spec_upleft()@ != ti_old@ && old(self).spec_downleft()@ != ti_old@ ==> {
                let divs = old(self).spec_dividers();
                &&& final(self).spec_upleft() == old(self).spec_upleft()
                &&& final(self).spec_downleft() == old(self).spec_downleft()
                &&& r is Ok <==> exists|k: int| 0 <= k < divs.len() && divs[k].ti_right@ == ti_old@
                &&& r is Ok ==> {
                    let k = if divs[0].ti_right@ == ti_old@ { 0int } else { 1int };
                    final(self).spec_dividers() == divs.update(
                        k,
                        Divider { ti_right: ti_new, ..divs[k] },
                    )
                }
                &&& r is Err ==> final(self).spec_dividers() == divs
            },
            r is Ok <==> borders(*old(self), ti_old),
            r is Ok ==> replaced(*old(self), *final(self), ti_old, ti_new),
            r is Err ==> *final(self) == *old(self),
    {
        if self.ti_upleft == ti_old {
            self.ti_upleft = ti_new;
            Ok(())
        } else if self.ti_downleft == ti_old {
            self.ti_downleft = ti_new;
            Ok(())
        } else {
            let ghost divs = old(self).spec_dividers();
            match dividers_view(&self.dividers) {
                DividerSlots::One(d0) => {
                    if d0.ti_right == ti_old {
                        let d = Divider { ti_right: ti_new, ..d0 };
                        self.dividers = dividers_one(d);
                        assert(self.spec_dividers() =~= divs.update(0, d));
                        Ok(())
                    } else {
                        Err(InternalError::new("Trapezoid is not connected to the nexus"))
                    }
                },
                DividerSlots::Two(d0, d1) => {
                    if d0.ti_right == ti_old {
                        let d = Divider { ti_right: ti_new, ..d0 };
                        self.dividers = dividers_two(d, d1);
                        assert(self.spec_dividers() =~= divs.update(0, d));
                        Ok(())
                    } else if d1.ti_right == ti_old {
                        let d = Divider { ti_right: ti_new, ..d1 };
                        self.dividers = dividers_two(d0, d);
                        assert(self.spec_dividers() =~= divs.update(1, d));
                        Ok(())
                    } else {
                        Err(InternalError::new("Trapezoid is not connected to the nexus"))
                    }
                },
                DividerSlots::Zero => Err(InternalError::new("Trapezoid is not connected to the nexus")),
            }
        }
    }

    fn set_dividers(&mut self, dividers: Zot<Divider>)
        ensures
            final(self).spec_vi() == old(self).spec_vi(),
            final(self).spec_c() == old(self).spec_c(),
            final(self).spec_upleft() == old(self).spec_upleft(),
            final(self).spec_downleft() == old(self).spec_downleft(),
            final(self).spec_dividers() == divider_slots(dividers),
    {
        self.dividers = dividers;
    }

    fn take_dividers(&mut self) -> (r: Zot<Divider>)
        ensures
            final(self).spec_vi() == old(self).spec_vi(),
            final(self).spec_c() == old(self).spec_c(),
            final(self).spec_upleft() == old(self).spec_upleft(),
            final(self).spec_downleft() == old(self).spec_downleft(),
            final(self).spec_dividers() == Seq::<Divider>::empty(),
            divider_slots(r) == old(self).spec_dividers(),
    {
        let mut divs = dividers_zero();
        std::mem::swap(&mut divs, &mut self.dividers);
        divs
    }

    /// Joins segment `si` at nexus `ni`, with trapezoid `ti_right` on its
    /// right next to the nexus, keeping the dividers in left-to-right order.
    /// An error when `ni` is not an end of the segment (nothing changes), or
    /// when two segments are already joined there (the nexus is left with
    /// no divider).
    pub fn add_segment(ns: &mut Vec<Nexus>, ss: &Vec<Segment>, ni: NexusIdx, si: SegmentIdx, ti_right: TrapezoidIdx) -> (r: Result<(), InternalError>)
        requires
            ni@ < old(ns)@.len(),
            si@ < ss@.len(),
            old(ns)@[ni@ as int].spec_dividers().len() <= 2,
            forall|k: int| 0 <= k < old(ns)@[ni@ as int].spec_dividers().len() ==> (#[trigger] old(ns)@[ni@ as int].spec_dividers()[k]).si@ < ss@.len(),
            forall|j: int| 0 <= j < ss@.len() ==> (#[trigger] ss@[j]).spec_ni_min()@ < old(ns)@.len() && ss@[j].spec_ni_max()@ < old(ns)@.len(),
        ensures
            final(ns)@.len() == old(ns)@.len(),
            forall|j: int| 0 <= j < old(ns)@.len() && j != ni@ ==> #[trigger] final(ns)@[j] == old(ns)@[j],
            ({
                let n = old(ns)@[ni@ as int];
                let f = final(ns)@[ni@ as int];
                let divs = n.spec_dividers();
                &&& f.spec_vi() == n.spec_vi()
                &&& f.spec_c() == n.spec_c()
                &&& f.spec_upleft() == n.spec_upleft()
                &&& f.spec_downleft() == n.spec_downleft()
                &&& match segment_direction(ss@[si@ as int], ni) {
                    None => r is Err && f.spec_dividers() == divs,
                    Some(dir) => {
                        let div = Divider { si, ti_right, direction: dir };
                        if divs.len() == 0 {
                            r is Ok && f.spec_dividers() == seq![div]
                        } else if divs.len() == 1 {
                            r is Ok && f.spec_dividers() == joined_dividers(
                                divs[0],
                                div,
                                ss@,
                                old(ns)@[far_end(ss@[si@ as int], dir)@ as int].spec_c(),
                            )
                        } else {
                            r is Err && f.spec_dividers() == Seq::<Divider>::empty()
                        }
                    },
                }
            }),
    {
        let dir = Self::get_segment_direction(ss, ni, si)?;
        let div = Divider::new(si, ti_right, dir);
        let divs = ns[ni.usize()].take_dividers();
        let ghost mid = ns@;
        let new_divs = match dividers_view(&divs) {
            DividerSlots::Zero => dividers_one(div),
            DividerSlots::One(div0) => {
                assert(div0 == old(ns)@[ni@ as int].spec_dividers()[0]);
                let swap = if div0.direction == div.direction {
                    let s0 = &ss[div0.si.usize()];
                    let s1 = &ss[div.si.usize()];
                    let ni1 = match div.direction {
                        DividerDirection::Ascending => s1.ni_max(),
                        DividerDirection::Descending => s1.ni_min(),
                    };
                    s0.is_on_left(ns[ni1.usize()].coords())
                } else {
                    div.direction == DividerDirection::Ascending
                };
                if swap {
                    dividers_two(div, div0)
                } else {
                    dividers_two(div0, div)
                }
            },
            DividerSlots::Two(_, _) => {
                return Err(InternalError::new("Nexus already has two segments"));
            },
        };
        ns[ni.usize()].set_dividers(new_divs);
        Ok(())
    }

    /// How segment `si` leaves nexus `ni`; an error when `ni` is not one of
    /// its ends.
    pub fn get_segment_direction(ss: &Vec<Segment>, ni: NexusIdx, si: SegmentIdx) -> (r: Result<DividerDirection, InternalError>)
        requires
            si@ < ss@.len(),
        ensures
            match segment_direction(ss@[si@ as int], ni) {
                Some(d) => r == Ok::<DividerDirection, InternalError>(d),
                None => r is Err,
            },
    {
        let s = &ss[si.usize()];
        if ni == s.ni_max() {
            Ok(DividerDirection::Descending)
        } else if ni == s.ni_min() {
            Ok(DividerDirection::Ascending)
        } else {
            Err(InternalError::new("Segment does not contain the nexus"))
        }
    }

    /// The dividers going in `direction`, in order.
    pub fn filter_dividers(&self, direction: DividerDirection) -> (r: Zot<Divider>)
        requires
            self.spec_dividers().len() <= 2,
        ensures
            divider_slots(r) == dividers_in(self.spec_dividers(), direction),
    {
        let (a, b) = match dividers_view(&self.dividers) {
            DividerSlots::Zero => (None, None),
            DividerSlots::One(d0) => (if d0.direction == direction { Some(d0) } else { None }, None),
            DividerSlots::Two(d0, d1) => (
                if d0.direction == direction { Some(d0) } else { None },
                if d1.direction == direction { Some(d1) } else { None },
            ),
        };
        let r = dividers_from_options(a, b);
        assert(divider_slots(r) =~= dividers_in(self.spec_dividers(), direction));
        r
    }

    fn last_trapezoid(&self, direction: DividerDirection) -> (r: Option<TrapezoidIdx>)
        requires
            self.spec_dividers().len() <= 2,
        ensures
            ({
                let ds = dividers_in(self.spec_dividers(), direction);
                r == if ds.len() > 0 { Some(ds.last().ti_right) } else { None::<TrapezoidIdx> }
            }),
    {
        let ds = self.filter_dividers(direction);
        match dividers_view(&ds) {
            DividerSlots::Zero => None,
            DividerSlots::One(d) => Some(d.ti_right),
            DividerSlots::Two(_, d) => Some(d.ti_right),
        }
    }

    /// The trapezoids in `direction` from the nexus, left to right.
    fn trapezoid_list(&self, direction: DividerDirection) -> (r: Vec<TrapezoidIdx>)
        requires
            self.spec_dividers().len() <= 2,
        ensures
            r@ == trapezoids_toward(*self, direction),
    {
        let mut r: Vec<TrapezoidIdx> = Vec::new();
        r.push(if direction == DividerDirection::Ascending { self.ti_upleft } else { self.ti_downleft });
        let ds = self.filter_dividers(direction);
        match dividers_view(&ds) {
            DividerSlots::Zero => {},
            DividerSlots::One(d) => {
                r.push(d.ti_right);
            },
            DividerSlots::Two(a, b) => {
                r.push(a.ti_right);
                r.push(b.ti_right);
            },
        }
        assert(r@ =~= trapezoids_toward(*self, direction));
        r
    }

    /// The trapezoids above the nexus, left to right.
    pub fn iter_up_trapezoids(&self) -> (r: Vec<TrapezoidIdx>)
        requires
            self.spec_dividers().len() <= 2,
        ensures
            r@ == trapezoids_toward(*self, DividerDirection::Ascending),
    {
        self.trapezoid_list(DividerDirection::Ascending)
    }

    /// The trapezoids below the nexus, left to right.
    pub fn iter_down_trapezoids(&self) -> (r: Vec<TrapezoidIdx>)
        requires
            self.spec_dividers().len() <= 2,
        ensures
            r@ == trapezoids_toward(*self, DividerDirection::Descending),
    {
        self.trapezoid_list(DividerDirection::Descending)
    }

    /// The leftmost and the rightmost trapezoid above (the rightmost being
    /// the one right of the last ascending segment, if any).
    pub fn up_trapezoids(&self) -> (r: (TrapezoidIdx, Option<TrapezoidIdx>))
        requires
            self.spec_dividers().len() <= 2,
        ensures
            ({
                let ds = dividers_in(self.spec_dividers(), DividerDirection::Ascending);
                r == (self.spec_upleft(), if ds.len() > 0 { Some(ds.last().ti_right) } else { None::<TrapezoidIdx> })
            }),
    {
        (self.ti_upleft, self.last_trapezoid(DividerDirection::Ascending))
    }

    /// The leftmost and the rightmost trapezoid below (the rightmost being
    /// the one right of the last descending segment, if any).
    pub fn down_trapezoids(&self) -> (r: (TrapezoidIdx, Option<TrapezoidIdx>))
        requires
            self.spec_dividers().len() <= 2,
        ensures
            ({
                let ds = dividers_in(self.spec_dividers(), DividerDirection::Descending);
                r == (self.spec_downleft(), if ds.len() > 0 { Some(ds.last().ti_right) } else { None::<TrapezoidIdx> })
            }),
    {
        (self.ti_downleft, self.last_trapezoid(DividerDirection::Descending))
    }

    /// The trapezoid below the nexus that segment `s` (which ends at or
    /// passes by the nexus from above) continues into: the leftmost one
    /// unless the nexus has descending segments and the point that decides
    /// (the lower end of the rightmost descending segment when `s` ends at
    /// the nexus, else the nexus itself) is left of `s`. An error when `s`
    /// starts at the nexus.
    pub fn get_down_trapezoid_in_direction(&self, ns: &Vec<Nexus>, ss: &Vec<Segment>, s: &Segment) -> (r: Result<TrapezoidIdx, InternalError>)
        requires
            self.spec_dividers().len() <= 2,
            s.spec_ni_min()@ < ns@.len(),
            s.spec_ni_max()@ < ns@.len(),
            forall|k: int| 0 <= k < self.spec_dividers().len() ==> (#[trigger] self.spec_dividers()[k]).si@ < ss@.len(),
            forall|j: int| 0 <= j < ss@.len() ==> (#[trigger] ss@[j]).spec_ni_min()@ < ns@.len(),
        ensures
            match down_toward(*self, ns@, ss@, *s) {
                Some(t) => r == Ok::<TrapezoidIdx, InternalError>(t),
                None => r is Err,
            },
            ({
                let ds = dividers_in(self.spec_dividers(), DividerDirection::Descending);
                if ds.len() == 0 {
                    r == Ok::<TrapezoidIdx, InternalError>(self.spec_downleft())
                } else if ns@[s.spec_ni_min()@ as int].spec_vi() == self.spec_vi() {
                    r is Err
                } else {
                    let div_r = ds.last();
                    let c = if ns@[s.spec_ni_max()@ as int].spec_vi() == self.spec_vi() {
                        ns@[ss@[div_r.si@ as int].spec_ni_min()@ as int].spec_c()
                    } else {
                        self.spec_c()
                    };
                    r == Ok::<TrapezoidIdx, InternalError>(
                        if left_of_line(s.spec_c_min(), s.spec_c_max(), c) { div_r.ti_right } else { self.spec_downleft() },
                    )
                }
            }),
    {
        let ds = self.filter_dividers(DividerDirection::Descending);
        let div_r = match dividers_view(&ds) {
            DividerSlots::Zero => {
                return Ok(self.ti_downleft);
            },
            DividerSlots::One(d) => d,
            DividerSlots::Two(_, d) => d,
        };
        let c = if ns[s.ni_min().usize()].vertex() == self.vertex() {
            return Err(InternalError::new("Invalid segment/nexus connection"));
        } else if ns[s.ni_max().usize()].vertex() == self.vertex() {
            ns[ss[div_r.si.usize()].ni_min().usize()].coords()
        } else {
            self.coords()
        };
        if s.is_on_left(c) {
            Ok(div_r.ti_right)
        } else {
            Ok(self.ti_downleft)
        }
    }

    /// The trapezoid in `direction` from the nexus that lies between the
    /// points `c_from` and `c_to`: the leftmost one unless the nexus has
    /// segments that way and it is left of the line from `c_from` to `c_to`
    /// (taken bottom to top), in which case the one right of the rightmost
    /// such segment.
    pub fn get_trapezoid_between_coords(&self, direction: DividerDirection, c_from: Coords, c_to: Coords) -> (r: Result<TrapezoidIdx, InternalError>)
        requires
            self.spec_dividers().len() <= 2,
        ensures
            ({
                let ds = dividers_in(self.spec_dividers(), direction);
                let leftmost = if direction == DividerDirection::Ascending { self.spec_upleft() } else { self.spec_downleft() };
                let (lo, hi) = if direction == DividerDirection::Descending { (c_to, c_from) } else { (c_from, c_to) };
                r == Ok::<TrapezoidIdx, InternalError>(
                    if ds.len() > 0 && left_of_line(lo, hi, self.spec_c()) { ds.last().ti_right } else { leftmost },
                )
            }),
    {
        let ds = self.filter_dividers(direction);
        let leftmost = if direction == DividerDirection::Ascending { self.ti_upleft } else { self.ti_downleft };
        let div_r = match dividers_view(&ds) {
            DividerSlots::Zero => {
                return Ok(leftmost);
            },
            DividerSlots::One(d) => d,
            DividerSlots::Two(_, d) => d,
        };
        let (lo, hi) = if direction == DividerDirection::Descending { (c_to, c_from) } else { (c_from, c_to) };
        let ti = if is_left_of_line(lo, hi, self.c) { div_r.ti_right } else { leftmost };
        Ok(ti)
    }

    /// The trapezoid in `direction` from the nexus toward the point `c_to`:
    /// with no segment that way the leftmost one; with one segment, the
    /// leftmost one when `c_to` is left of that segment and otherwise the
    /// one on its right; an error with two segments that way.
    pub fn get_trapezoid_toward_coords(&self, ss: &Vec<Segment>, ns: &Vec<Nexus>, direction: DividerDirection, c_to: Coords) -> (r: Result<TrapezoidIdx, InternalError>)
        requires
            self.spec_dividers().len() <= 2,
            forall|k: int| 0 <= k < self.spec_dividers().len() ==> (#[trigger] self.spec_dividers()[k]).si@ < ss@.len(),
            forall|j: int| 0 <= j < ss@.len() ==> (#[trigger] ss@[j]).spec_ni_min()@ < ns@.len() && ss@[j].spec_ni_max()@ < ns@.len(),
        ensures
            ({
                let ds = dividers_in(self.spec_dividers(), direction);
                let leftmost = if direction == DividerDirection::Ascending { self.spec_upleft() } else { self.spec_downleft() };
                if ds.len() == 0 {
                    r == Ok::<TrapezoidIdx, InternalError>(leftmost)
                } else if ds.len() == 1 {
                    let s = ss@[ds[0].si@ as int];
                    r == Ok::<TrapezoidIdx, InternalError>(
                        if left_of_line(ns@[s.spec_ni_min()@ as int].spec_c(), ns@[s.spec_ni_max()@ as int].spec_c(), c_to) {
                            leftmost
                        } else {
                            ds[0].ti_right
                        },
                    )
                } else {
                    r is Err
                }
            }),
    {
        let ds = self.filter_dividers(direction);
        let leftmost = if direction == DividerDirection::Ascending { self.ti_upleft } else { self.ti_downleft };
        match dividers_view(&ds) {
            DividerSlots::Zero => Ok(leftmost),
            DividerSlots::One(div) => {
                let s = &ss[div.si.usize()];
                let ti = if is_left_of_line(ns[s.ni_min().usize()].coords(), ns[s.ni_max().usize()].coords(), c_to) {
                    leftmost
                } else {
                    div.ti_right
                };
                Ok(ti)
            },
            DividerSlots::Two(_, _) => Err(InternalError::new("Nexus with fewer than 2 dividers expected")),
        }
    }
}

} // verus!
