//! Positions on a track: a group and an object inside it.
use vstd::prelude::*;

verus! {

#[derive(Debug, Clone, Copy, PartialEq, Eq, Structural)]
pub struct Location {
    pub group: u64,
    pub object: u64,
}

impl Location {
    pub fn new(group: u64, object: u64) -> (l: Self)
        ensures
            l == (Location { group, object }),
    {
        Location { group, object }
    }

    /// Groups come first; objects order the positions inside one group.
    pub open spec fn before(self, other: Location) -> bool {
        self.group < other.group || (self.group == other.group && self.object < other.object)
    }

    /// The later of two positions.
    pub open spec fn later(self, other: Location) -> Location {
        if self.before(other) {
            other
        } else {
            self
        }
    }

    pub fn is_before(&self, other: &Location) -> (b: bool)
        ensures
            b == self.before(*other),
    {
        self.group < other.group || (self.group == other.group && self.object < other.object)
    }
}

/// The later of an optional position and `l`: what a running maximum becomes.
pub open spec fn raise(max: Option<Location>, l: Location) -> Option<Location> {
    match max {
        Some(m) => Some(m.later(l)),
        None => Some(l),
    }
}

/// `m` is `None` or a position no later than `n`.
pub open spec fn at_most(m: Option<Location>, n: Option<Location>) -> bool {
    match m {
        None => true,
        Some(a) => n matches Some(b) && !b.before(a),
    }
}

/// Positions are totally ordered: of two different ones exactly one comes first, and the order is
/// transitive.
pub proof fn law_location_order(a: Location, b: Location, c: Location)
    ensures
        !a.before(a),
        a != b ==> (a.before(b) || b.before(a)),
        !(a.before(b) && b.before(a)),
        a.before(b) && b.before(c) ==> a.before(c),
{
}

/// A running maximum never falls, and is never earlier than the position just counted in.
pub proof fn law_raise_is_monotone(m: Option<Location>, l: Location)
    ensures
        at_most(m, raise(m, l)),
        at_most(Some(l), raise(m, l)),
        raise(raise(m, l), l) == raise(m, l),
{
}

/// The order of positions goes by the group, and inside a group by the object; the later of two is
/// one of them, and none of them is behind it.
pub proof fn law_positions_go_by_group_then_object(a: Location, b: Location)
    ensures
        a.group < b.group ==> a.before(b),
        a.group == b.group ==> (a.before(b) <==> a.object < b.object),
        a.later(b) == a || a.later(b) == b,
        !a.later(b).before(a) && !a.later(b).before(b),
        raise(None, a) == Some(a),
        raise(Some(a), b) == Some(a) || raise(Some(a), b) == Some(b),
        raise(Some(a), b) matches Some(m) && !m.before(a) && !m.before(b),
{
}

} // verus!
