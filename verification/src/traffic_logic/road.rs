//! The road graph: for every intersection, what lies in each of the four
//! directions.

use vstd::prelude::*;
use rand::rngs::StdRng;
use crate::error::ConfigError;
use crate::traffic_logic::car::Direction;
use crate::traffic_logic::random::draw_up_to;

verus! {

/// One directed edge of the graph, as stored with its source.
#[derive(Clone, Copy, PartialEq, Eq, Debug, Structural)]
pub struct Node {
    /// The intersection the edge leads to.
    pub dest_int_id: u8,
    /// How many ticks the edge takes to travel.
    pub dist_from_source: u8,
    /// The direction a car travelling the edge arrives at.
    pub direction: u8,
}

impl Node {
    /// An edge from its three fields.
    pub fn new(dest_int_id: u8, dist_from_source: u8, direction: u8) -> (node: Node)
        ensures
            node == (Node { dest_int_id, dist_from_source, direction }),
    {
        Node { dest_int_id, dist_from_source, direction }
    }
}

/// A weighted graph over intersections. Intersection `id` (counted from 1)
/// owns row `id - 1`, which has one slot per outbound direction.
pub struct Road {
    pub road: Vec<[Option<Node>; 4]>,
}

/// The direction opposite to `d`.
pub open spec fn opposite(d: int) -> int {
    (d + 2) % 4
}

impl Road {
    /// Whether the graph knows intersection `id`.
    pub open spec fn has(self, id: u8) -> bool {
        1 <= id <= self.road@.len()
    }

    /// What lies in direction `d` of intersection `id`; nothing where the
    /// intersection or the direction does not exist.
    pub open spec fn slot(self, id: u8, d: int) -> Option<Node> {
        if self.has(id) && 0 <= d < 4 {
            self.road@[id - 1]@[d]
        } else {
            None
        }
    }

    /// The edge stored in slot `d` of row `a` is sound: it is tagged with its
    /// own direction, takes time to travel, leads to a known intersection,
    /// and that intersection holds the same edge the other way round.
    pub open spec fn edge_ok(self, a: int, d: int) -> bool {
        match self.road@[a]@[d] {
            None => true,
            Some(n) => {
                &&& n.direction == d
                &&& n.dist_from_source > 0
                &&& 1 <= n.dest_int_id <= self.road@.len()
                &&& self.road@[n.dest_int_id - 1]@[opposite(d)] == Some(
                    Node {
                        dest_int_id: (a + 1) as u8,
                        dist_from_source: n.dist_from_source,
                        direction: opposite(d) as u8,
                    },
                )
            },
        }
    }

    /// The graph's invariant: ids fit in a byte and every stored edge is
    /// sound.
    pub open spec fn wf(self) -> bool {
        &&& self.road@.len() <= 255
        &&& forall|a: int, d: int|
            0 <= a < self.road@.len() && 0 <= d < 4 ==> #[trigger] self.edge_ok(a, d)
    }

    /// A graph without intersections.
    pub fn new() -> (r: Road)
        ensures
            r.wf(),
            r.road@.len() == 0,
    {
        Road { road: Vec::new() }
    }

    /// Adds an intersection without roads and returns its id, or returns
    /// `None` and changes nothing when 255 intersections exist already.
    pub fn add_intersection(&mut self) -> (id: Option<u8>)
        requires
            old(self).wf(),
        ensures
            final(self).wf(),
            old(self).road@.len() == 255 ==> id.is_none() && final(self).road@ == old(self).road@,
            old(self).road@.len() < 255 ==> id == Some((old(self).road@.len() + 1) as u8)
                && final(self).road@.len() == old(self).road@.len() + 1
                && (forall|a: u8, d: int| old(self).has(a) ==> final(self).slot(a, d) == old(self).slot(a, d))
                && (forall|d: int| (#[trigger] final(self).slot((old(self).road@.len() + 1) as u8, d)).is_none()),
    {
        let n: usize = self.road.len();
        if n >= 255 {
            return None;
        }
        self.road.push([None, None, None, None]);
        proof {
            assert forall|a: int, d: int|
                0 <= a < self.road@.len() && 0 <= d < 4 implies #[trigger] self.edge_ok(a, d) by {
                if a < n {
                    assert(old(self).edge_ok(a, d));
                }
            }
        }
        Some((n + 1) as u8)
    }

    /// What adding a road from `a` in `direction` to `b` comes to: the first
    /// objection that applies, or none.
    pub open spec fn edge_outcome(self, a: u8, direction: u8, b: u8, distance: u8) -> Result<
        (),
        ConfigError,
    > {
        if !self.has(a) || !self.has(b) {
            Err(ConfigError::UnknownIntersection)
        } else if direction >= 4 {
            Err(ConfigError::InvalidDirection)
        } else if distance == 0 {
            Err(ConfigError::ZeroDistance)
        } else if self.slot(a, direction as int).is_some() || self.slot(
            b,
            opposite(direction as int),
        ).is_some() {
            Err(ConfigError::SlotOccupied)
        } else {
            Ok(())
        }
    }

    /// Adds a road between `a` and `b`, as two edges: one from `a` in
    /// `direction`, one from `b` in the opposite direction, both of the same
    /// length. Either both are stored or the graph stays as it was.
    pub fn add_edge(&mut self, a: u8, direction: u8, b: u8, distance: u8) -> (res: Result<
        (),
        ConfigError,
    >)
        requires
            old(self).wf(),
        ensures
            final(self).wf(),
            res == old(self).edge_outcome(a, direction, b, distance),
            res.is_err() ==> final(self).road@ == old(self).road@,
            res.is_ok() ==> {
                &&& final(self).road@.len() == old(self).road@.len()
                &&& final(self).slot(a, direction as int) == Some(
                    Node { dest_int_id: b, dist_from_source: distance, direction },
                )
                &&& final(self).slot(b, opposite(direction as int)) == Some(
                    Node {
                        dest_int_id: a,
                        dist_from_source: distance,
                        direction: opposite(direction as int) as u8,
                    },
                )
                &&& forall|x: u8, d: int|
                    !(x == a && d == direction) && !(x == b && d == opposite(direction as int))
                        ==> #[trigger] final(self).slot(x, d) == old(self).slot(x, d)
            },
    {
        let n: usize = self.road.len();
        if a == 0 || a as usize > n || b == 0 || b as usize > n {
            return Err(ConfigError::UnknownIntersection);
        }
        if direction >= 4 {
            return Err(ConfigError::InvalidDirection);
        }
        if distance == 0 {
            return Err(ConfigError::ZeroDistance);
        }
        let ia: usize = (a - 1) as usize;
        let ib: usize = (b - 1) as usize;
        let da: usize = direction as usize;
        let mirror: u8 = (direction + 2) % 4;
        let db: usize = mirror as usize;
        if self.road[ia][da].is_some() || self.road[ib][db].is_some() {
            return Err(ConfigError::SlotOccupied);
        }
        self.road[ia][da] = Some(Node::new(b, distance, direction));
        self.road[ib][db] = Some(Node::new(a, distance, mirror));
        proof {
            assert forall|x: int, d: int|
                0 <= x < self.road@.len() && 0 <= d < 4 implies #[trigger] self.edge_ok(x, d) by {
                assert(old(self).edge_ok(x, d));
                if x == ia && d == da {
                } else if x == ib && d == db {
                } else {
                    match old(self).road@[x]@[d] {
                        None => {},
                        Some(m) => {
                            let y = m.dest_int_id - 1;
                            assert(old(self).edge_ok(y, opposite(d)));
                        },
                    }
                }
            }
        }
        Ok(())
    }

    /// Whether slot `d` of `source` holds an edge to `dest`.
    pub open spec fn leads_to(self, source: u8, d: int, dest: u8) -> bool {
        self.slot(source, d).is_some() && self.slot(source, d).unwrap().dest_int_id == dest
    }

    /// The length of the direct edge from `source` to `dest`: that of the
    /// first slot, north first, that leads there. Routes over several edges
    /// do not count.
    pub open spec fn spec_distance(self, source: u8, dest: u8) -> Option<u8> {
        if self.leads_to(source, 0, dest) {
            Some(self.slot(source, 0).unwrap().dist_from_source)
        } else if self.leads_to(source, 1, dest) {
            Some(self.slot(source, 1).unwrap().dist_from_source)
        } else if self.leads_to(source, 2, dest) {
            Some(self.slot(source, 2).unwrap().dist_from_source)
        } else if self.leads_to(source, 3, dest) {
            Some(self.slot(source, 3).unwrap().dist_from_source)
        } else {
            None
        }
    }

    /// The length of the direct edge from `source` to `dest`, if there is
    /// one.
    pub fn get_distance(&self, source: u8, dest: u8) -> (distance: Option<u8>)
        ensures
            distance == self.spec_distance(source, dest),
    {
        if source == 0 || source as usize > self.road.len() {
            return None;
        }
        let row: usize = (source - 1) as usize;
        let mut d: usize = 0;
        while d < 4
            invariant
                d <= 4,
                self.has(source),
                row == source - 1,
                forall|e: int| 0 <= e < d ==> !self.leads_to(source, e, dest),
            decreases 4 - d,
        {
            match self.road[row][d] {
                Some(node) => {
                    if node.dest_int_id == dest {
                        return Some(node.dist_from_source);
                    }
                },
                None => {},
            }
            d += 1;
        }
        None
    }

    /// Where a car gets to from `source`, sitting at approach `source_dir`
    /// with intent `direction`: the edge in the slot that the intent points
    /// at, as the pair of its destination and its arrival direction. `None`
    /// where that slot is empty: a dead end.
    pub open spec fn spec_next_intersection(self, source: u8, source_dir: u8, direction: Direction) -> Option<
        (u8, u8),
    > {
        match self.slot(source, Direction::spec_next_direction(source_dir, direction) as int) {
            Some(n) => Some((n.dest_int_id, n.direction)),
            None => None,
        }
    }

    /// The next intersection and the direction of arrival there, or `None`
    /// at a dead end.
    pub fn get_next_intersection(&self, source: u8, source_dir: u8, direction: Direction) -> (next:
        Option<(u8, u8)>)
        ensures
            next == self.spec_next_intersection(source, source_dir, direction),
    {
        let index: usize = Direction::get_next_direction(source_dir, direction) as usize;
        if source == 0 || source as usize > self.road.len() {
            return None;
        }
        let row: usize = (source - 1) as usize;
        match self.road[row][index] {
            Some(node) => Some((node.dest_int_id, node.direction)),
            None => None,
        }
    }
}

impl Road {
    /// The edge in direction `d` of intersection `id`, if there is one.
    pub fn edge(&self, id: u8, d: u8) -> (node: Option<Node>)
        ensures
            node == self.slot(id, d as int),
    {
        if id == 0 || id as usize > self.road.len() || d >= 4 {
            return None;
        }
        let row: usize = (id - 1) as usize;
        let column: usize = d as usize;
        self.road[row][column]
    }

    /// No road leaves intersection `x`.
    pub open spec fn dead_end(self, x: u8) -> bool {
        forall|d: int| 0 <= d < 4 ==> (#[trigger] self.slot(x, d)).is_none()
    }

    /// A car at approach `dir` of intersection `x` gets somewhere with
    /// intent `intent`.
    pub open spec fn live(self, x: u8, dir: u8, intent: Direction) -> bool {
        self.spec_next_intersection(x, dir, intent).is_some()
    }

    /// How many of the intents numbered `k` and above lead somewhere from
    /// approach `dir` of intersection `x`.
    pub open spec fn live_from(self, x: u8, dir: u8, k: int) -> int
        decreases 4 - k,
    {
        if k < 0 || k >= 4 {
            0
        } else {
            self.live_from(x, dir, k + 1) + if self.live(x, dir, Direction::spec_from_index(k as u8)) {
                1int
            } else {
                0int
            }
        }
    }

    /// Among the intents numbered `k` and above, the one that leads
    /// somewhere and has exactly `r` such intents before it.
    pub open spec fn nth_live_from(self, x: u8, dir: u8, r: int, k: int) -> Option<Direction>
        decreases 4 - k,
    {
        if k < 0 || k >= 4 {
            None
        } else if self.live(x, dir, Direction::spec_from_index(k as u8)) {
            if r == 0 {
                Some(Direction::spec_from_index(k as u8))
            } else {
                self.nth_live_from(x, dir, r - 1, k + 1)
            }
        } else {
            self.nth_live_from(x, dir, r, k + 1)
        }
    }

    /// The intent found leads somewhere; none is found only where fewer
    /// than `r + 1` intents do.
    pub proof fn lemma_nth_live(self, x: u8, dir: u8, r: int, k: int)
        requires
            0 <= r,
            0 <= k <= 4,
        ensures
            match self.nth_live_from(x, dir, r, k) {
                Some(t) => self.live(x, dir, t),
                None => self.live_from(x, dir, k) <= r,
            },
            0 <= self.live_from(x, dir, k) <= 4 - k,
        decreases 4 - k,
    {
        if k < 4 {
            self.lemma_nth_live(x, dir, r, k + 1);
            if r > 0 {
                self.lemma_nth_live(x, dir, r - 1, k + 1);
            }
        }
    }

    /// An intersection is a dead end exactly if no intent leads anywhere
    /// from it, whatever the approach.
    pub proof fn lemma_dead_end(self, x: u8, dir: u8)
        ensures
            self.dead_end(x) <==> self.live_from(x, dir, 0) == 0,
            self.dead_end(x) <==> forall|t: Direction| !self.live(x, dir, t),
    {
        let n0 = Direction::spec_next_direction(dir, Direction::spec_from_index(0)) as int;
        let n1 = Direction::spec_next_direction(dir, Direction::spec_from_index(1)) as int;
        let n2 = Direction::spec_next_direction(dir, Direction::spec_from_index(2)) as int;
        let n3 = Direction::spec_next_direction(dir, Direction::spec_from_index(3)) as int;
        assert(self.live_from(x, dir, 4) == 0);
        self.lemma_nth_live(x, dir, 0, 3);
        self.lemma_nth_live(x, dir, 0, 2);
        self.lemma_nth_live(x, dir, 0, 1);
        assert(self.live_from(x, dir, 3) == self.live_from(x, dir, 4) + if self.live(x, dir, Direction::Straight) { 1int } else { 0int });
        assert(self.live_from(x, dir, 2) == self.live_from(x, dir, 3) + if self.live(x, dir, Direction::UTurn) { 1int } else { 0int });
        assert(self.live_from(x, dir, 1) == self.live_from(x, dir, 2) + if self.live(x, dir, Direction::Right) { 1int } else { 0int });
        assert(self.live_from(x, dir, 0) == self.live_from(x, dir, 1) + if self.live(x, dir, Direction::Left) { 1int } else { 0int });
        assert(0 <= n0 < 4 && 0 <= n1 < 4 && 0 <= n2 < 4 && 0 <= n3 < 4);
        assert(n0 != n1 && n0 != n2 && n0 != n3 && n1 != n2 && n1 != n3 && n2 != n3);
        if self.dead_end(x) {
            assert(self.slot(x, n0).is_none());
            assert(self.slot(x, n1).is_none());
            assert(self.slot(x, n2).is_none());
            assert(self.slot(x, n3).is_none());
            assert forall|t: Direction| !self.live(x, dir, t) by {
                assert(self.slot(x, Direction::spec_next_direction(dir, t) as int).is_none());
            }
        }
        if self.live_from(x, dir, 0) == 0 {
            assert forall|d: int| 0 <= d < 4 implies (#[trigger] self.slot(x, d)).is_none() by {
                assert(d == n0 || d == n1 || d == n2 || d == n3);
            }
        }
        if forall|t: Direction| !self.live(x, dir, t) {
            assert(!self.live(x, dir, Direction::Left));
            assert(!self.live(x, dir, Direction::Right));
            assert(!self.live(x, dir, Direction::UTurn));
            assert(!self.live(x, dir, Direction::Straight));
        }
    }

    /// How many of the four intents lead somewhere from approach `dir` of
    /// intersection `x`.
    pub fn live_count(&self, x: u8, dir: u8) -> (n: u8)
        ensures
            n == self.live_from(x, dir, 0),
            n <= 4,
    {
        let mut n: u8 = 0;
        let mut k: u8 = 4;
        while k > 0
            invariant
                k <= 4,
                n == self.live_from(x, dir, k as int),
                n <= 4 - k,
            decreases k,
        {
            k -= 1;
            if self.get_next_intersection(x, dir, Direction::from_index(k)).is_some() {
                n += 1;
            }
        }
        n
    }

    /// The intent that leads somewhere from approach `dir` of intersection
    /// `x` and has exactly `r` such intents before it, in the order left,
    /// right, around, straight; `None` where fewer than `r + 1` intents lead
    /// anywhere.
    pub fn nth_live_intent(&self, x: u8, dir: u8, r: u8) -> (intent: Option<Direction>)
        ensures
            intent == self.nth_live_from(x, dir, r as int, 0),
    {
        let mut left: u8 = r;
        let mut k: u8 = 0;
        while k < 4
            invariant
                k <= 4,
                left <= r,
                self.nth_live_from(x, dir, r as int, 0) == self.nth_live_from(
                    x,
                    dir,
                    left as int,
                    k as int,
                ),
            decreases 4 - k,
        {
            let t = Direction::from_index(k);
            if self.get_next_intersection(x, dir, t).is_some() {
                if left == 0 {
                    return Some(t);
                }
                left -= 1;
            }
            k += 1;
        }
        None
    }

    /// Settles the intent with which a car leaves approach `dir` of
    /// intersection `x`. The car keeps its intent where that leads
    /// somewhere. Where it does not, one of the intents that do is drawn,
    /// each with the same chance, in a single draw. `None` exactly where no
    /// road leaves the intersection.
    pub fn reroute(&self, x: u8, dir: u8, current: Direction, rng: &mut StdRng) -> (intent: Option<
        Direction,
    >)
        ensures
            intent.is_none() <==> self.dead_end(x),
            intent.is_some() ==> self.live(x, dir, intent.unwrap()),
            intent.is_some() && self.live(x, dir, current) ==> intent == Some(current),
    {
        proof {
            self.lemma_dead_end(x, dir);
        }
        if self.get_next_intersection(x, dir, current).is_some() {
            return Some(current);
        }
        let n: u8 = self.live_count(x, dir);
        if n == 0 {
            return None;
        }
        let r: u8 = draw_up_to(rng, n - 1);
        proof {
            self.lemma_nth_live(x, dir, r as int, 0);
        }
        self.nth_live_intent(x, dir, r)
    }
}

/// Every stored edge has its counterpart: if intersection `a` has an edge in
/// direction `d`, then the intersection it leads to has an edge in the
/// opposite direction that leads back to `a`, is equally long, and is tagged
/// with that opposite direction.
pub proof fn lemma_edges_are_mirrored(road: Road, a: u8, d: int)
    requires
        road.wf(),
        road.slot(a, d).is_some(),
    ensures
        road.slot(a, d).unwrap().direction == d,
        road.slot(a, d).unwrap().dist_from_source > 0,
        road.has(road.slot(a, d).unwrap().dest_int_id),
        road.slot(road.slot(a, d).unwrap().dest_int_id, opposite(d)) == Some(
            Node {
                dest_int_id: a,
                dist_from_source: road.slot(a, d).unwrap().dist_from_source,
                direction: opposite(d) as u8,
            },
        ),
{
    assert(road.edge_ok(a - 1, d));
}

} // verus!
