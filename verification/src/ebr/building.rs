use vstd::prelude::*;
use crate::ebr::board::{
    Coordinate, get_neighbors, spec_neighbors, adjacent, interior, on_board, terrain_at, spec_terrain,
    WIDTH, HEIGHT,
};
use crate::ebr::company::Company;
use crate::ebr::params::{COUNT_LIMIT, PARAM_LIMIT};
use crate::ebr::state::{EBRState, EBRStateView, Track, TrackType};
use crate::ebr::spec::{
    state_wf, bounded, details, attrs, track_of_type_at, any_track_at, track_count_at, reachable_narrow,
    owned_candidate, narrow_candidate, spec_owned_cost, spec_can_build, is_private, fixed, cash_ok,
};
use crate::ebr::queries::lemma_attrs_small;

verus! {

/// Lexicographic order on board coordinates.
pub open spec fn coord_lt(a: Coordinate, b: Coordinate) -> bool {
    a.0 < b.0 || (a.0 == b.0 && a.1 < b.1)
}

/// `s` is strictly increasing in the lexicographic order.
pub open spec fn sorted_coords(s: Seq<Coordinate>) -> bool {
    forall|i: int, j: int| 0 <= i < j < s.len() ==> coord_lt(s[i], s[j])
}

/// A list of hexes in strictly increasing order names no hex twice.
pub proof fn lemma_sorted_unique(s: Seq<Coordinate>)
    requires
        sorted_coords(s),
    ensures
        s.no_duplicates(),
{
    assert forall|i: int, j: int| 0 <= i < s.len() && 0 <= j < s.len() && i != j implies s[i] != s[j] by {
        if i < j {
            assert(coord_lt(s[i], s[j]));
        } else {
            assert(coord_lt(s[j], s[i]));
        }
    }
}

/// The spec of a candidate hex, for either kind of building.
pub open spec fn candidate(v: EBRStateView, c: Company, owned: bool, t: Coordinate) -> bool {
    if owned { owned_candidate(v, c, t) } else { narrow_candidate(v, c, t) }
}

/// One step of a scan of the board: `r` lists, in order, the candidates before
/// `(x, y)`; after looking at `(x, y)` it lists those before the next hex.
proof fn lemma_scan_step(
    v: EBRStateView,
    c: Company,
    owned: bool,
    old_r: Seq<Coordinate>,
    r: Seq<Coordinate>,
    x: usize,
    y: usize,
)
    requires
        x < WIDTH,
        y < HEIGHT,
        sorted_coords(old_r),
        forall|i: int| 0 <= i < old_r.len() ==> on_board(#[trigger] old_r[i]) && coord_lt(old_r[i], (x, y)),
        forall|t: Coordinate| coord_lt(t, (x, y)) ==> (old_r.contains(t) <==> candidate(v, c, owned, t)),
        r == old_r.push((x, y)) || r == old_r,
        r == old_r.push((x, y)) <==> candidate(v, c, owned, (x, y)),
    ensures
        sorted_coords(r),
        forall|i: int| 0 <= i < r.len() ==> on_board(#[trigger] r[i]) && coord_lt(r[i], (x, (y + 1) as usize)),
        forall|t: Coordinate|
            coord_lt(t, (x, (y + 1) as usize)) ==> (r.contains(t) <==> candidate(v, c, owned, t)),
{
    assert forall|t: Coordinate| coord_lt(t, (x, (y + 1) as usize)) implies (r.contains(t) <==> candidate(v, c, owned, t)) by {
        if t == (x, y) {
            if candidate(v, c, owned, t) {
                assert(r[r.len() - 1] == t);
            } else {
                assert(r == old_r);
                if old_r.contains(t) {
                    let i = choose|i: int| 0 <= i < old_r.len() && old_r[i] == t;
                    assert(coord_lt(old_r[i], (x, y)));
                }
            }
        } else {
            assert(coord_lt(t, (x, y)));
            if r.contains(t) {
                let i = choose|i: int| 0 <= i < r.len() && r[i] == t;
                if i < old_r.len() {
                    assert(old_r[i] == t);
                }
            }
            if old_r.contains(t) {
                let i = choose|i: int| 0 <= i < old_r.len() && old_r[i] == t;
                assert(r[i] == t);
            }
        }
    }
}

/// At the end of a column the candidates before the next column are listed.
proof fn lemma_scan_column(v: EBRStateView, c: Company, owned: bool, r: Seq<Coordinate>, x: usize)
    requires
        x < WIDTH,
        forall|i: int| 0 <= i < r.len() ==> on_board(#[trigger] r[i]) && coord_lt(r[i], (x, HEIGHT)),
        forall|t: Coordinate| coord_lt(t, (x, HEIGHT)) ==> (r.contains(t) <==> candidate(v, c, owned, t)),
        forall|t: Coordinate| #[trigger] candidate(v, c, owned, t) ==> on_board(t),
    ensures
        forall|i: int| 0 <= i < r.len() ==> on_board(#[trigger] r[i]) && r[i].0 < x + 1,
        forall|t: Coordinate| t.0 < x + 1 ==> (r.contains(t) <==> candidate(v, c, owned, t)),
{
    assert forall|t: Coordinate| t.0 < x + 1 implies (r.contains(t) <==> candidate(v, c, owned, t)) by {
        if !coord_lt(t, (x, HEIGHT)) {
            assert(t.0 == x && t.1 >= HEIGHT);
            if r.contains(t) {
                let i = choose|i: int| 0 <= i < r.len() && r[i] == t;
                assert(on_board(r[i]));
            }
            assert(!candidate(v, c, owned, t));
        }
    }
}

/// There is track at `loc` exactly when at least one piece is counted there.
pub proof fn lemma_count_positive(track: Seq<Track>, loc: Coordinate)
    ensures
        any_track_at(track, loc) <==> track_count_at(track, loc) > 0,
    decreases track.len(),
{
    if track.len() > 0 {
        let rest = track.drop_last();
        lemma_count_positive(rest, loc);
        if any_track_at(rest, loc) {
            let i = choose|i: int| 0 <= i < rest.len() && #[trigger] rest[i].location == loc;
            assert(track[i].location == loc);
        }
        if any_track_at(track, loc) && track.last().location != loc {
            let i = choose|i: int| 0 <= i < track.len() && #[trigger] track[i].location == loc;
            assert(rest[i].location == loc);
        }
        if track.last().location == loc {
            assert(track[track.len() - 1].location == loc);
        }
    }
}

impl EBRState {
    /// Whether `company` owns track next to `t`.
    fn owned_track_adjacent(&self, company: Company, t: Coordinate) -> (r: bool)
        requires
            state_wf(self@),
        ensures
            r == exists|i: int|
                0 <= i < self@.track.len() && #[trigger] self@.track[i].track_type == TrackType::CompanyOwned(company)
                    && adjacent(self@.track[i].location, t),
    {
        let tt = TrackType::CompanyOwned(company);
        let mut i: usize = 0;
        while i < self.track.len()
            invariant
                i <= self.track.len(),
                state_wf(self@),
                tt == TrackType::CompanyOwned(company),
                forall|j: int|
                    0 <= j < i ==> !(#[trigger] self@.track[j].track_type == tt && adjacent(self@.track[j].location, t)),
            decreases self.track.len() - i,
        {
            let tr = self.track[i];
            if tr.track_type == tt {
                assert(interior(self@.track[i as int].location));
                let ns = get_neighbors(tr.location);
                let mut k: usize = 0;
                while k < 6
                    invariant
                        k <= 6,
                        i < self.track.len(),
                        tr == self@.track[i as int],
                        tt == TrackType::CompanyOwned(company),
                        tr.track_type == tt,
                        ns@ == spec_neighbors(tr.location),
                        forall|m: int| 0 <= m < k ==> #[trigger] spec_neighbors(tr.location)[m] != t,
                    decreases 6 - k,
                {
                    if ns[k].0 == t.0 && ns[k].1 == t.1 {
                        assert(spec_neighbors(tr.location)[k as int] == t);
                        assert(self@.track[i as int].track_type == tt && adjacent(self@.track[i as int].location, t));
                        return true;
                    }
                    k += 1;
                }
            }
            i += 1;
        }
        false
    }

    /// Whether public company `company` may build at `t` (on the board).
    fn is_owned_candidate(&self, company: Company, t: Coordinate) -> (r: bool)
        requires
            state_wf(self@),
            bounded(self@),
            on_board(t),
        ensures
            r == owned_candidate(self@, company, t),
    {
        if !self.owned_track_adjacent(company, t) {
            return false;
        }
        let terrain = terrain_at(t);
        let attr = self.terrain_attributes[terrain.index()];
        if !attr.buildable {
            return false;
        }
        let count = self.track_count_at(t);
        proof { lemma_count_positive(self@.track, t); }
        if count > 0 && !attr.multiple_allowed {
            return false;
        }
        if self.has_track_at(t, TrackType::CompanyOwned(company)) {
            return false;
        }
        let cost = self.owned_cost(t, None);
        let cash = self.company_details[company.index()].cash;
        assert(self@.company_details[company.spec_index()] == self.company_details@[company.spec_index()]@);
        cash >= cost as i64
    }

    /// Whether `company` may build at `t`: public track when `owned`, else
    /// narrow gauge track, given the hexes `reach` of its narrow gauge network.
    fn is_candidate(&self, company: Company, owned: bool, reach: &Vec<Coordinate>, t: Coordinate) -> (r: bool)
        requires
            state_wf(self@),
            bounded(self@),
            on_board(t),
            !owned ==> forall|x: Coordinate| reach@.contains(x) <==> reachable_narrow(self@, company).contains(x),
            !owned ==> forall|i: int| 0 <= i < reach.len() ==> interior(#[trigger] reach@[i]),
        ensures
            r == candidate(self@, company, owned, t),
    {
        if owned {
            self.is_owned_candidate(company, t)
        } else {
            self.is_narrow_candidate(company, reach, t)
        }
    }

    /// Whether private company `company` may lay narrow gauge track at `t`
    /// (on the board), given the hexes `reach` of its network.
    fn is_narrow_candidate(&self, company: Company, reach: &Vec<Coordinate>, t: Coordinate) -> (r: bool)
        requires
            state_wf(self@),
            bounded(self@),
            on_board(t),
            forall|x: Coordinate| reach@.contains(x) <==> reachable_narrow(self@, company).contains(x),
            forall|i: int| 0 <= i < reach.len() ==> interior(#[trigger] reach@[i]),
        ensures
            r == narrow_candidate(self@, company, t),
    {
        let mut found = false;
        let mut i: usize = 0;
        while i < reach.len()
            invariant
                i <= reach.len(),
                forall|j: int| 0 <= j < reach.len() ==> interior(#[trigger] reach@[j]),
                found ==> exists|j: int| 0 <= j < reach.len() && adjacent(#[trigger] reach@[j], t),
                !found ==> forall|j: int| 0 <= j < i ==> !adjacent(#[trigger] reach@[j], t),
            decreases reach.len() - i,
        {
            assert(interior(reach@[i as int]));
            let ns = get_neighbors(reach[i]);
            let mut k: usize = 0;
            while k < 6
                invariant
                    k <= 6,
                    i < reach.len(),
                    ns@ == spec_neighbors(reach@[i as int]),
                    found ==> exists|j: int| 0 <= j < reach.len() && adjacent(#[trigger] reach@[j], t),
                    !found ==> forall|j: int| 0 <= j < i ==> !adjacent(#[trigger] reach@[j], t),
                    !found ==> forall|m: int| 0 <= m < k ==> #[trigger] spec_neighbors(reach@[i as int])[m] != t,
                decreases 6 - k,
            {
                if ns[k].0 == t.0 && ns[k].1 == t.1 {
                    assert(spec_neighbors(reach@[i as int])[k as int] == t);
                    assert(adjacent(reach@[i as int], t));
                    found = true;
                }
                k += 1;
            }
            proof {
                if !found {
                    assert(!adjacent(reach@[i as int], t)) by {
                        if adjacent(reach@[i as int], t) {
                            let m = choose|m: int| 0 <= m < 6 && spec_neighbors(reach@[i as int])[m] == t;
                        }
                    }
                }
            }
            i += 1;
        }
        proof {
            if found {
                let j = choose|j: int| 0 <= j < reach.len() && adjacent(#[trigger] reach@[j], t);
                assert(reach@.contains(reach@[j]));
                assert(reachable_narrow(self@, company).contains(reach@[j]));
            } else {
                assert forall|x: Coordinate| #[trigger] reachable_narrow(self@, company).contains(x) implies !adjacent(x, t) by {
                    assert(reach@.contains(x));
                    let j = choose|j: int| 0 <= j < reach.len() && reach@[j] == x;
                }
            }
        }
        if !found {
            return false;
        }
        let cash = self.company_details[company.index()].cash;
        assert(self@.company_details[company.spec_index()] == self.company_details@[company.spec_index()]@);
        let cost = self.narrow_cost(t);
        let count = self.track_count_at(t);
        proof { lemma_count_positive(self@.track, t); }
        if cost as i64 > cash && count == 0 {
            return false;
        }
        let terrain = terrain_at(t);
        self.terrain_attributes[terrain.index()].buildable
    }

    /// The candidate hexes of the given kind, in lexicographic order.
    fn scan_candidates(&self, company: Company, owned: bool, reach: &Vec<Coordinate>) -> (r: Vec<Coordinate>)
        requires
            state_wf(self@),
            bounded(self@),
            !owned ==> forall|x: Coordinate| reach@.contains(x) <==> reachable_narrow(self@, company).contains(x),
            !owned ==> forall|i: int| 0 <= i < reach.len() ==> interior(#[trigger] reach@[i]),
        ensures
            sorted_coords(r@),
            forall|t: Coordinate| r@.contains(t) <==> candidate(self@, company, owned, t),
            forall|i: int| 0 <= i < r.len() ==> on_board(#[trigger] r@[i]),
            r.len() <= WIDTH * HEIGHT,
    {
        let mut r: Vec<Coordinate> = Vec::new();
        let mut x: usize = 0;
        while x < WIDTH
            invariant
                x <= WIDTH,
                state_wf(self@),
                bounded(self@),
                !owned ==> forall|x: Coordinate| reach@.contains(x) <==> reachable_narrow(self@, company).contains(x),
                !owned ==> forall|i: int| 0 <= i < reach.len() ==> interior(#[trigger] reach@[i]),
                sorted_coords(r@),
                forall|i: int| 0 <= i < r.len() ==> on_board(#[trigger] r@[i]) && r@[i].0 < x,
                forall|t: Coordinate| t.0 < x ==> (r@.contains(t) <==> candidate(self@, company, owned, t)),
                r.len() <= x * HEIGHT,
            decreases WIDTH - x,
        {
            let mut y: usize = 0;
            while y < HEIGHT
                invariant
                    x < WIDTH,
                    y <= HEIGHT,
                    state_wf(self@),
                    bounded(self@),
                    !owned ==> forall|x: Coordinate| reach@.contains(x) <==> reachable_narrow(self@, company).contains(x),
                    !owned ==> forall|i: int| 0 <= i < reach.len() ==> interior(#[trigger] reach@[i]),
                    sorted_coords(r@),
                    forall|i: int| 0 <= i < r.len() ==> on_board(#[trigger] r@[i]) && coord_lt(r@[i], (x, y)),
                    forall|t: Coordinate|
                        coord_lt(t, (x, y)) ==> (r@.contains(t) <==> candidate(self@, company, owned, t)),
                    r.len() <= x * HEIGHT + y,
                decreases HEIGHT - y,
            {
                let ghost old_r = r@;
                if self.is_candidate(company, owned, reach, (x, y)) {
                    r.push((x, y));
                }
                proof { lemma_scan_step(self@, company, owned, old_r, r@, x, y); }
                y += 1;
            }
            proof { lemma_scan_column(self@, company, owned, r@, x); }
            x += 1;
        }
        r
    }

    /// The hexes where public company `company` may build, in lexicographic order.
    pub fn possible_owned_track(&self, company: Company) -> (r: Vec<Coordinate>)
        requires
            state_wf(self@),
            bounded(self@),
        ensures
            sorted_coords(r@),
            forall|t: Coordinate| r@.contains(t) <==> owned_candidate(self@, company, t),
            forall|i: int| 0 <= i < r.len() ==> on_board(#[trigger] r@[i]),
            r.len() <= WIDTH * HEIGHT,
    {
        let none: Vec<Coordinate> = Vec::new();
        self.scan_candidates(company, true, &none)
    }

    /// The hexes where private company `company` may lay narrow gauge track,
    /// in lexicographic order.
    pub fn possible_narrow_track(&self, company: Company) -> (r: Vec<Coordinate>)
        requires
            state_wf(self@),
            bounded(self@),
        ensures
            sorted_coords(r@),
            forall|t: Coordinate| r@.contains(t) <==> narrow_candidate(self@, company, t),
            forall|i: int| 0 <= i < r.len() ==> on_board(#[trigger] r@[i]),
            r.len() <= WIDTH * HEIGHT,
    {
        let reach = self.reachable_narrow_track(company);
        self.scan_candidates(company, false, &reach)
    }
}

} // verus!
