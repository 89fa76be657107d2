use vstd::prelude::*;
use crate::ebr::board::{Coordinate, Terrain, spec_terrain, terrain_at, same_coord, interior, WIDTH};
use crate::ebr::company::Company;
use crate::ebr::state::{EBRState, EBRStateView, TrackType};
use crate::ebr::spec::{
    state_wf, bounded, details, is_private, reachable_narrow, track_reachable, track_of_type_at,
    any_track_at, terrain_of_index,
};
use crate::ebr::permitted::hex_of;

verus! {

/// Whether `c` reaches `loc`: a private by its narrow gauge network, a
/// public company by its own track from a headquarters that holds its track.
pub open spec fn spec_company_connected(v: EBRStateView, c: Company, loc: Coordinate) -> bool {
    if is_private(v, c) {
        reachable_narrow(v, c).contains(loc)
    } else {
        match details(v, c).hq {
            None => false,
            Some(h) => track_of_type_at(v.track, h, TrackType::CompanyOwned(c)) && track_reachable(
                v.track,
                TrackType::CompanyOwned(c),
                h,
                loc,
            ),
        }
    }
}

/// The hexes of terrain `t` among the first `k` hexes of the board.
pub open spec fn hexes_of_terrain(t: Terrain, k: int) -> int
    decreases k,
{
    if k <= 0 {
        0
    } else {
        hexes_of_terrain(t, k - 1) + if spec_terrain(hex_of(k - 1)) == t { 1int } else { 0int }
    }
}

/// The hexes of terrain `t` among the first `k` hexes of the board that
/// hold some track.
pub open spec fn tracked_hexes_of_terrain(v: EBRStateView, t: Terrain, k: int) -> int
    decreases k,
{
    if k <= 0 {
        0
    } else {
        tracked_hexes_of_terrain(v, t, k - 1) + if spec_terrain(hex_of(k - 1)) == t && any_track_at(
            v.track,
            hex_of(k - 1),
        ) {
            1int
        } else {
            0int
        }
    }
}

/// `s` is in order from largest to smallest.
pub open spec fn descending(s: Seq<i64>) -> bool {
    forall|i: int, j: int| 0 <= i <= j < s.len() ==> s[i] >= s[j]
}

impl EBRState {
    /// Whether `company` reaches `location` (see `spec_company_connected`).
    pub fn company_connected(&self, company: Company, location: Coordinate) -> (r: bool)
        requires
            state_wf(self@),
            bounded(self@),
        ensures
            r == spec_company_connected(self@, company, location),
    {
        let ci = company.index();
        assert(self@.company_details[ci as int] == self.company_details@[ci as int]@);
        if self.company_fixed_details[ci].private {
            let reach = self.reachable_narrow_track(company);
            return crate::ebr::network::coord_in(&reach, location);
        }
        let h = match self.company_details[ci].hq {
            None => return false,
            Some(h) => h,
        };
        let tt = TrackType::CompanyOwned(company);
        if !self.has_track_at(h, tt) {
            return false;
        }
        assert(interior(h));
        let reach = self.track_network(h, tt);
        crate::ebr::network::coord_in(&reach, location)
    }

    /// How many bonds have been issued: the bonds of the parameters less those
    /// still unissued.
    pub fn total_bonds_issued(&self) -> (r: usize)
        requires
            self.unissued_bonds.len() <= self.hyperparams.bonds.len(),
        ensures
            r == self.hyperparams.bonds.len() - self.unissued_bonds.len(),
    {
        self.hyperparams.bonds.len() - self.unissued_bonds.len()
    }

    /// Whether some track lies at `loc`.
    fn any_track(&self, loc: Coordinate) -> (r: bool)
        ensures
            r == any_track_at(self@.track, loc),
    {
        let mut i: usize = 0;
        while i < self.track.len()
            invariant
                i <= self.track.len(),
                forall|j: int| 0 <= j < i ==> #[trigger] self@.track[j].location != loc,
            decreases self.track.len() - i,
        {
            if same_coord(self.track[i].location, loc) {
                return true;
            }
            i += 1;
        }
        false
    }

    /// For each terrain, by `Terrain::index`: how many of its hexes hold
    /// track, and how many hexes it has.
    pub fn terrain_track_counts(&self) -> (r: Vec<(usize, usize)>)
        ensures
            r.len() == 6,
            forall|t: int| 0 <= t < 6 ==> #[trigger] r@[t] == (
                tracked_hexes_of_terrain(self@, terrain_of_index(t), 182) as usize,
                hexes_of_terrain(terrain_of_index(t), 182) as usize,
            ),
    {
        let mut r: Vec<(usize, usize)> = Vec::new();
        let mut t: usize = 0;
        while t < 6
            invariant
                t <= 6,
                r.len() == t,
                forall|j: int| 0 <= j < t ==> #[trigger] r@[j] == (
                    tracked_hexes_of_terrain(self@, terrain_of_index(j), 182) as usize,
                    hexes_of_terrain(terrain_of_index(j), 182) as usize,
                ),
            decreases 6 - t,
        {
            let terrain = if t == 0 {
                Terrain::Nothing
            } else if t == 1 {
                Terrain::Plain
            } else if t == 2 {
                Terrain::Forest
            } else if t == 3 {
                Terrain::Mountain
            } else if t == 4 {
                Terrain::Town
            } else {
                Terrain::Port
            };
            assert(terrain == terrain_of_index(t as int));
            let mut with_track: usize = 0;
            let mut total: usize = 0;
            let mut k: usize = 0;
            while k < 182
                invariant
                    k <= 182,
                    with_track == tracked_hexes_of_terrain(self@, terrain, k as int),
                    total == hexes_of_terrain(terrain, k as int),
                    with_track <= k,
                    total <= k,
                decreases 182 - k,
            {
                let loc: Coordinate = (k % WIDTH, k / WIDTH);
                assert(loc == hex_of(k as int));
                if terrain_at(loc) == terrain {
                    total += 1;
                    if self.any_track(loc) {
                        with_track += 1;
                    }
                }
                k += 1;
            }
            r.push((with_track, total));
            t += 1;
        }
        r
    }

    /// The winner of a finished game: the first player, in seat order, with
    /// the most cash, and that cash; nobody before the end.
    pub fn winning_player(&self) -> (r: Option<(usize, i64)>)
        ensures
            r is Some <==> (self@.terminal && self@.player_cash.len() > 0),
            r matches Some((id, best)) ==> {
                &&& id < self@.player_cash.len()
                &&& self@.player_cash[id as int] == best
                &&& forall|j: int| 0 <= j < self@.player_cash.len() ==> #[trigger] self@.player_cash[j] <= best
                &&& forall|j: int| 0 <= j < id ==> #[trigger] self@.player_cash[j] < best
            },
    {
        if !self.terminal || self.player_cash.len() == 0 {
            return None;
        }
        let mut id: usize = 0;
        let mut i: usize = 1;
        while i < self.player_cash.len()
            invariant
                1 <= i <= self@.player_cash.len(),
                id < i,
                forall|j: int| 0 <= j < i ==> #[trigger] self@.player_cash[j] <= self@.player_cash[id as int],
                forall|j: int| 0 <= j < id ==> #[trigger] self@.player_cash[j] < self@.player_cash[id as int],
            decreases self.player_cash.len() - i,
        {
            if self.player_cash[i] > self.player_cash[id] {
                id = i;
            }
            i += 1;
        }
        Some((id, self.player_cash[id]))
    }

    /// The players' cash from largest to smallest.
    pub fn player_scores(&self) -> (r: Vec<i64>)
        ensures
            descending(r@),
            r@.to_multiset() == self@.player_cash.to_multiset(),
    {
        broadcast use vstd::seq_lib::group_to_multiset_ensures;
        let mut r: Vec<i64> = Vec::new();
        let mut i: usize = 0;
        while i < self.player_cash.len()
            invariant
                i <= self.player_cash.len(),
                descending(r@),
                r@.to_multiset() == self@.player_cash.take(i as int).to_multiset(),
            decreases self.player_cash.len() - i,
        {
            let x = self.player_cash[i];
            let mut pos: usize = 0;
            while pos < r.len() && r[pos] >= x
                invariant
                    pos <= r.len(),
                    forall|j: int| 0 <= j < pos ==> #[trigger] r@[j] >= x,
                decreases r.len() - pos,
            {
                pos += 1;
            }
            let ghost before = r@;
            r.insert(pos, x);
            proof {
                broadcast use vstd::seq_lib::group_to_multiset_ensures;
                assert(self@.player_cash.take(i + 1) =~= self@.player_cash.take(i as int).push(x));
                assert(r@ == before.insert(pos as int, x));
                assert(before.insert(pos as int, x).to_multiset() == before.to_multiset().insert(x));
                assert(self@.player_cash.take(i as int).push(x).to_multiset()
                    == self@.player_cash.take(i as int).to_multiset().insert(x));
                assert forall|a: int, b: int| 0 <= a <= b < r@.len() implies r@[a] >= r@[b] by {
                    if a < pos && b == pos {
                    } else if a == pos && b > pos {
                        assert(r@[b] == before[b - 1]);
                        assert(!(before[pos as int] >= x) || pos == before.len());
                        if pos < before.len() {
                            assert(before[pos as int] >= before[b - 1]);
                        }
                    } else if a < pos && b > pos {
                        assert(r@[b] == before[b - 1]);
                    } else if a > pos {
                        assert(r@[a] == before[a - 1] && r@[b] == before[b - 1]);
                    }
                }
            }
            i += 1;
        }
        assert(self@.player_cash.take(self.player_cash.len() as int) =~= self@.player_cash);
        r
    }
}

} // verus!
