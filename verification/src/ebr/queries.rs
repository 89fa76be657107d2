use vstd::prelude::*;
use crate::ebr::board::{Coordinate, Terrain, terrain_at, spec_terrain, on_board, interior};
use crate::ebr::company::{Company, COMPANY_COUNT};
use crate::ebr::params::{PARAM_LIMIT, COUNT_LIMIT, small, small_revenue};
use crate::ebr::state::{EBRState, Stage, Track, TrackType, BondDetails};
use crate::ebr::spec::{
    state_wf, bounded, details, attrs, owns_terrain, track_count_at, spec_owned_cost_with,
    track_revenue, bond_interest, spec_net_revenue, ceil_div, spec_min_bid, cash_ok, bonds_ok,
    common_attributes, terrain_of_index, CASH_LIMIT,
};
use crate::ebr::div_ceil;

verus! {

/// The terrain rules of each terrain are small.
pub proof fn lemma_attrs_small(v: crate::ebr::state::EBRStateView, t: Terrain)
    requires
        state_wf(v),
    ensures
        attrs(v, t).build_cost <= PARAM_LIMIT,
        small_revenue(attrs(v, t).revenue),
        attrs(v, t) == common_attributes(t, v.hyperparams.terrain_attributes@[t.spec_index()]),
{
    let i = t.spec_index();
    assert(v.terrain_attributes[i] == common_attributes(terrain_of_index(i), v.hyperparams.terrain_attributes@[i]));
    assert(terrain_of_index(i) == t);
    assert(v.hyperparams.terrain_attributes@[i].build_cost <= PARAM_LIMIT);
}

impl EBRState {
    /// Whether `company` owns track on a hex of terrain `terrain`.
    fn owns_terrain(&self, company: Company, terrain: Terrain) -> (r: bool)
        requires
            state_wf(self@),
        ensures
            r == owns_terrain(self@, company, terrain),
    {
        let mut i: usize = 0;
        while i < self.track.len()
            invariant
                i <= self.track.len(),
                state_wf(self@),
                forall|j: int|
                    0 <= j < i ==> !(#[trigger] self@.track[j].track_type == TrackType::CompanyOwned(company)
                        && spec_terrain(self@.track[j].location) == terrain),
            decreases self.track.len() - i,
        {
            let t = self.track[i];
            assert(interior(self@.track[i as int].location));
            if t.track_type == TrackType::CompanyOwned(company) && terrain_at(t.location) == terrain {
                return true;
            }
            i += 1;
        }
        false
    }

    /// Whether `company` owns track on a port.
    pub fn has_port(&self, company: Company) -> (r: bool)
        requires
            state_wf(self@),
        ensures
            r == owns_terrain(self@, company, Terrain::Port),
    {
        self.owns_terrain(company, Terrain::Port)
    }

    /// Whether `company` owns track on a town.
    pub fn has_town(&self, company: Company) -> (r: bool)
        requires
            state_wf(self@),
        ensures
            r == owns_terrain(self@, company, Terrain::Town),
    {
        self.owns_terrain(company, Terrain::Town)
    }

    /// Number of pieces of track at `t`.
    pub fn track_count_at(&self, t: Coordinate) -> (r: usize)
        requires
            self.track.len() <= COUNT_LIMIT,
        ensures
            r == track_count_at(self@.track, t),
            r <= self.track.len(),
    {
        let mut n: usize = 0;
        let mut i: usize = 0;
        while i < self.track.len()
            invariant
                i <= self.track.len(),
                n == track_count_at(self@.track.take(i as int), t),
                n <= i,
            decreases self.track.len() - i,
        {
            assert(self@.track.take(i + 1).drop_last() =~= self@.track.take(i as int));
            let loc = self.track[i].location;
            if loc.0 == t.0 && loc.1 == t.1 {
                n += 1;
            }
            i += 1;
        }
        assert(self@.track.take(self.track.len() as int) =~= self@.track);
        n
    }

    /// The cost for a public company of building at `t`; `other_track_in_location`,
    /// when given, stands for the track already at `t`.
    pub fn owned_cost(&self, t: Coordinate, other_track_in_location: Option<Vec<Track>>) -> (r: usize)
        requires
            state_wf(self@),
            bounded(self@),
            on_board(t),
            other_track_in_location matches Some(o) ==> o.len() <= COUNT_LIMIT,
        ensures
            r == spec_owned_cost_with(
                self@,
                t,
                match other_track_in_location {
                    Some(o) => o.len() as int,
                    None => track_count_at(self@.track, t) as int,
                },
            ),
            r <= (COUNT_LIMIT + 2) * PARAM_LIMIT,
    {
        let others = match other_track_in_location {
            Some(o) => o.len(),
            None => self.track_count_at(t),
        };
        let terrain = terrain_at(t);
        proof { lemma_attrs_small(self@, terrain); }
        let build_cost = self.terrain_attributes[terrain.index()].build_cost as usize;
        let extra = self.hyperparams.additional_cost(t);
        assert((1 + others) * build_cost <= (COUNT_LIMIT + 1) * PARAM_LIMIT) by (nonlinear_arith)
            requires others <= COUNT_LIMIT, build_cost <= PARAM_LIMIT;
        (1 + others) * build_cost + extra
    }

    /// The revenue that `company` would pay out now: the revenue of the
    /// terrain and places under its track, less interest on bonds that are no
    /// longer deferred.
    pub fn net_revenue(&self, company: Company) -> (r: i64)
        requires
            state_wf(self@),
            bounded(self@),
            self.dividends_paid < 6,
        ensures
            r == spec_net_revenue(self@, company),
            -4096 * 12288 <= r <= 4096 * 8192,
    {
        let dp = self.dividends_paid;
        let mut sum: i64 = 0;
        let mut i: usize = 0;
        while i < self.track.len()
            invariant
                i <= self.track.len(),
                state_wf(self@),
                bounded(self@),
                dp == self.dividends_paid,
                dp < 6,
                sum == track_revenue(self@, self@.track.take(i as int), company),
                -(i as int) * 8192 <= sum <= (i as int) * 8192,
            decreases self.track.len() - i,
        {
            assert(self@.track.take(i + 1).drop_last() =~= self@.track.take(i as int));
            let t = self.track[i];
            if t.track_type == TrackType::CompanyOwned(company) {
                assert(interior(self@.track[i as int].location));
                let terrain = terrain_at(t.location);
                proof { lemma_attrs_small(self@, terrain); }
                let rev = self.terrain_attributes[terrain.index()].revenue;
                assert(small(rev@[dp as int] as int));
                let terrain_rev = rev[dp];
                let feature_rev = self.hyperparams.feature_revenue(t.location, dp);
                sum = sum + terrain_rev + feature_rev;
            }
            i += 1;
        }
        assert(self@.track.take(self.track.len() as int) =~= self@.track);
        let d = &self.company_details[company.index()];
        assert(self@.company_details[company.spec_index()] == d@);
        assert(bonds_ok(d@.bonds));
        let mut interest: i64 = 0;
        let mut j: usize = 0;
        while j < d.bonds.len()
            invariant
                j <= d.bonds.len(),
                bonds_ok(d@.bonds),
                interest == bond_interest(d@.bonds.take(j as int)),
                0 <= interest <= (j as int) * 4096,
            decreases d.bonds.len() - j,
        {
            assert(d@.bonds.take(j + 1).drop_last() =~= d@.bonds.take(j as int));
            let b = d.bonds[j];
            if !b.deferred {
                assert(d@.bonds[j as int].bond.coupon <= PARAM_LIMIT);
                interest = interest + b.bond.coupon as i64;
            }
            j += 1;
        }
        assert(d@.bonds.take(d.bonds.len() as int) =~= d@.bonds);
        sum - interest
    }

    /// The least bid at auction for a share of `company`: its revenue per
    /// share once one more share is held, rounded up, and at least 1.
    pub fn min_bid(&self, company: Company) -> (r: i64)
        requires
            state_wf(self@),
            bounded(self@),
            self.dividends_paid < 6,
        ensures
            r == spec_min_bid(self@, company),
    {
        let rev = self.net_revenue(company);
        let owned_shares = self.company_details[company.index()].shares_held;
        assert(self@.company_details[company.spec_index()] == self.company_details@[company.spec_index()]@);
        let q = div_ceil(rev, owned_shares as i64 + 1);
        if q > 1 { q } else { 1 }
    }

    /// The narrow gauge building cost, which is the same everywhere.
    pub fn narrow_cost(&self, _t: Coordinate) -> (r: usize)
        ensures
            r == self.hyperparams.narrow_track_cost,
    {
        self.hyperparams.narrow_track_cost
    }
}

} // verus!

verus! {

fn cash_within(c: i64) -> (r: bool)
    ensures
        r == cash_ok(c),
{
    -CASH_LIMIT <= c && c <= CASH_LIMIT
}

fn bonds_within(bs: &Vec<BondDetails>) -> (r: bool)
    ensures
        r == bonds_ok(bs@),
{
    if bs.len() > COUNT_LIMIT {
        return false;
    }
    let mut i: usize = 0;
    while i < bs.len()
        invariant
            i <= bs@.len(),
            forall|j: int| 0 <= j < i ==> #[trigger] bs@[j].bond.coupon <= PARAM_LIMIT && bs@[j].bond.face_value <= PARAM_LIMIT,
        decreases bs@.len() - i,
    {
        if bs[i].bond.coupon > PARAM_LIMIT || bs[i].bond.face_value > PARAM_LIMIT {
            return false;
        }
        i += 1;
    }
    true
}

impl EBRState {
    /// Whether every amount of cash and every list length lies within the
    /// overflow guards that the rules are checked for.
    pub fn within_margins(&self) -> (r: bool)
        ensures
            r == bounded(self@),
    {
        if self.track.len() > COUNT_LIMIT || self.resource_cubes.len() > COUNT_LIMIT
            || self.unissued_bonds.len() > COUNT_LIMIT || self.narrow_gauge_remaining > COUNT_LIMIT {
            return false;
        }
        let mut i: usize = 0;
        while i < self.unissued_bonds.len()
            invariant
                i <= self@.unissued_bonds.len(),
                forall|j: int| 0 <= j < i ==> #[trigger] self@.unissued_bonds[j].face_value <= PARAM_LIMIT
                    && self@.unissued_bonds[j].coupon <= PARAM_LIMIT,
            decreases self@.unissued_bonds.len() - i,
        {
            if self.unissued_bonds[i].face_value > PARAM_LIMIT || self.unissued_bonds[i].coupon > PARAM_LIMIT {
                return false;
            }
            i += 1;
        }
        let mut p: usize = 0;
        while p < self.holdings.len()
            invariant
                p <= self@.holdings.len(),
                forall|j: int| 0 <= j < p ==> #[trigger] self@.holdings[j].len() <= COUNT_LIMIT,
            decreases self@.holdings.len() - p,
        {
            assert(self@.holdings[p as int] == self.holdings@[p as int]@);
            if self.holdings[p].len() > COUNT_LIMIT {
                return false;
            }
            p += 1;
        }
        let mut q: usize = 0;
        while q < self.player_cash.len()
            invariant
                q <= self@.player_cash.len(),
                forall|j: int| 0 <= j < q ==> cash_ok(#[trigger] self@.player_cash[j]),
            decreases self@.player_cash.len() - q,
        {
            if !cash_within(self.player_cash[q]) {
                return false;
            }
            q += 1;
        }
        let mut k: usize = 0;
        while k < self.company_details.len()
            invariant
                k <= self@.company_details.len(),
                forall|j: int| 0 <= j < k ==> {
                    let d = #[trigger] self@.company_details[j];
                    &&& cash_ok(d.cash)
                    &&& bonds_ok(d.bonds)
                    &&& d.owned_privates.len() <= COUNT_LIMIT
                    &&& d.shares_held <= COUNT_LIMIT
                    &&& d.shares_remaining <= COUNT_LIMIT
                    &&& d.track_remaining <= COUNT_LIMIT
                },
            decreases self@.company_details.len() - k,
        {
            let d = &self.company_details[k];
            assert(self@.company_details[k as int] == d@);
            if !cash_within(d.cash) || !bonds_within(&d.bonds) || d.owned_privates.len() > COUNT_LIMIT
                || d.shares_held > COUNT_LIMIT || d.shares_remaining > COUNT_LIMIT || d.track_remaining > COUNT_LIMIT {
                return false;
            }
            k += 1;
        }
        match &self.stage {
            Stage::Auction { current_bid: Some(b), .. } => *b <= CASH_LIMIT,
            _ => true,
        }
    }
}

} // verus!
