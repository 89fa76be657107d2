use vstd::prelude::*;
use crate::ebr::board::{Coordinate, Terrain, interior, on_board, adjacent, spec_terrain};
use crate::ebr::company::{Company, COMPANY_COUNT};
use crate::ebr::params::{
    EBRHyperparams, CompanyFixedDetailsParams, TerrainAttributeParams, PARAM_LIMIT, COUNT_LIMIT,
    spec_additional_cost, spec_feature_revenue,
};
use crate::ebr::state::{
    EBRStateView, CompanyDetailsView, CommonAttributes, StageView, Track, TrackType, BondDetails,
};

verus! {

/// Overflow guard: the amount of cash, of either sign, within which the
/// rules' arithmetic is checked. It keeps every sum of cash within `i64`, and
/// every bid up to a player's cash within `usize` on 32-bit targets too.
pub const CASH_LIMIT: i64 = 0x7fff_ffff;

pub open spec fn details(v: EBRStateView, c: Company) -> CompanyDetailsView {
    v.company_details[c.spec_index()]
}

pub open spec fn fixed(v: EBRStateView, c: Company) -> CompanyFixedDetailsParams {
    v.company_fixed_details[c.spec_index()]
}

pub open spec fn is_private(v: EBRStateView, c: Company) -> bool {
    fixed(v, c).private
}

pub open spec fn attrs(v: EBRStateView, t: Terrain) -> CommonAttributes {
    v.terrain_attributes[t.spec_index()]
}

/// Which terrains can hold track, and which can hold several pieces.
pub open spec fn terrain_flags(t: Terrain) -> (bool, bool) {
    match t {
        Terrain::Nothing => (false, false),
        Terrain::Plain => (true, true),
        Terrain::Forest => (true, false),
        Terrain::Mountain => (true, false),
        Terrain::Town => (true, true),
        Terrain::Port => (true, true),
    }
}

pub open spec fn terrain_of_index(i: int) -> Terrain {
    if i == 0 {
        Terrain::Nothing
    } else if i == 1 {
        Terrain::Plain
    } else if i == 2 {
        Terrain::Forest
    } else if i == 3 {
        Terrain::Mountain
    } else if i == 4 {
        Terrain::Town
    } else {
        Terrain::Port
    }
}

/// The rules of a terrain, from its parameters.
pub open spec fn common_attributes(t: Terrain, p: TerrainAttributeParams) -> CommonAttributes {
    CommonAttributes {
        build_cost: p.build_cost,
        buildable: terrain_flags(t).0,
        multiple_allowed: terrain_flags(t).1,
        revenue: p.revenue,
    }
}

pub open spec fn stage_wf(v: EBRStateView) -> bool {
    match v.stage {
        StageView::Auction { winning_bidder, passed, current_bid, .. } => {
            &&& (winning_bidder matches Some(w) ==> w < v.player_count)
            &&& (forall|i: int| 0 <= i < passed.len() ==> #[trigger] passed[i] < v.player_count)
            &&& passed.no_duplicates()
            &&& passed.len() < v.player_count
            &&& (current_bid matches Some(b) ==> 0 <= b)
        },
        _ => true,
    }
}

/// The structural invariant of a game position: every list has its
/// length, every index names a player, every piece of track and every
/// headquarters stands on an interior hex, and the terrain rules are the
/// ones the parameters give.
pub open spec fn state_wf(v: EBRStateView) -> bool {
    &&& v.player_count >= 1
    &&& v.holdings.len() == v.player_count
    &&& v.player_cash.len() == v.player_count
    &&& v.next_player < v.player_count
    &&& v.active_player < v.player_count
    &&& v.company_details.len() == COMPANY_COUNT
    &&& v.company_fixed_details.len() == COMPANY_COUNT
    &&& v.revenue.len() == COMPANY_COUNT
    &&& v.initial_auction_winners.len() == COMPANY_COUNT
    &&& v.terrain_attributes.len() == 6
    &&& v.hyperparams.wf()
    &&& v.company_fixed_details == v.hyperparams.company_fixed_details@
    &&& forall|i: int|
        0 <= i < 6 ==> #[trigger] v.terrain_attributes[i] == common_attributes(
            terrain_of_index(i),
            v.hyperparams.terrain_attributes@[i],
        )
    &&& forall|i: int| 0 <= i < v.track.len() ==> interior(#[trigger] v.track[i].location)
    &&& forall|i: int|
        0 <= i < COMPANY_COUNT ==> (#[trigger] v.company_details[i].hq matches Some(h) ==> interior(h))
    &&& forall|i: int|
        0 <= i < COMPANY_COUNT ==> (#[trigger] v.company_fixed_details[i].private
            ==> v.company_details[i].available is Some)
    &&& v.dividends_paid <= 6
    &&& (v.dividends_paid < 6 || v.terminal)
    &&& stage_wf(v)
}

pub open spec fn cash_ok(c: i64) -> bool {
    -CASH_LIMIT <= c <= CASH_LIMIT
}

pub open spec fn bonds_ok(bs: Seq<BondDetails>) -> bool {
    &&& bs.len() <= COUNT_LIMIT
    &&& forall|i: int|
        0 <= i < bs.len() ==> #[trigger] bs[i].bond.coupon <= PARAM_LIMIT && bs[i].bond.face_value
            <= PARAM_LIMIT
}

/// Every amount of cash and every list length is small enough that the
/// rules' arithmetic cannot leave the range of the machine integers.
pub open spec fn bounded(v: EBRStateView) -> bool {
    &&& v.track.len() <= COUNT_LIMIT
    &&& v.resource_cubes.len() <= COUNT_LIMIT
    &&& v.unissued_bonds.len() <= COUNT_LIMIT
    &&& forall|i: int|
        0 <= i < v.unissued_bonds.len() ==> #[trigger] v.unissued_bonds[i].face_value <= PARAM_LIMIT
            && v.unissued_bonds[i].coupon <= PARAM_LIMIT
    &&& v.narrow_gauge_remaining <= COUNT_LIMIT
    &&& forall|p: int| 0 <= p < v.holdings.len() ==> #[trigger] v.holdings[p].len() <= COUNT_LIMIT
    &&& forall|p: int| 0 <= p < v.player_cash.len() ==> cash_ok(#[trigger] v.player_cash[p])
    &&& forall|i: int|
        0 <= i < v.company_details.len() ==> {
            let d = #[trigger] v.company_details[i];
            &&& cash_ok(d.cash)
            &&& bonds_ok(d.bonds)
            &&& d.owned_privates.len() <= COUNT_LIMIT
            &&& d.shares_held <= COUNT_LIMIT
            &&& d.shares_remaining <= COUNT_LIMIT
            &&& d.track_remaining <= COUNT_LIMIT
        }
    &&& (v.stage matches StageView::Auction { current_bid: Some(b), .. } ==> b <= CASH_LIMIT)
}

// ---------------------------------------------------------------------------
// Track on the board
// ---------------------------------------------------------------------------

pub open spec fn track_of_type_at(track: Seq<Track>, loc: Coordinate, tt: TrackType) -> bool {
    exists|i: int| 0 <= i < track.len() && #[trigger] track[i].location == loc && track[i].track_type == tt
}

pub open spec fn any_track_at(track: Seq<Track>, loc: Coordinate) -> bool {
    exists|i: int| 0 <= i < track.len() && #[trigger] track[i].location == loc
}

/// Number of pieces of track at `loc`.
pub open spec fn track_count_at(track: Seq<Track>, loc: Coordinate) -> nat
    decreases track.len(),
{
    if track.len() == 0 {
        0
    } else {
        track_count_at(track.drop_last(), loc) + if track.last().location == loc { 1nat } else { 0nat }
    }
}

/// Whether `c` owns track on a hex of terrain `t`.
pub open spec fn owns_terrain(v: EBRStateView, c: Company, t: Terrain) -> bool {
    exists|i: int|
        0 <= i < v.track.len() && #[trigger] v.track[i].track_type == TrackType::CompanyOwned(c)
            && spec_terrain(v.track[i].location) == t
}

// ---------------------------------------------------------------------------
// Narrow gauge networks
// ---------------------------------------------------------------------------

/// `p` is a walk from `p[0]` along adjacent hexes each of which, after the
/// first, holds track of type `tt`.
pub open spec fn track_walk(track: Seq<Track>, tt: TrackType, p: Seq<Coordinate>) -> bool {
    &&& p.len() >= 1
    &&& forall|i: int|
        1 <= i < p.len() ==> adjacent(p[i - 1], #[trigger] p[i]) && track_of_type_at(track, p[i], tt)
}

pub open spec fn track_reachable(track: Seq<Track>, tt: TrackType, from: Coordinate, to: Coordinate) -> bool {
    exists|p: Seq<Coordinate>| #[trigger] track_walk(track, tt, p) && p[0] == from && p.last() == to
}

/// The hexes joined to the headquarters of `c` by narrow gauge track
/// (the headquarters included); empty without a headquarters.
pub open spec fn reachable_narrow(v: EBRStateView, c: Company) -> Set<Coordinate> {
    match details(v, c).hq {
        None => Set::empty(),
        Some(h) => Set::new(|x: Coordinate| track_reachable(v.track, TrackType::Narrow, h, x)),
    }
}

/// Whether the narrow gauge network of `private_co` touches track of `public_co`.
pub open spec fn spec_connected_to(v: EBRStateView, private_co: Company, public_co: Company) -> bool {
    exists|x: Coordinate, n: Coordinate|
        #[trigger] reachable_narrow(v, private_co).contains(x) && #[trigger] adjacent(x, n)
            && track_of_type_at(v.track, n, TrackType::CompanyOwned(public_co))
}

// ---------------------------------------------------------------------------
// Building
// ---------------------------------------------------------------------------

/// Cost for a public company of building at `t`: the terrain's cost for
/// every piece of track that would be there, plus water or place costs.
pub open spec fn spec_owned_cost_with(v: EBRStateView, t: Coordinate, others: int) -> int {
    (1 + others) * attrs(v, spec_terrain(t)).build_cost + spec_additional_cost(v.hyperparams, t)
}

pub open spec fn spec_owned_cost(v: EBRStateView, t: Coordinate) -> int {
    spec_owned_cost_with(v, t, track_count_at(v.track, t) as int)
}

/// The hexes where public company `c` may build: next to its own track, on
/// buildable terrain with room for another piece, not already holding its
/// track, and affordable.
pub open spec fn owned_candidate(v: EBRStateView, c: Company, t: Coordinate) -> bool {
    &&& on_board(t)
    &&& exists|i: int|
        0 <= i < v.track.len() && #[trigger] v.track[i].track_type == TrackType::CompanyOwned(c)
            && adjacent(v.track[i].location, t)
    &&& attrs(v, spec_terrain(t)).buildable
    &&& (!any_track_at(v.track, t) || attrs(v, spec_terrain(t)).multiple_allowed)
    &&& !track_of_type_at(v.track, t, TrackType::CompanyOwned(c))
    &&& details(v, c).cash >= spec_owned_cost(v, t)
}

/// The hexes where private company `c` may lay narrow gauge track: next to
/// its network, buildable, and either affordable or already holding track.
pub open spec fn narrow_candidate(v: EBRStateView, c: Company, t: Coordinate) -> bool {
    &&& on_board(t)
    &&& exists|x: Coordinate| #[trigger] reachable_narrow(v, c).contains(x) && adjacent(x, t)
    &&& !(v.hyperparams.narrow_track_cost > details(v, c).cash && !any_track_at(v.track, t))
    &&& attrs(v, spec_terrain(t)).buildable
}

pub open spec fn spec_can_build(v: EBRStateView, c: Company, player: int) -> bool {
    &&& v.holdings[player].contains(c)
    &&& !(details(v, c).merged == Some(true))
    &&& if !is_private(v, c) {
        fixed(v, c).track_available != 0 && exists|t: Coordinate| owned_candidate(v, c, t)
    } else {
        v.narrow_gauge_remaining != 0 && exists|t: Coordinate| narrow_candidate(v, c, t)
    }
}

// ---------------------------------------------------------------------------
// Money
// ---------------------------------------------------------------------------

/// Revenue in the current dividend round from the track among `ts` that `c` owns.
pub open spec fn track_revenue(v: EBRStateView, ts: Seq<Track>, c: Company) -> int
    decreases ts.len(),
{
    if ts.len() == 0 {
        0
    } else {
        track_revenue(v, ts.drop_last(), c) + if ts.last().track_type == TrackType::CompanyOwned(c) {
            attrs(v, spec_terrain(ts.last().location)).revenue@[v.dividends_paid as int] as int
                + spec_feature_revenue(v.hyperparams, ts.last().location, v.dividends_paid as int)
        } else {
            0
        }
    }
}

/// Interest due on the bonds that are no longer deferred.
pub open spec fn bond_interest(bs: Seq<BondDetails>) -> int
    decreases bs.len(),
{
    if bs.len() == 0 {
        0
    } else {
        bond_interest(bs.drop_last()) + if bs.last().deferred { 0 } else { bs.last().bond.coupon as int }
    }
}

pub open spec fn spec_net_revenue(v: EBRStateView, c: Company) -> int {
    track_revenue(v, v.track, c) - bond_interest(details(v, c).bonds)
}

/// Ceiling of `n / d` for positive `d`.
pub open spec fn ceil_div(n: int, d: int) -> int {
    let s = n + d - 1;
    if s >= 0 { s / d } else { -((-s) / d) }
}

pub open spec fn spec_min_bid(v: EBRStateView, c: Company) -> int {
    let q = ceil_div(spec_net_revenue(v, c), details(v, c).shares_held + 1);
    if q > 1 { q } else { 1 }
}

pub open spec fn spec_can_auction(v: EBRStateView, c: Company, cash: int) -> bool {
    &&& if is_private(v, c) {
        details(v, c).available == Some(true)
    } else {
        details(v, c).shares_remaining > 0
    }
    &&& cash >= spec_min_bid(v, c)
}

pub open spec fn spec_can_auction_any(v: EBRStateView) -> bool {
    let cash = v.player_cash[v.next_player as int] as int;
    cash >= 1 && exists|c: Company| spec_can_auction(v, c, cash)
}

pub open spec fn spec_can_issue(v: EBRStateView, c: Company) -> bool {
    !is_private(v, c) && v.holdings[v.next_player as int].contains(c)
}

pub open spec fn spec_can_issue_any(v: EBRStateView) -> bool {
    v.unissued_bonds.len() > 0 && exists|c: Company| spec_can_issue(v, c)
}

// ---------------------------------------------------------------------------
// Merging
// ---------------------------------------------------------------------------

/// `(p, q)` is a merger open to `player`: `p` an unmerged private, `q` a
/// public company with shares left (or the EBRC), one of them held by the
/// player, and the narrow gauge network of `p` touching track of `q`.
pub open spec fn merge_option(v: EBRStateView, player: int, p: Company, q: Company) -> bool {
    &&& is_private(v, p)
    &&& !(details(v, p).merged == Some(true))
    &&& !is_private(v, q)
    &&& (v.holdings[player].contains(p) || v.holdings[player].contains(q))
    &&& (details(v, q).shares_remaining > 0 || q == Company::EBRC)
    &&& spec_connected_to(v, p, q)
}

/// Position of a pair of companies in lexicographic order.
pub open spec fn pair_key(a: (Company, Company)) -> int {
    a.0.spec_index() * 7 + a.1.spec_index()
}

/// Lexicographic order on pairs of companies.
pub open spec fn pair_lt(a: (Company, Company), b: (Company, Company)) -> bool {
    pair_key(a) < pair_key(b)
}

// ---------------------------------------------------------------------------
// Resources
// ---------------------------------------------------------------------------

/// Whether `t` lies in the narrow gauge network of one of the first `j` of `ps`.
pub open spec fn in_networks(v: EBRStateView, ps: Seq<Company>, j: int, t: Coordinate) -> bool {
    exists|k: int| 0 <= k < j && #[trigger] reachable_narrow(v, ps[k]).contains(t)
}

/// The hexes from which `c` can take resource cubes: for a private (minor)
/// company, those its narrow gauge network can reach; for a public (major)
/// company, the hexes of its own track and the narrow gauge networks of the
/// privates it owns.
pub open spec fn accessible_spaces(v: EBRStateView, c: Company) -> Set<Coordinate> {
    if is_private(v, c) {
        Set::new(|t: Coordinate| narrow_candidate(v, c, t))
    } else {
        Set::new(|t: Coordinate| track_of_type_at(v.track, t, TrackType::CompanyOwned(c))).union(
            Set::new(
                |t: Coordinate|
                    exists|p: Company|
                        #[trigger] details(v, c).owned_privates.contains(p) && reachable_narrow(
                            v,
                            p,
                        ).contains(t),
            ),
        )
    }
}

pub open spec fn spec_accessible_resources(v: EBRStateView, c: Company) -> Seq<Coordinate> {
    v.resource_cubes.filter(|r: Coordinate| accessible_spaces(v, c).contains(r))
}

pub open spec fn spec_can_take(v: EBRStateView, c: Company) -> bool {
    details(v, c).cash > v.hyperparams.take_resource_cost && spec_accessible_resources(v, c).len() > 0
}

} // verus!
