use vstd::prelude::*;
use vstd::string::StringExecFns;
use std::sync::Arc;
use crate::ebr::board::{Coordinate, interior};
use crate::ebr::company::{Company, COMPANY_COUNT};
use crate::ebr::params::{
    Bond, Feature, FeatureType, TerrainAttributeParams, CompanyFixedDetailsParams, EBRHyperparams, PARAM_LIMIT,
    COUNT_LIMIT, same_params, small, small_revenue,
};
use crate::ebr::actions::ACTION_CUBE_INIT;
use crate::ebr::state::{
    EBRState, EBRStateView, Stage, StageView, CompanyDetails, CompanyDetailsView, CommonAttributes, Track,
    TrackType, BondDetails, EndGameReason,
};
use crate::ebr::spec::{state_wf, bounded, common_attributes, terrain_of_index, cash_ok, bonds_ok};

verus! {

/// The game, for a number of players.
pub struct EBR {
    pub player_count: u8,
}

pub open spec fn zero_revenue() -> Seq<i64> {
    seq![0i64, 0, 0, 0, 0, 0]
}

pub open spec fn terrain_params_are(p: TerrainAttributeParams, build_cost: u32, revenue: Seq<i64>) -> bool {
    p.build_cost == build_cost && p.revenue@ == revenue
}

/// The standard terrain rules, by `Terrain::index`: only forest earns, in
/// the first four dividend rounds.
pub open spec fn is_default_terrain_attributes(s: Seq<TerrainAttributeParams>) -> bool {
    &&& s.len() == 6
    &&& terrain_params_are(s[0], 0, zero_revenue())
    &&& terrain_params_are(s[1], 3, zero_revenue())
    &&& terrain_params_are(s[2], 4, seq![1i64, 1, 1, 1, 0, 0])
    &&& terrain_params_are(s[3], 6, zero_revenue())
    &&& terrain_params_are(s[4], 4, zero_revenue())
    &&& terrain_params_are(s[5], 5, zero_revenue())
}

pub open spec fn feature_is(
    f: (Coordinate, Feature),
    loc: Coordinate,
    ft: FeatureType,
    name: Seq<char>,
    revenue: Seq<i64>,
) -> bool {
    &&& f.0 == loc
    &&& f.1.feature_type == ft
    &&& (f.1.location_name matches Some(n) && n@ == name)
    &&& f.1.revenue@ == revenue
    &&& f.1.additional_cost == 0
}

/// The standard ports and towns.
pub open spec fn is_default_features(s: Seq<(Coordinate, Feature)>) -> bool {
    &&& s.len() == 7
    &&& feature_is(s[0], (2, 5), FeatureType::Port, "Burnie"@, seq![2i64, 2, 1, 1, 0, 0])
    &&& feature_is(s[1], (10, 9), FeatureType::Port, "Hobart"@, seq![5i64, 5, 4, 4, 3, 3])
    &&& feature_is(s[2], (9, 9), FeatureType::Town, "New Norfolk"@, seq![2i64, 2, 2, 2, 2, 2])
    &&& feature_is(s[3], (2, 6), FeatureType::Town, "Ulverstone"@, seq![2i64, 2, 1, 1, 1, 1])
    &&& feature_is(s[4], (7, 3), FeatureType::Port, "Devonport"@, seq![3i64, 3, 1, 1, 0, 0])
    &&& feature_is(s[5], (9, 4), FeatureType::Port, "Launceston"@, seq![3i64, 3, 1, 1, 0, 0])
    &&& feature_is(s[6], (3, 5), FeatureType::Town, "Queenstown"@, seq![2i64, 2, 2, 2, 2, 2])
}

/// The standard stretches of water.
pub open spec fn default_water_seq() -> Seq<(Coordinate, FeatureType)> {
    seq![
        ((8usize, 2usize), FeatureType::Water1),
        ((8, 3), FeatureType::Water1),
        ((8, 5), FeatureType::Water2),
        ((9, 6), FeatureType::Water1),
        ((3, 7), FeatureType::Water2),
        ((4, 7), FeatureType::Water1),
        ((6, 8), FeatureType::Water1),
        ((6, 9), FeatureType::Water1),
        ((10, 9), FeatureType::Water1),
        ((5, 11), FeatureType::Water2),
        ((9, 11), FeatureType::Water2),
        ((6, 11), FeatureType::Water1),
    ]
}

pub open spec fn default_bond_seq() -> Seq<Bond> {
    seq![
        Bond { face_value: 5, coupon: 1 },
        Bond { face_value: 5, coupon: 1 },
        Bond { face_value: 10, coupon: 3 },
        Bond { face_value: 10, coupon: 3 },
        Bond { face_value: 10, coupon: 4 },
        Bond { face_value: 15, coupon: 4 },
        Bond { face_value: 15, coupon: 5 },
    ]
}

/// Starting cash per player, by number of players.
pub open spec fn default_cash_seq() -> Seq<(u8, u32)> {
    seq![(2u8, 20u32), (3, 13), (4, 10), (5, 8)]
}

pub open spec fn company_params_are(
    d: CompanyFixedDetailsParams,
    starting: Option<Coordinate>,
    private: bool,
    stock: usize,
    track: usize,
    treasury: usize,
    interest: usize,
) -> bool {
    &&& d.starting == starting
    &&& d.private == private
    &&& d.stock_available == stock
    &&& d.track_available == track
    &&& d.initial_treasury == treasury
    &&& d.initial_interest == interest
}

/// The standard companies, by `Company::index`.
pub open spec fn is_default_company_fixed_details(s: Seq<CompanyFixedDetailsParams>) -> bool {
    &&& s.len() == 7
    &&& company_params_are(s[0], Some((3, 5)), false, 5, 10, 0, 0)
    &&& company_params_are(s[1], Some((9, 4)), false, 3, 10, 0, 0)
    &&& company_params_are(s[2], Some((9, 4)), false, 4, 10, 0, 0)
    &&& company_params_are(s[3], Some((2, 4)), true, 1, 0, 10, 2)
    &&& company_params_are(s[4], None, true, 1, 0, 0, 0)
    &&& company_params_are(s[5], None, true, 1, 0, 15, 3)
    &&& company_params_are(s[6], None, true, 1, 0, 20, 5)
}

/// The standard parameters of the game.
pub open spec fn is_default_hyperparams(h: EBRHyperparams) -> bool {
    &&& is_default_terrain_attributes(h.terrain_attributes@)
    &&& is_default_features(h.features@)
    &&& h.water_features@ == default_water_seq()
    &&& h.bonds@ == default_bond_seq()
    &&& h.initial_cash@ == default_cash_seq()
    &&& is_default_company_fixed_details(h.company_fixed_details@)
    &&& h.water_1_cost == 1
    &&& h.water_2_cost == 3
    &&& h.narrow_gauge_initial == 12
    &&& h.max_builds == 3
    &&& h.narrow_track_cost == 2
    &&& h.take_resource_cost == 3
    &&& h.take_dividend == 1
    &&& h.take_town_deliver_dividend == 1
    &&& h.take_port_deliver_dividend == 1
    &&& h.initial_resource_cubes@ == seq![(2usize, 4usize), (2, 3), (3, 4), (3, 4)]
}

fn feature(loc: Coordinate, feature_type: FeatureType, name: &str, revenue: [i64; 6]) -> (r: (Coordinate, Feature))
    ensures
        feature_is(r, loc, feature_type, name@, revenue@),
{
    (loc, Feature { feature_type, location_name: Some(String::from_str(name)), revenue, additional_cost: 0 })
}

fn company_params(
    starting: Option<Coordinate>,
    private: bool,
    stock_available: usize,
    track_available: usize,
    initial_treasury: usize,
    initial_interest: usize,
) -> (r: CompanyFixedDetailsParams)
    ensures
        company_params_are(r, starting, private, stock_available, track_available, initial_treasury, initial_interest),
{
    CompanyFixedDetailsParams {
        starting,
        private,
        stock_available,
        track_available,
        initial_treasury,
        initial_interest,
    }
}

impl EBRHyperparams {
    pub fn default_terrain_attributes() -> (r: Vec<TerrainAttributeParams>)
        ensures
            is_default_terrain_attributes(r@),
    {
        vec![
            TerrainAttributeParams { build_cost: 0, revenue: [0, 0, 0, 0, 0, 0] },
            TerrainAttributeParams { build_cost: 3, revenue: [0, 0, 0, 0, 0, 0] },
            TerrainAttributeParams { build_cost: 4, revenue: [1, 1, 1, 1, 0, 0] },
            TerrainAttributeParams { build_cost: 6, revenue: [0, 0, 0, 0, 0, 0] },
            TerrainAttributeParams { build_cost: 4, revenue: [0, 0, 0, 0, 0, 0] },
            TerrainAttributeParams { build_cost: 5, revenue: [0, 0, 0, 0, 0, 0] },
        ]
    }

    pub fn default_initial_cash() -> (r: Vec<(u8, u32)>)
        ensures
            r@ == default_cash_seq(),
    {
        vec![(2, 20), (3, 13), (4, 10), (5, 8)]
    }

    pub fn default_bonds() -> (r: Vec<Bond>)
        ensures
            r@ == default_bond_seq(),
    {
        vec![
            Bond { face_value: 5, coupon: 1 },
            Bond { face_value: 5, coupon: 1 },
            Bond { face_value: 10, coupon: 3 },
            Bond { face_value: 10, coupon: 3 },
            Bond { face_value: 10, coupon: 4 },
            Bond { face_value: 15, coupon: 4 },
            Bond { face_value: 15, coupon: 5 },
        ]
    }

    pub fn default_company_fixed_details() -> (r: Vec<CompanyFixedDetailsParams>)
        ensures
            is_default_company_fixed_details(r@),
    {
        vec![
            company_params(Some((3, 5)), false, 5, 10, 0, 0),
            company_params(Some((9, 4)), false, 3, 10, 0, 0),
            company_params(Some((9, 4)), false, 4, 10, 0, 0),
            company_params(Some((2, 4)), true, 1, 0, 10, 2),
            company_params(None, true, 1, 0, 0, 0),
            company_params(None, true, 1, 0, 15, 3),
            company_params(None, true, 1, 0, 20, 5),
        ]
    }

    /// The named places; where one hex is named twice, the later name wins.
    pub fn default_features() -> (r: Vec<(Coordinate, Feature)>)
        ensures
            is_default_features(r@),
    {
        vec![
            feature((2, 5), FeatureType::Port, "Burnie", [2, 2, 1, 1, 0, 0]),
            feature((10, 9), FeatureType::Port, "Hobart", [5, 5, 4, 4, 3, 3]),
            feature((9, 9), FeatureType::Town, "New Norfolk", [2, 2, 2, 2, 2, 2]),
            feature((2, 6), FeatureType::Town, "Ulverstone", [2, 2, 1, 1, 1, 1]),
            feature((7, 3), FeatureType::Port, "Devonport", [3, 3, 1, 1, 0, 0]),
            feature((9, 4), FeatureType::Port, "Launceston", [3, 3, 1, 1, 0, 0]),
            feature((3, 5), FeatureType::Town, "Queenstown", [2, 2, 2, 2, 2, 2]),
        ]
    }

    pub fn default_water() -> (r: Vec<(Coordinate, FeatureType)>)
        ensures
            r@ == default_water_seq(),
    {
        vec![
            ((8, 2), FeatureType::Water1),
            ((8, 3), FeatureType::Water1),
            ((8, 5), FeatureType::Water2),
            ((9, 6), FeatureType::Water1),
            ((3, 7), FeatureType::Water2),
            ((4, 7), FeatureType::Water1),
            ((6, 8), FeatureType::Water1),
            ((6, 9), FeatureType::Water1),
            ((10, 9), FeatureType::Water1),
            ((5, 11), FeatureType::Water2),
            ((9, 11), FeatureType::Water2),
            ((6, 11), FeatureType::Water1),
        ]
    }
}

impl Default for EBRHyperparams {
    fn default() -> (r: Self)
        ensures
            is_default_hyperparams(r),
            r.wf(),
    {
        let r = EBRHyperparams {
            terrain_attributes: EBRHyperparams::default_terrain_attributes(),
            features: EBRHyperparams::default_features(),
            water_features: EBRHyperparams::default_water(),
            bonds: EBRHyperparams::default_bonds(),
            initial_cash: EBRHyperparams::default_initial_cash(),
            company_fixed_details: EBRHyperparams::default_company_fixed_details(),
            water_1_cost: 1,
            water_2_cost: 3,
            narrow_gauge_initial: 12,
            max_builds: 3,
            narrow_track_cost: 2,
            take_resource_cost: 3,
            take_dividend: 1,
            take_town_deliver_dividend: 1,
            take_port_deliver_dividend: 1,
            initial_resource_cubes: vec![(2, 4), (2, 3), (3, 4), (3, 4)],
        };
        proof {
            let f = r.features@;
            assert forall|i: int| 0 <= i < f.len() implies {
                &&& #[trigger] f[i].1.additional_cost <= PARAM_LIMIT
                &&& small_revenue(f[i].1.revenue)
            } by {
                assert(f[i].1.revenue@.len() == 6);
            }
            let t = r.terrain_attributes@;
            assert forall|i: int| 0 <= i < 6 implies {
                &&& #[trigger] t[i].build_cost <= PARAM_LIMIT
                &&& small_revenue(t[i].revenue)
            } by {
                assert(t[i].revenue@.len() == 6);
            }
            let d = r.company_fixed_details@;
            assert forall|i: int| 0 <= i < COMPANY_COUNT implies {
                let c = #[trigger] d[i];
                &&& c.stock_available <= PARAM_LIMIT
                &&& c.track_available <= PARAM_LIMIT
                &&& c.initial_treasury <= PARAM_LIMIT
                &&& c.initial_interest <= PARAM_LIMIT
                &&& (c.starting matches Some(h) ==> interior(h))
            } by {}
        }
        r
    }
}

/// A company at the start: no shares sold, its treasury as cash, one
/// deferred bond worth its treasury, and a private not yet available.
pub open spec fn initial_details(f: CompanyFixedDetailsParams) -> CompanyDetailsView {
    CompanyDetailsView {
        shares_held: 0,
        shares_remaining: f.stock_available,
        merged: if f.private { Some(false) } else { None },
        cash: f.initial_treasury as i64,
        available: if f.private { Some(false) } else { None },
        hq: f.starting,
        track_remaining: f.track_available,
        bonds: seq![BondDetails { bond: Bond { face_value: f.initial_treasury, coupon: f.initial_interest }, deferred: true }],
        owned_privates: Seq::empty(),
    }
}

/// The track on the board at the start.
pub open spec fn initial_track() -> Seq<Track> {
    seq![
        Track { location: (9, 4), track_type: TrackType::CompanyOwned(Company::LW) },
        Track { location: (9, 4), track_type: TrackType::CompanyOwned(Company::TMLC) },
        Track { location: (3, 5), track_type: TrackType::CompanyOwned(Company::EBRC) },
        Track { location: (2, 4), track_type: TrackType::Narrow },
    ]
}

/// The cash each of `pc` players starts with: 24 shared evenly, rounded down.
pub open spec fn starting_cash(pc: u8) -> i64 {
    (24int / (pc as int)) as i64
}

/// The position at the start of a game of `pc` players under parameters `h`:
/// the opening auction of the LW, with player 0 to bid, and every player
/// holding `starting_cash(pc)`.
pub open spec fn spec_init_game(pc: u8, h: EBRHyperparams) -> EBRStateView {
    EBRStateView {
        terminal: false,
        end_game_reason: EndGameReason::InProgress,
        next_player: 0,
        active_player: 0,
        player_count: pc,
        track: initial_track(),
        stage: StageView::Auction {
            initial_auction: true,
            current_bid: None,
            lot: Company::LW,
            winning_bidder: None,
            passed: Seq::empty(),
        },
        holdings: Seq::new(pc as nat, |i: int| Seq::<Company>::empty()),
        player_cash: Seq::new(pc as nat, |i: int| starting_cash(pc)),
        action_cubes: ACTION_CUBE_INIT@,
        revenue: Seq::new(7, |i: int| 0i64),
        dividends_paid: 0,
        company_details: Seq::new(7, |i: int| initial_details(h.company_fixed_details@[i])),
        unissued_bonds: h.bonds@,
        resource_cubes: h.initial_resource_cubes@,
        narrow_gauge_remaining: h.narrow_gauge_initial,
        terrain_attributes: Seq::new(6, |i: int| common_attributes(terrain_of_index(i), h.terrain_attributes@[i])),
        company_fixed_details: h.company_fixed_details@,
        hyperparams: h,
        initial_auction_winners: Seq::new(7, |i: int| None),
    }
}

impl EBR {
    /// The position at the start of a game under `hyperparams`.
    pub fn init_game(&self, hyperparams: &EBRHyperparams) -> (r: EBRState)
        requires
            hyperparams.wf(),
        ensures
            same_params(r@.hyperparams, *hyperparams),
            r@ == spec_init_game(self.player_count, r@.hyperparams),
            bounded(r@),
            self.player_count >= 1 ==> state_wf(r@),
    {
        let h = hyperparams.clone();
        let pc = self.player_count;
        let mut terrain_attributes: Vec<CommonAttributes> = Vec::new();
        let mut i: usize = 0;
        while i < 6
            invariant
                i <= 6,
                same_params(h, *hyperparams),
                hyperparams.wf(),
                terrain_attributes.len() == i,
                forall|j: int| 0 <= j < i ==> #[trigger] terrain_attributes@[j] == common_attributes(
                    terrain_of_index(j),
                    h.terrain_attributes@[j],
                ),
            decreases 6 - i,
        {
            let p = h.terrain_attributes[i];
            let (buildable, multiple_allowed) = if i == 0 {
                (false, false)
            } else if i == 1 {
                (true, true)
            } else if i == 2 {
                (true, false)
            } else if i == 3 {
                (true, false)
            } else {
                (true, true)
            };
            terrain_attributes.push(CommonAttributes { build_cost: p.build_cost, buildable, multiple_allowed, revenue: p.revenue });
            i += 1;
        }
        let mut company_details: Vec<CompanyDetails> = Vec::new();
        let mut k: usize = 0;
        while k < COMPANY_COUNT
            invariant
                k <= COMPANY_COUNT,
                same_params(h, *hyperparams),
                hyperparams.wf(),
                company_details.len() == k,
                forall|j: int| 0 <= j < k ==> #[trigger] company_details@[j]@ == initial_details(h.company_fixed_details@[j]),
            decreases COMPANY_COUNT - k,
        {
            let f = h.company_fixed_details[k];
            assert(f.initial_treasury <= PARAM_LIMIT);
            let bonds = vec![BondDetails { bond: Bond { face_value: f.initial_treasury, coupon: f.initial_interest }, deferred: true }];
            assert(bonds@ =~= seq![BondDetails { bond: Bond { face_value: f.initial_treasury, coupon: f.initial_interest }, deferred: true }]);
            let owned_privates: Vec<Company> = Vec::new();
            assert(owned_privates@ =~= Seq::<Company>::empty());
            let d = CompanyDetails {
                shares_held: 0,
                shares_remaining: f.stock_available,
                merged: if f.private { Some(false) } else { None },
                cash: f.initial_treasury as i64,
                available: if f.private { Some(false) } else { None },
                hq: f.starting,
                track_remaining: f.track_available,
                bonds,
                owned_privates,
            };
            assert(d@ == initial_details(h.company_fixed_details@[k as int]));
            company_details.push(d);
            k += 1;
        }
        let cash: i64 = if pc > 0 { 24 / (pc as i64) } else { 0 };
        let mut holdings: Vec<Vec<Company>> = Vec::new();
        let mut player_cash: Vec<i64> = Vec::new();
        let mut p: u8 = 0;
        while p < pc
            invariant
                p <= pc,
                holdings.len() == p,
                player_cash.len() == p,
                pc > 0 ==> cash == starting_cash(pc),
                forall|j: int| 0 <= j < p ==> (#[trigger] holdings@[j])@ == Seq::<Company>::empty(),
                forall|j: int| 0 <= j < p ==> #[trigger] player_cash@[j] == cash,
            decreases pc - p,
        {
            holdings.push(Vec::new());
            player_cash.push(cash);
            p += 1;
        }
        let passed: Vec<u8> = Vec::new();
        let r = EBRState {
            terminal: false,
            end_game_reason: EndGameReason::InProgress,
            next_player: 0,
            active_player: 0,
            player_count: pc,
            track: vec![
                Track { location: (9, 4), track_type: TrackType::CompanyOwned(Company::LW) },
                Track { location: (9, 4), track_type: TrackType::CompanyOwned(Company::TMLC) },
                Track { location: (3, 5), track_type: TrackType::CompanyOwned(Company::EBRC) },
                Track { location: (2, 4), track_type: TrackType::Narrow },
            ],
            stage: Stage::Auction {
                initial_auction: true,
                current_bid: None,
                lot: Company::LW,
                winning_bidder: None,
                passed,
            },
            holdings,
            player_cash,
            action_cubes: ACTION_CUBE_INIT,
            revenue: vec![0, 0, 0, 0, 0, 0, 0],
            dividends_paid: 0,
            company_details,
            unissued_bonds: copy_bonds(&h.bonds),
            resource_cubes: copy_hexes(&h.initial_resource_cubes),
            narrow_gauge_remaining: h.narrow_gauge_initial,
            terrain_attributes,
            company_fixed_details: copy_fixed(&h.company_fixed_details),
            hyperparams: Arc::new(h),
            initial_auction_winners: vec![None, None, None, None, None, None, None],
        };
        proof {
            let v = r@;
            let w = spec_init_game(pc, v.hyperparams);
            assert(v.holdings =~= w.holdings);
            assert(v.player_cash =~= w.player_cash);
            assert(v.revenue =~= w.revenue);
            assert(v.company_details =~= w.company_details);
            assert(v.terrain_attributes =~= w.terrain_attributes);
            assert(v.initial_auction_winners =~= w.initial_auction_winners);
            assert(v.stage == w.stage);
            assert(v.track == w.track);
            assert(v == w);
            assert forall|j: int| 0 <= j < v.unissued_bonds.len() implies #[trigger] v.unissued_bonds[j].face_value
                <= PARAM_LIMIT && v.unissued_bonds[j].coupon <= PARAM_LIMIT by {
                assert(hyperparams.bonds@[j] == v.unissued_bonds[j]);
            }
            assert forall|j: int| 0 <= j < v.company_details.len() implies {
                let d = #[trigger] v.company_details[j];
                &&& cash_ok(d.cash)
                &&& bonds_ok(d.bonds)
                &&& d.owned_privates.len() <= COUNT_LIMIT
                &&& d.shares_held <= COUNT_LIMIT
                &&& d.shares_remaining <= COUNT_LIMIT
                &&& d.track_remaining <= COUNT_LIMIT
            } by {
                assert(hyperparams.company_fixed_details@[j] == v.company_fixed_details[j]);
            }
            assert(bounded(v));
            if pc >= 1 {
                assert forall|j: int| 0 <= j < v.track.len() implies interior(#[trigger] v.track[j].location) by {}
                assert forall|j: int| 0 <= j < COMPANY_COUNT implies (#[trigger] v.company_details[j].hq matches Some(x)
                    ==> interior(x)) by {
                    assert(hyperparams.company_fixed_details@[j] == v.company_fixed_details[j]);
                }
                assert(v.hyperparams.wf());
                assert(state_wf(v));
            }
        }
        r
    }
}

fn copy_bonds(v: &Vec<Bond>) -> (r: Vec<Bond>)
    ensures
        r@ == v@,
{
    crate::ebr::state::copy_vec(v)
}

fn copy_hexes(v: &Vec<Coordinate>) -> (r: Vec<Coordinate>)
    ensures
        r@ == v@,
{
    crate::ebr::state::copy_vec(v)
}

fn copy_fixed(v: &Vec<CompanyFixedDetailsParams>) -> (r: Vec<CompanyFixedDetailsParams>)
    ensures
        r@ == v@,
{
    crate::ebr::state::copy_vec(v)
}

} // verus!
