use vstd::prelude::*;
use crate::ebr::board::{Coordinate, interior, same_coord, WIDTH, HEIGHT};
use crate::ebr::company::{Company, COMPANY_COUNT};

verus! {

/// Overflow guard: the bound that the checks below put on every tunable
/// number, so that the rules' arithmetic stays far from the limits of the
/// machine integers.
pub const PARAM_LIMIT: usize = 4096;

/// Overflow guard: the bound on the length of every list that the game state
/// holds, within which the rules' counting is checked.
pub const COUNT_LIMIT: usize = 4096;

#[derive(Debug, Clone, Copy, PartialEq, Eq, Hash, Structural)]
pub enum FeatureType {
    Port,
    Town,
    Water1,
    Water2,
}

/// A bond that a public company may issue.
#[derive(Debug, Clone, Copy, PartialEq, Eq, Hash, Structural)]
pub struct Bond {
    pub face_value: usize,
    pub coupon: usize,
}

/// A stretch of water, as the parameters list it.
#[derive(Debug, Clone, Copy)]
pub struct WaterFeatureParams {
    pub xy: (u8, u8),
    pub feature_type: FeatureType,
}

/// A named place, or a stretch of water, on the board.
#[derive(Debug)]
pub struct Feature {
    pub feature_type: FeatureType,
    pub location_name: Option<String>,
    pub revenue: [i64; 6],
    pub additional_cost: usize,
}

#[derive(Debug, Clone, Copy)]
pub struct TerrainAttributeParams {
    pub build_cost: u32,
    pub revenue: [i64; 6],
}

#[derive(Debug, Clone, Copy)]
pub struct CompanyFixedDetailsParams {
    pub starting: Option<Coordinate>,
    pub private: bool,
    pub stock_available: usize,
    pub track_available: usize,
    pub initial_treasury: usize,
    pub initial_interest: usize,
}

/// The tunable rules of the game.
///
/// `terrain_attributes` is indexed by `Terrain::index` and
/// `company_fixed_details` by `Company::index`; `features`,
/// `water_features` and `initial_cash` are lists of keyed entries in which
/// the first entry for a key counts.
#[derive(Debug)]
pub struct EBRHyperparams {
    pub terrain_attributes: Vec<TerrainAttributeParams>,
    pub features: Vec<(Coordinate, Feature)>,
    pub water_features: Vec<(Coordinate, FeatureType)>,
    pub bonds: Vec<Bond>,
    pub initial_cash: Vec<(u8, u32)>,
    pub company_fixed_details: Vec<CompanyFixedDetailsParams>,
    pub water_1_cost: usize,
    pub water_2_cost: usize,
    pub narrow_gauge_initial: usize,
    pub max_builds: usize,
    pub narrow_track_cost: usize,
    pub take_resource_cost: u32,
    pub take_dividend: u32,
    pub take_town_deliver_dividend: u32,
    pub take_port_deliver_dividend: u32,
    pub initial_resource_cubes: Vec<Coordinate>,
}

impl Clone for Feature {
    fn clone(&self) -> (r: Self)
        ensures
            r == *self,
    {
        Feature {
            feature_type: self.feature_type,
            location_name: match &self.location_name {
                Some(n) => Some(n.clone()),
                None => None,
            },
            revenue: self.revenue,
            additional_cost: self.additional_cost,
        }
    }
}

fn copy_list<T: Copy>(v: &Vec<T>) -> (r: Vec<T>)
    ensures
        r@ == v@,
{
    let mut r: Vec<T> = Vec::new();
    let mut i: usize = 0;
    while i < v.len()
        invariant
            i <= v.len(),
            r@ == v@.take(i as int),
        decreases v.len() - i,
    {
        r.push(v[i]);
        i += 1;
        assert(r@ =~= v@.take(i as int));
    }
    assert(v@.take(v.len() as int) =~= v@);
    r
}

fn copy_features(v: &Vec<(Coordinate, Feature)>) -> (r: Vec<(Coordinate, Feature)>)
    ensures
        r@ == v@,
{
    let mut r: Vec<(Coordinate, Feature)> = Vec::new();
    let mut i: usize = 0;
    while i < v.len()
        invariant
            i <= v.len(),
            r@ == v@.take(i as int),
        decreases v.len() - i,
    {
        r.push((v[i].0, v[i].1.clone()));
        i += 1;
        assert(r@ =~= v@.take(i as int));
    }
    assert(v@.take(v.len() as int) =~= v@);
    r
}

/// Two sets of parameters that hold the same lists and numbers.
pub open spec fn same_params(a: EBRHyperparams, b: EBRHyperparams) -> bool {
    &&& a.terrain_attributes@ == b.terrain_attributes@
    &&& a.features@ == b.features@
    &&& a.water_features@ == b.water_features@
    &&& a.bonds@ == b.bonds@
    &&& a.initial_cash@ == b.initial_cash@
    &&& a.company_fixed_details@ == b.company_fixed_details@
    &&& a.water_1_cost == b.water_1_cost
    &&& a.water_2_cost == b.water_2_cost
    &&& a.narrow_gauge_initial == b.narrow_gauge_initial
    &&& a.max_builds == b.max_builds
    &&& a.narrow_track_cost == b.narrow_track_cost
    &&& a.take_resource_cost == b.take_resource_cost
    &&& a.take_dividend == b.take_dividend
    &&& a.take_town_deliver_dividend == b.take_town_deliver_dividend
    &&& a.take_port_deliver_dividend == b.take_port_deliver_dividend
    &&& a.initial_resource_cubes@ == b.initial_resource_cubes@
}

impl Clone for EBRHyperparams {
    fn clone(&self) -> (r: Self)
        ensures
            same_params(r, *self),
    {
        EBRHyperparams {
            terrain_attributes: copy_list(&self.terrain_attributes),
            features: copy_features(&self.features),
            water_features: copy_list(&self.water_features),
            bonds: copy_list(&self.bonds),
            initial_cash: copy_list(&self.initial_cash),
            company_fixed_details: copy_list(&self.company_fixed_details),
            water_1_cost: self.water_1_cost,
            water_2_cost: self.water_2_cost,
            narrow_gauge_initial: self.narrow_gauge_initial,
            max_builds: self.max_builds,
            narrow_track_cost: self.narrow_track_cost,
            take_resource_cost: self.take_resource_cost,
            take_dividend: self.take_dividend,
            take_town_deliver_dividend: self.take_town_deliver_dividend,
            take_port_deliver_dividend: self.take_port_deliver_dividend,
            initial_resource_cubes: copy_list(&self.initial_resource_cubes),
        }
    }
}

pub open spec fn small(v: int) -> bool {
    -(PARAM_LIMIT as int) <= v <= PARAM_LIMIT as int
}

pub open spec fn small_revenue(r: [i64; 6]) -> bool {
    forall|i: int| 0 <= i < 6 ==> small(#[trigger] r@[i] as int)
}

/// Whether every revenue figure is within `PARAM_LIMIT`.
fn revenue_small(r: &[i64; 6]) -> (b: bool)
    ensures
        b == small_revenue(*r),
{
    let mut i: usize = 0;
    while i < 6
        invariant
            i <= 6,
            forall|j: int| 0 <= j < i ==> small(#[trigger] r@[j] as int),
        decreases 6 - i,
    {
        if r[i] < -(PARAM_LIMIT as i64) || r[i] > PARAM_LIMIT as i64 {
            return false;
        }
        i += 1;
    }
    true
}

pub open spec fn is_water(ft: FeatureType) -> bool {
    ft == FeatureType::Water1 || ft == FeatureType::Water2
}

impl EBRHyperparams {
    /// The parameters describe every terrain and every company, water
    /// features are water, company starting hexes are interior hexes, and
    /// every number is within `PARAM_LIMIT`.
    pub open spec fn wf(&self) -> bool {
        &&& self.terrain_attributes.len() == 6
        &&& self.company_fixed_details.len() == COMPANY_COUNT
        &&& forall|i: int|
            0 <= i < 6 ==> {
                &&& #[trigger] self.terrain_attributes@[i].build_cost <= PARAM_LIMIT
                &&& small_revenue(self.terrain_attributes@[i].revenue)
            }
        &&& forall|i: int|
            0 <= i < self.features.len() ==> {
                &&& #[trigger] self.features@[i].1.additional_cost <= PARAM_LIMIT
                &&& small_revenue(self.features@[i].1.revenue)
            }
        &&& forall|i: int|
            0 <= i < self.water_features.len() ==> is_water(#[trigger] self.water_features@[i].1)
        &&& self.water_1_cost <= PARAM_LIMIT
        &&& self.water_2_cost <= PARAM_LIMIT
        &&& forall|i: int|
            0 <= i < self.bonds.len() ==> {
                &&& #[trigger] self.bonds@[i].face_value <= PARAM_LIMIT
                &&& self.bonds@[i].coupon <= PARAM_LIMIT
            }
        &&& self.bonds.len() <= PARAM_LIMIT
        &&& forall|i: int|
            0 <= i < self.initial_cash.len() ==> #[trigger] self.initial_cash@[i].1 <= PARAM_LIMIT
        &&& forall|i: int|
            0 <= i < COMPANY_COUNT ==> {
                let d = #[trigger] self.company_fixed_details@[i];
                &&& d.stock_available <= PARAM_LIMIT
                &&& d.track_available <= PARAM_LIMIT
                &&& d.initial_treasury <= PARAM_LIMIT
                &&& d.initial_interest <= PARAM_LIMIT
                &&& (d.starting matches Some(c) ==> interior(c))
            }
        &&& self.narrow_gauge_initial <= PARAM_LIMIT
        &&& self.max_builds <= PARAM_LIMIT
        &&& self.narrow_track_cost <= PARAM_LIMIT
        &&& self.take_resource_cost <= PARAM_LIMIT
        &&& self.take_dividend <= PARAM_LIMIT
        &&& self.take_town_deliver_dividend <= PARAM_LIMIT
        &&& self.take_port_deliver_dividend <= PARAM_LIMIT
        &&& self.initial_resource_cubes.len() <= PARAM_LIMIT
    }

    /// Whether the parameters can be played: `wf`, tested.
    pub fn check(&self) -> (r: bool)
        ensures
            r == self.wf(),
    {
        if self.terrain_attributes.len() != 6 || self.company_fixed_details.len() != COMPANY_COUNT {
            return false;
        }
        let mut i: usize = 0;
        while i < 6
            invariant
                i <= 6,
                self.terrain_attributes.len() == 6,
                forall|j: int| 0 <= j < i ==> {
                    &&& #[trigger] self.terrain_attributes@[j].build_cost <= PARAM_LIMIT
                    &&& small_revenue(self.terrain_attributes@[j].revenue)
                },
            decreases 6 - i,
        {
            let t = &self.terrain_attributes[i];
            if t.build_cost as usize > PARAM_LIMIT || !revenue_small(&t.revenue) {
                return false;
            }
            i += 1;
        }
        let mut i: usize = 0;
        while i < self.features.len()
            invariant
                i <= self.features.len(),
                forall|j: int| 0 <= j < i ==> {
                    &&& #[trigger] self.features@[j].1.additional_cost <= PARAM_LIMIT
                    &&& small_revenue(self.features@[j].1.revenue)
                },
            decreases self.features.len() - i,
        {
            let f = &self.features[i].1;
            if f.additional_cost > PARAM_LIMIT || !revenue_small(&f.revenue) {
                return false;
            }
            i += 1;
        }
        let mut i: usize = 0;
        while i < self.water_features.len()
            invariant
                i <= self.water_features.len(),
                forall|j: int| 0 <= j < i ==> is_water(#[trigger] self.water_features@[j].1),
            decreases self.water_features.len() - i,
        {
            match self.water_features[i].1 {
                FeatureType::Water1 | FeatureType::Water2 => {},
                _ => return false,
            }
            i += 1;
        }
        if self.water_1_cost > PARAM_LIMIT || self.water_2_cost > PARAM_LIMIT || self.bonds.len() > PARAM_LIMIT {
            return false;
        }
        let mut i: usize = 0;
        while i < self.bonds.len()
            invariant
                i <= self.bonds.len(),
                forall|j: int| 0 <= j < i ==> {
                    &&& #[trigger] self.bonds@[j].face_value <= PARAM_LIMIT
                    &&& self.bonds@[j].coupon <= PARAM_LIMIT
                },
            decreases self.bonds.len() - i,
        {
            if self.bonds[i].face_value > PARAM_LIMIT || self.bonds[i].coupon > PARAM_LIMIT {
                return false;
            }
            i += 1;
        }
        let mut i: usize = 0;
        while i < self.initial_cash.len()
            invariant
                i <= self.initial_cash.len(),
                forall|j: int| 0 <= j < i ==> #[trigger] self.initial_cash@[j].1 <= PARAM_LIMIT,
            decreases self.initial_cash.len() - i,
        {
            if self.initial_cash[i].1 as usize > PARAM_LIMIT {
                return false;
            }
            i += 1;
        }
        let mut i: usize = 0;
        while i < COMPANY_COUNT
            invariant
                i <= COMPANY_COUNT,
                self.company_fixed_details.len() == COMPANY_COUNT,
                forall|j: int| 0 <= j < i ==> {
                    let d = #[trigger] self.company_fixed_details@[j];
                    &&& d.stock_available <= PARAM_LIMIT
                    &&& d.track_available <= PARAM_LIMIT
                    &&& d.initial_treasury <= PARAM_LIMIT
                    &&& d.initial_interest <= PARAM_LIMIT
                    &&& (d.starting matches Some(c) ==> interior(c))
                },
            decreases COMPANY_COUNT - i,
        {
            let d = &self.company_fixed_details[i];
            if d.stock_available > PARAM_LIMIT || d.track_available > PARAM_LIMIT
                || d.initial_treasury > PARAM_LIMIT || d.initial_interest > PARAM_LIMIT {
                return false;
            }
            if let Some(c) = d.starting {
                if !(1 <= c.0 && c.0 < WIDTH && 1 <= c.1 && c.1 < HEIGHT) {
                    return false;
                }
            }
            i += 1;
        }
        self.narrow_gauge_initial <= PARAM_LIMIT && self.max_builds <= PARAM_LIMIT
            && self.narrow_track_cost <= PARAM_LIMIT && self.take_resource_cost as usize <= PARAM_LIMIT
            && self.take_dividend as usize <= PARAM_LIMIT && self.take_town_deliver_dividend as usize <= PARAM_LIMIT
            && self.take_port_deliver_dividend as usize <= PARAM_LIMIT
            && self.initial_resource_cubes.len() <= PARAM_LIMIT
    }

    /// The fixed details of `c`.
    pub open spec fn fixed(&self, c: Company) -> CompanyFixedDetailsParams {
        self.company_fixed_details@[c.spec_index()]
    }
}

/// The water feature at `t`: the first entry for `t`, if any.
pub open spec fn find_water(ws: Seq<(Coordinate, FeatureType)>, t: Coordinate) -> Option<FeatureType>
    decreases ws.len(),
{
    if ws.len() == 0 {
        None
    } else if ws[0].0 == t {
        Some(ws[0].1)
    } else {
        find_water(ws.drop_first(), t)
    }
}

/// Index of the first feature entry for `t`, if any.
pub open spec fn find_feature(fs: Seq<(Coordinate, Feature)>, t: Coordinate) -> Option<int>
    decreases fs.len(),
{
    if fs.len() == 0 {
        None
    } else if fs[0].0 == t {
        Some(0)
    } else {
        match find_feature(fs.drop_first(), t) {
            Some(i) => Some(i + 1),
            None => None,
        }
    }
}

/// A feature found for `t` is an entry of the list, for `t`.
pub proof fn lemma_find_feature_range(fs: Seq<(Coordinate, Feature)>, t: Coordinate)
    ensures
        find_feature(fs, t) matches Some(i) ==> 0 <= i < fs.len() && fs[i].0 == t,
    decreases fs.len(),
{
    if fs.len() > 0 && fs[0].0 != t {
        lemma_find_feature_range(fs.drop_first(), t);
    }
}

/// The water found for `t` is the type of some entry of the list.
pub proof fn lemma_find_water_member(ws: Seq<(Coordinate, FeatureType)>, t: Coordinate)
    ensures
        find_water(ws, t) matches Some(ft) ==> exists|i: int| 0 <= i < ws.len() && ws[i].1 == ft,
    decreases ws.len(),
{
    if ws.len() > 0 && ws[0].0 != t {
        lemma_find_water_member(ws.drop_first(), t);
        if let Some(ft) = find_water(ws, t) {
            let i = choose|i: int| 0 <= i < ws.drop_first().len() && ws.drop_first()[i].1 == ft;
            assert(ws[i + 1].1 == ft);
        }
    }
}

/// The extra building cost of hex `t`: water counts first, then named places.
pub open spec fn spec_additional_cost(h: EBRHyperparams, t: Coordinate) -> int {
    match find_water(h.water_features@, t) {
        Some(ft) => if ft == FeatureType::Water1 { h.water_1_cost as int } else { h.water_2_cost as int },
        None => match find_feature(h.features@, t) {
            Some(i) => h.features@[i].1.additional_cost as int,
            None => 0,
        },
    }
}

/// The revenue that hex `t` adds in dividend round `round`; water earns nothing.
pub open spec fn spec_feature_revenue(h: EBRHyperparams, t: Coordinate, round: int) -> int {
    match find_water(h.water_features@, t) {
        Some(_) => 0,
        None => match find_feature(h.features@, t) {
            Some(i) => h.features@[i].1.revenue@[round] as int,
            None => 0,
        },
    }
}

impl EBRHyperparams {
    fn lookup_water(&self, t: Coordinate) -> (r: Option<FeatureType>)
        ensures
            r == find_water(self.water_features@, t),
    {
        let mut i: usize = 0;
        assert(self.water_features@.skip(0) =~= self.water_features@);
        while i < self.water_features.len()
            invariant
                i <= self.water_features.len(),
                find_water(self.water_features@, t) == find_water(self.water_features@.skip(i as int), t),
            decreases self.water_features.len() - i,
        {
            let ghost rest = self.water_features@.skip(i as int);
            assert(rest.drop_first() =~= self.water_features@.skip(i + 1));
            if same_coord(self.water_features[i].0, t) {
                return Some(self.water_features[i].1);
            }
            i += 1;
        }
        None
    }

    fn lookup_feature(&self, t: Coordinate) -> (r: Option<usize>)
        ensures
            match r {
                Some(k) => find_feature(self.features@, t) == Some(k as int) && k < self.features.len(),
                None => find_feature(self.features@, t) is None,
            },
    {
        let mut i: usize = 0;
        assert(self.features@.skip(0) =~= self.features@);
        while i < self.features.len()
            invariant
                i <= self.features.len(),
                match find_feature(self.features@, t) {
                    Some(j) => match find_feature(self.features@.skip(i as int), t) {
                        Some(k) => j == k + i,
                        None => false,
                    },
                    None => find_feature(self.features@.skip(i as int), t) is None,
                },
            decreases self.features.len() - i,
        {
            let ghost rest = self.features@.skip(i as int);
            assert(rest.drop_first() =~= self.features@.skip(i + 1));
            if same_coord(self.features[i].0, t) {
                return Some(i);
            }
            i += 1;
        }
        None
    }

    /// The extra cost of building at `t` (water, or a named place).
    pub fn additional_cost(&self, t: Coordinate) -> (r: usize)
        requires
            self.wf(),
        ensures
            r == spec_additional_cost(*self, t),
            r <= PARAM_LIMIT,
    {
        proof { lemma_find_water_member(self.water_features@, t); }
        match self.lookup_water(t) {
            Some(ft) => match ft {
                FeatureType::Water1 => self.water_1_cost,
                _ => self.water_2_cost,
            },
            None => match self.lookup_feature(t) {
                Some(i) => {
                    proof { lemma_find_feature_range(self.features@, t); }
                    self.features[i].1.additional_cost
                },
                None => 0,
            },
        }
    }

    /// The revenue of the feature at `t` in dividend round `round`.
    pub fn feature_revenue(&self, t: Coordinate, round: usize) -> (r: i64)
        requires
            self.wf(),
            round < 6,
        ensures
            r == spec_feature_revenue(*self, t, round as int),
            small(r as int),
    {
        match self.lookup_water(t) {
            Some(_) => 0,
            None => match self.lookup_feature(t) {
                Some(i) => {
                    proof { lemma_find_feature_range(self.features@, t); }
                    let rev = self.features[i].1.revenue;
                    assert(self.features@[i as int].1.additional_cost <= PARAM_LIMIT);
                    assert(small(rev@[round as int] as int));
                    rev[round]
                },
                None => 0,
            },
        }
    }
}

} // verus!
