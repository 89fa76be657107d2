use vstd::prelude::*;
use crate::ebr::board::{Coordinate, on_board, interior};
use crate::ebr::company::{Company, COMPANY_COUNT};
use crate::ebr::state::{EBRState, EBRStateView, TrackType};
use crate::ebr::spec::{
    state_wf, bounded, details, fixed, is_private, reachable_narrow, owned_candidate, narrow_candidate,
    spec_can_build, accessible_spaces, spec_accessible_resources, spec_can_take, spec_can_auction,
    spec_can_auction_any, spec_can_issue, spec_can_issue_any, merge_option, pair_lt, spec_min_bid,
    spec_connected_to, in_networks, pair_key, track_of_type_at,
};
use crate::seqs::lemma_concat_contains;
use crate::ebr::network::coord_in;

verus! {

/// Whether `c` occurs in `v`.
pub fn company_in(v: &Vec<Company>, c: Company) -> (r: bool)
    ensures
        r == v@.contains(c),
{
    let mut i: usize = 0;
    while i < v.len()
        invariant
            i <= v.len(),
            forall|j: int| 0 <= j < i ==> v@[j] != c,
        decreases v.len() - i,
    {
        if v[i] == c {
            return true;
        }
        i += 1;
    }
    false
}

/// `s` lists pairs in strictly increasing lexicographic order.
pub open spec fn sorted_pairs(s: Seq<(Company, Company)>) -> bool {
    forall|i: int, j: int| 0 <= i < j < s.len() ==> pair_lt(s[i], s[j])
}

impl EBRState {
    /// Whether `player` may build with `company`: a holder of an unmerged
    /// company with track left to lay and somewhere it may lay it.
    pub fn can_build(&self, company: Company, player: u8) -> (r: bool)
        requires
            state_wf(self@),
            bounded(self@),
            player < self.player_count,
        ensures
            r == spec_can_build(self@, company, player as int),
    {
        let ci = company.index();
        assert(self@.company_details[ci as int] == self.company_details@[ci as int]@);
        assert(self@.holdings[player as int] == self.holdings@[player as int]@);
        if !company_in(&self.holdings[player as usize], company) {
            return false;
        }
        if self.company_details[ci].merged == Some(true) {
            return false;
        }
        let fixed = self.company_fixed_details[ci];
        if !fixed.private {
            if fixed.track_available == 0 {
                return false;
            }
            let options = self.possible_owned_track(company);
            proof {
                if options.len() > 0 {
                    assert(options@.contains(options@[0]));
                }
                if exists|t: Coordinate| owned_candidate(self@, company, t) {
                    let t = choose|t: Coordinate| owned_candidate(self@, company, t);
                    assert(options@.contains(t));
                }
            }
            options.len() > 0
        } else {
            if self.narrow_gauge_remaining == 0 {
                return false;
            }
            let options = self.possible_narrow_track(company);
            proof {
                if options.len() > 0 {
                    assert(options@.contains(options@[0]));
                }
                if exists|t: Coordinate| narrow_candidate(self@, company, t) {
                    let t = choose|t: Coordinate| narrow_candidate(self@, company, t);
                    assert(options@.contains(t));
                }
            }
            options.len() > 0
        }
    }

    /// Whether the player to move may build with any company.
    pub fn can_build_any(&self) -> (r: bool)
        requires
            state_wf(self@),
            bounded(self@),
        ensures
            r == exists|c: Company| spec_can_build(self@, c, self.next_player as int),
    {
        let mut i: usize = 0;
        while i < COMPANY_COUNT
            invariant
                i <= COMPANY_COUNT,
                state_wf(self@),
                bounded(self@),
                forall|c: Company| c.spec_index() < i ==> !spec_can_build(self@, c, self.next_player as int),
            decreases COMPANY_COUNT - i,
        {
            let c = Company::from_index(i);
            if self.can_build(c, self.next_player) {
                return true;
            }
            i += 1;
        }
        proof {
            assert forall|c: Company| !spec_can_build(self@, c, self.next_player as int) by {
                assert(c.spec_index() < 7);
            }
        }
        false
    }

    /// The hexes from which `company` can take resource cubes, each at
    /// least once.
    fn accessible_space_list(&self, company: Company) -> (r: Vec<Coordinate>)
        requires
            state_wf(self@),
            bounded(self@),
        ensures
            forall|t: Coordinate| r@.contains(t) <==> accessible_spaces(self@, company).contains(t),
    {
        let ci = company.index();
        if self.company_fixed_details[ci].private {
            self.possible_narrow_track(company)
        } else {
            let tt = TrackType::CompanyOwned(company);
            let mut spaces: Vec<Coordinate> = Vec::new();
            let mut i: usize = 0;
            while i < self.track.len()
                invariant
                    i <= self@.track.len(),
                    tt == TrackType::CompanyOwned(company),
                    forall|t: Coordinate| #[trigger] spaces@.contains(t) <==> exists|j: int|
                        0 <= j < i && #[trigger] self@.track[j].location == t && self@.track[j].track_type == tt,
                decreases self@.track.len() - i,
            {
                let piece = self.track[i];
                let ghost before = spaces@;
                if piece.track_type == tt {
                    spaces.push(piece.location);
                }
                proof {
                    assert forall|t: Coordinate| #[trigger] spaces@.contains(t) <==> exists|j: int|
                        0 <= j < i + 1 && #[trigger] self@.track[j].location == t && self@.track[j].track_type == tt by {
                        if spaces@.contains(t) && !before.contains(t) {
                            assert(self@.track[i as int].location == t);
                        }
                        if exists|j: int| 0 <= j < i + 1 && #[trigger] self@.track[j].location == t && self@.track[j].track_type == tt {
                            let j = choose|j: int| 0 <= j < i + 1 && #[trigger] self@.track[j].location == t && self@.track[j].track_type == tt;
                            if j < i {
                                assert(before.contains(t));
                                let k = choose|k: int| 0 <= k < before.len() && before[k] == t;
                                assert(spaces@[k] == t);
                            } else {
                                assert(spaces@[spaces@.len() - 1] == t);
                            }
                        }
                    }
                }
                i += 1;
            }
            let ghost owned = spaces@;
            let d = &self.company_details[ci];
            assert(self@.company_details[ci as int] == d@);
            let ghost ps = d@.owned_privates;
            let mut j: usize = 0;
            while j < d.owned_privates.len()
                invariant
                    j <= d.owned_privates.len(),
                    state_wf(self@),
                    bounded(self@),
                    ps == d@.owned_privates,
                    forall|t: Coordinate| owned.contains(t) <==> track_of_type_at(self@.track, t, TrackType::CompanyOwned(company)),
                    forall|t: Coordinate|
                        #[trigger] spaces@.contains(t) <==> owned.contains(t) || in_networks(self@, ps, j as int, t),
                decreases d.owned_privates.len() - j,
            {
                let p = d.owned_privates[j];
                let mut reach = self.reachable_narrow_track(p);
                let ghost before = spaces@;
                let ghost rs = reach@;
                spaces.append(&mut reach);
                proof {
                    assert forall|t: Coordinate|
                        #[trigger] spaces@.contains(t) <==> owned.contains(t) || in_networks(self@, ps, j + 1, t) by {
                        lemma_concat_contains(before, rs, t);
                        if in_networks(self@, ps, j + 1, t) && !in_networks(self@, ps, j as int, t) {
                            let k = choose|k: int| 0 <= k < j + 1 && #[trigger] reachable_narrow(self@, ps[k]).contains(t);
                            assert(k == j);
                        }
                        if rs.contains(t) {
                            assert(reachable_narrow(self@, ps[j as int]).contains(t));
                        }
                    }
                }
                j += 1;
            }
            proof {
                assert forall|t: Coordinate| spaces@.contains(t) <==> accessible_spaces(self@, company).contains(t) by {
                    if in_networks(self@, ps, ps.len() as int, t) {
                        let k = choose|k: int| 0 <= k < ps.len() && #[trigger] reachable_narrow(self@, ps[k]).contains(t);
                        assert(ps.contains(ps[k]));
                    }
                    if exists|p: Company| #[trigger] details(self@, company).owned_privates.contains(p)
                        && reachable_narrow(self@, p).contains(t) {
                        let p = choose|p: Company| #[trigger] details(self@, company).owned_privates.contains(p)
                            && reachable_narrow(self@, p).contains(t);
                        let k = choose|k: int| 0 <= k < ps.len() && ps[k] == p;
                        assert(reachable_narrow(self@, ps[k]).contains(t));
                    }
                }
            }
            spaces
        }
    }

    /// The resource cubes that `company` can take, in board order.
    pub fn company_accessible_resources(&self, company: Company) -> (r: Vec<Coordinate>)
        requires
            state_wf(self@),
            bounded(self@),
        ensures
            r@ == spec_accessible_resources(self@, company),
    {
        let spaces = self.accessible_space_list(company);
        let ghost pred = |r: Coordinate| accessible_spaces(self@, company).contains(r);
        let mut r: Vec<Coordinate> = Vec::new();
        let mut i: usize = 0;
        while i < self.resource_cubes.len()
            invariant
                i <= self.resource_cubes.len(),
                forall|t: Coordinate| spaces@.contains(t) <==> accessible_spaces(self@, company).contains(t),
                pred == (|r: Coordinate| accessible_spaces(self@, company).contains(r)),
                r@ == self@.resource_cubes.take(i as int).filter(pred),
            decreases self.resource_cubes.len() - i,
        {
            proof { reveal_with_fuel(Seq::<_>::filter, 1); }
            assert(self@.resource_cubes.take(i + 1).drop_last() =~= self@.resource_cubes.take(i as int));
            let cube = self.resource_cubes[i];
            if coord_in(&spaces, cube) {
                r.push(cube);
            }
            i += 1;
        }
        assert(self@.resource_cubes.take(self.resource_cubes.len() as int) =~= self@.resource_cubes);
        r
    }

    /// Whether `company` has the cash to take resources and some cube to take.
    pub fn can_take(&self, company: Company) -> (r: bool)
        requires
            state_wf(self@),
            bounded(self@),
        ensures
            r == spec_can_take(self@, company),
    {
        let ci = company.index();
        assert(self@.company_details[ci as int] == self.company_details@[ci as int]@);
        self.company_details[ci].cash > self.hyperparams.take_resource_cost as i64
            && self.company_accessible_resources(company).len() > 0
    }

    /// Whether some company held by the player to move can take resources.
    pub fn can_take_any(&self) -> (r: bool)
        requires
            state_wf(self@),
            bounded(self@),
        ensures
            r == exists|c: Company| #[trigger] self@.holdings[self.next_player as int].contains(c) && spec_can_take(self@, c),
    {
        let held = &self.holdings[self.next_player as usize];
        assert(self@.holdings[self.next_player as int] == held@);
        let mut i: usize = 0;
        while i < held.len()
            invariant
                i <= held.len(),
                state_wf(self@),
                bounded(self@),
                held@ == self@.holdings[self.next_player as int],
                forall|j: int| 0 <= j < i ==> !spec_can_take(self@, #[trigger] held@[j]),
            decreases held.len() - i,
        {
            if self.can_take(held[i]) {
                assert(held@.contains(held@[i as int]));
                return true;
            }
            i += 1;
        }
        proof {
            assert forall|c: Company| #[trigger] held@.contains(c) implies !spec_can_take(self@, c) by {
                let j = choose|j: int| 0 <= j < held.len() && held@[j] == c;
            }
        }
        false
    }

    /// Whether a player with `cash` could start an auction for `company`.
    pub fn can_auction(&self, company: Company, cash: i64) -> (r: bool)
        requires
            state_wf(self@),
            bounded(self@),
            !self.terminal,
        ensures
            r == spec_can_auction(self@, company, cash as int),
    {
        let ci = company.index();
        assert(self@.company_details[ci as int] == self.company_details@[ci as int]@);
        let private = self.company_fixed_details[ci].private;
        let d = &self.company_details[ci];
        let eligible = if private {
            d.available == Some(true)
        } else {
            d.shares_remaining > 0
        };
        eligible && cash >= self.min_bid(company)
    }

    /// Whether the player to move could start any auction.
    pub fn can_auction_any(&self) -> (r: bool)
        requires
            state_wf(self@),
            bounded(self@),
            !self.terminal,
        ensures
            r == spec_can_auction_any(self@),
    {
        let cash = self.player_cash[self.next_player as usize];
        if cash < 1 {
            return false;
        }
        let mut i: usize = 0;
        while i < COMPANY_COUNT
            invariant
                i <= COMPANY_COUNT,
                state_wf(self@),
                bounded(self@),
                !self.terminal,
                cash == self@.player_cash[self.next_player as int],
                forall|c: Company| c.spec_index() < i ==> !spec_can_auction(self@, c, cash as int),
            decreases COMPANY_COUNT - i,
        {
            let c = Company::from_index(i);
            if self.can_auction(c, cash) {
                return true;
            }
            i += 1;
        }
        proof {
            assert forall|c: Company| !spec_can_auction(self@, c, cash as int) by {
                assert(c.spec_index() < 7);
            }
        }
        false
    }

    /// Whether the player to move may issue a bond for `company`: a public
    /// company the player holds.
    pub fn can_issue(&self, company: Company) -> (r: bool)
        requires
            state_wf(self@),
        ensures
            r == spec_can_issue(self@, company),
    {
        let ci = company.index();
        if self.company_fixed_details[ci].private {
            return false;
        }
        assert(self@.holdings[self.next_player as int] == self.holdings@[self.next_player as int]@);
        company_in(&self.holdings[self.next_player as usize], company)
    }

    /// Whether any bond is left and the player to move may issue one.
    pub fn can_issue_any(&self) -> (r: bool)
        requires
            state_wf(self@),
        ensures
            r == spec_can_issue_any(self@),
    {
        if self.unissued_bonds.len() == 0 {
            return false;
        }
        let mut i: usize = 0;
        while i < COMPANY_COUNT
            invariant
                i <= COMPANY_COUNT,
                state_wf(self@),
                self.unissued_bonds.len() > 0,
                forall|c: Company| c.spec_index() < i ==> !spec_can_issue(self@, c),
            decreases COMPANY_COUNT - i,
        {
            let c = Company::from_index(i);
            if self.can_issue(c) {
                return true;
            }
            i += 1;
        }
        proof {
            assert forall|c: Company| !spec_can_issue(self@, c) by {
                assert(c.spec_index() < 7);
            }
        }
        false
    }

    /// Whether `(p, q)` is a merger open to `player`.
    fn is_merge_option(&self, player: u8, p: Company, q: Company) -> (r: bool)
        requires
            state_wf(self@),
            bounded(self@),
            player < self.player_count,
        ensures
            r == merge_option(self@, player as int, p, q),
    {
        let pi = p.index();
        let qi = q.index();
        assert(self@.company_details[pi as int] == self.company_details@[pi as int]@);
        assert(self@.company_details[qi as int] == self.company_details@[qi as int]@);
        assert(self@.holdings[player as int] == self.holdings@[player as int]@);
        if !self.company_fixed_details[pi].private || self.company_fixed_details[qi].private {
            return false;
        }
        if self.company_details[pi].merged == Some(true) {
            return false;
        }
        let held = &self.holdings[player as usize];
        if !company_in(held, p) && !company_in(held, q) {
            return false;
        }
        if !(self.company_details[qi].shares_remaining > 0 || q == Company::EBRC) {
            return false;
        }
        self.connected_to(p, q)
    }

    /// The mergers open to `player`, in lexicographic order of (private, public).
    pub fn merge_options(&self, player: u8) -> (r: Vec<(Company, Company)>)
        requires
            state_wf(self@),
            bounded(self@),
            player < self.player_count,
        ensures
            sorted_pairs(r@),
            forall|p: Company, q: Company| r@.contains((p, q)) <==> merge_option(self@, player as int, p, q),
    {
        let mut r: Vec<(Company, Company)> = Vec::new();
        let mut n: usize = 0;
        while n < 49
            invariant
                n <= 49,
                state_wf(self@),
                bounded(self@),
                player < self.player_count,
                sorted_pairs(r@),
                forall|k: int| 0 <= k < r.len() ==> pair_key(#[trigger] r@[k]) < n,
                forall|p: Company, q: Company|
                    pair_key((p, q)) < n ==> (r@.contains((p, q)) <==> merge_option(self@, player as int, p, q)),
            decreases 49 - n,
        {
            let p = Company::from_index(n / 7);
            let q = Company::from_index(n % 7);
            assert(pair_key((p, q)) == n);
            let ghost before = r@;
            if self.is_merge_option(player, p, q) {
                r.push((p, q));
            }
            proof {
                assert forall|pp: Company, qq: Company|
                    pair_key((pp, qq)) < n + 1 implies (r@.contains((pp, qq)) <==> merge_option(self@, player as int, pp, qq)) by {
                    if pair_key((pp, qq)) == n {
                        assert(pp.spec_index() == p.spec_index() && qq.spec_index() == q.spec_index());
                        assert(pp == Company::spec_from_index(pp.spec_index()));
                        assert(qq == Company::spec_from_index(qq.spec_index()));
                        assert(pp == p && qq == q);
                        if before.contains((pp, qq)) {
                            let k = choose|k: int| 0 <= k < before.len() && before[k] == (pp, qq);
                            assert(pair_key(before[k]) < n);
                        }
                        if r@.contains((pp, qq)) && !before.contains((pp, qq)) {
                            assert(r@.len() == before.len() + 1);
                        }
                        if merge_option(self@, player as int, pp, qq) {
                            assert(r@[r@.len() - 1] == (pp, qq));
                        }
                    } else {
                        if r@.contains((pp, qq)) {
                            let k = choose|k: int| 0 <= k < r@.len() && r@[k] == (pp, qq);
                            if k < before.len() {
                                assert(before[k] == (pp, qq));
                            }
                        }
                        if before.contains((pp, qq)) {
                            let k = choose|k: int| 0 <= k < before.len() && before[k] == (pp, qq);
                            assert(r@[k] == (pp, qq));
                        }
                    }
                }
            }
            n += 1;
        }
        proof {
            assert forall|p: Company, q: Company| r@.contains((p, q)) <==> merge_option(self@, player as int, p, q) by {
                assert(p.spec_index() < 7 && q.spec_index() < 7);
            }
        }
        r
    }

    /// Whether the player to move has any merger open.
    pub fn can_merge_any(&self) -> (r: bool)
        requires
            state_wf(self@),
            bounded(self@),
        ensures
            r == exists|p: Company, q: Company| merge_option(self@, self.next_player as int, p, q),
    {
        let options = self.merge_options(self.next_player);
        proof {
            if options.len() > 0 {
                let (p, q) = options@[0];
                assert(options@.contains((p, q)));
                assert(merge_option(self@, self.next_player as int, p, q));
            }
            if exists|p: Company, q: Company| merge_option(self@, self.next_player as int, p, q) {
                let (p, q) = choose|p: Company, q: Company| merge_option(self@, self.next_player as int, p, q);
                assert(options@.contains((p, q)));
            }
        }
        options.len() > 0
    }
}

} // verus!
