use vstd::prelude::*;
use crate::ebr::company::{Company, COMPANY_COUNT};
use crate::ebr::params::COUNT_LIMIT;
use crate::ebr::state::{
    EBRState, EBRStateView, CompanyDetails, CompanyDetailsView, BondDetails, EndGameReason, copy_vec,
};
use crate::ebr::spec::{
    state_wf, bounded, details, spec_net_revenue, ceil_div, cash_ok, bonds_ok, CASH_LIMIT,
};
use crate::ebr::div_ceil;

verus! {

/// The number of dividend rounds after which the game ends.
pub const FINAL_DIVIDEND_COUNT: usize = 6;

/// The dividend per share of `c`: its net revenue over the shares held,
/// rounded away from zero; nothing when no share is held.
pub open spec fn revenue_per_share(v: EBRStateView, c: Company) -> int {
    let sh = details(v, c).shares_held as int;
    if sh > 0 {
        let rev = spec_net_revenue(v, c);
        if rev > 0 { ceil_div(rev, sh) } else { -ceil_div(-rev, sh) }
    } else {
        0
    }
}

/// The dividends paid for the holdings `hs`.
pub open spec fn income(v: EBRStateView, hs: Seq<Company>) -> int
    decreases hs.len(),
{
    if hs.len() == 0 {
        0
    } else {
        income(v, hs.drop_last()) + revenue_per_share(v, hs.last())
    }
}

pub open spec fn undeferred(bs: Seq<BondDetails>) -> Seq<BondDetails> {
    bs.map_values(|b: BondDetails| BondDetails { bond: b.bond, deferred: false })
}

pub open spec fn with_undeferred_bonds(d: CompanyDetailsView) -> CompanyDetailsView {
    CompanyDetailsView { bonds: undeferred(d.bonds), ..d }
}

/// All companies are merged or sold out.
pub open spec fn shares_condition(v: EBRStateView) -> bool {
    forall|i: int|
        0 <= i < COMPANY_COUNT ==> #[trigger] v.company_details[i].merged == Some(true)
            || v.company_details[i].shares_remaining == 0
}

/// The position after a dividend round: every player is paid the dividends
/// of their holdings, the turn passes on, bonds stop being deferred, and
/// the game ends after the last round, on a bankruptcy, or when two of the
/// three end conditions (shares, bonds, resources) hold.
pub open spec fn spec_pay_dividend(v: EBRStateView) -> EBRStateView {
    let cash = Seq::new(v.player_count as nat, |p: int| (v.player_cash[p] + income(v, v.holdings[p])) as i64);
    let dp = (v.dividends_paid + 1) as usize;
    let shares = shares_condition(v);
    let bonds = v.unissued_bonds.len() <= 2;
    let resources = v.resource_cubes.len() <= 3;
    let met = (if shares { 1int } else { 0 }) + (if bonds { 1int } else { 0 }) + (if resources { 1int } else { 0 });
    let bankrupt = exists|p: int| 0 <= p < v.player_count && #[trigger] cash[p] < 0;
    let (terminal, reason) = if dp == FINAL_DIVIDEND_COUNT {
        (true, EndGameReason::Dividends)
    } else if bankrupt {
        (true, EndGameReason::Bankruptcy)
    } else if met >= 2 {
        (true, if shares { EndGameReason::Shares } else if bonds { EndGameReason::Bonds } else { EndGameReason::Resources })
    } else {
        (v.terminal, v.end_game_reason)
    };
    EBRStateView {
        terminal,
        end_game_reason: reason,
        next_player: ((v.next_player + 1) % (v.player_count as int)) as u8,
        player_cash: cash,
        company_details: v.company_details.map_values(|d: CompanyDetailsView| with_undeferred_bonds(d)),
        dividends_paid: dp,
        ..v
    }
}

fn undefer(bs: &Vec<BondDetails>) -> (r: Vec<BondDetails>)
    ensures
        r@ == undeferred(bs@),
{
    let mut r: Vec<BondDetails> = Vec::new();
    let mut i: usize = 0;
    while i < bs.len()
        invariant
            i <= bs.len(),
            r@ == undeferred(bs@).take(i as int),
        decreases bs.len() - i,
    {
        r.push(BondDetails { bond: bs[i].bond, deferred: false });
        i += 1;
        assert(r@ =~= undeferred(bs@).take(i as int));
    }
    assert(undeferred(bs@).take(bs.len() as int) =~= undeferred(bs@));
    r
}

proof fn lemma_ceil_div_bounds(n: int, d: int)
    requires
        n >= 0,
        d >= 1,
    ensures
        0 <= ceil_div(n, d) <= n,
{
    assert(n + d - 1 >= 0);
    assert(0 <= (n + d - 1) / d <= n) by (nonlinear_arith)
        requires n >= 0, d >= 1;
}

impl EBRState {
    /// The dividend per share of `company`.
    pub fn revenue_per_share(&self, company: Company) -> (r: i64)
        requires
            state_wf(self@),
            bounded(self@),
            self.dividends_paid < 6,
        ensures
            r == revenue_per_share(self@, company),
            -67108864 <= r <= 67108864,
    {
        let sh = self.company_details[company.index()].shares_held;
        assert(self@.company_details[company.spec_index()] == self.company_details@[company.spec_index()]@);
        if sh > 0 {
            let rev = self.net_revenue(company);
            let shares = sh as i64;
            if rev > 0 {
                let q = div_ceil(rev, shares);
                proof { lemma_ceil_div_bounds(rev as int, shares as int); }
                q
            } else {
                assert(-4096 * 12288 <= rev);
                let q = div_ceil(-rev, shares);
                proof { lemma_ceil_div_bounds(-rev as int, shares as int); }
                -q
            }
        } else {
            0
        }
    }

    /// The dividends paid to a player with holdings `hs`.
    fn income(&self, hs: &Vec<Company>) -> (r: i64)
        requires
            state_wf(self@),
            bounded(self@),
            self.dividends_paid < 6,
            hs.len() <= COUNT_LIMIT,
        ensures
            r == income(self@, hs@),
            -274877906944 <= r <= 274877906944,
    {
        let mut sum: i64 = 0;
        let mut i: usize = 0;
        while i < hs.len()
            invariant
                i <= hs.len(),
                hs.len() <= COUNT_LIMIT,
                state_wf(self@),
                bounded(self@),
                self.dividends_paid < 6,
                sum == income(self@, hs@.take(i as int)),
                -(i as int) * 67108864 <= sum <= (i as int) * 67108864,
            decreases hs.len() - i,
        {
            assert(hs@.take(i + 1).drop_last() =~= hs@.take(i as int));
            sum = sum + self.revenue_per_share(hs[i]);
            i += 1;
        }
        assert(hs@.take(hs.len() as int) =~= hs@);
        sum
    }

    /// Pays a dividend round and checks whether the game ends.
    pub fn pay_dividend(&mut self)
        requires
            state_wf(old(self)@),
            bounded(old(self)@),
            old(self).dividends_paid < 6,
        ensures
            final(self)@ == spec_pay_dividend(old(self)@),
            final(self)@.player_cash.len() == old(self)@.player_count,
            forall|p: int| 0 <= p < old(self)@.player_count ==> #[trigger] final(self)@.player_cash[p]
                == old(self)@.player_cash[p] + income(old(self)@, old(self)@.holdings[p]),
    {
        let ghost v = self@;
        let pc = self.player_count;
        let mut cash: Vec<i64> = Vec::new();
        let mut p: usize = 0;
        while p < pc as usize
            invariant
                p <= pc,
                pc == v.player_count,
                v == self@,
                state_wf(v),
                bounded(v),
                self.dividends_paid < 6,
                cash.len() == p,
                forall|q: int| 0 <= q < p ==> #[trigger] cash@[q] == (v.player_cash[q] + income(v, v.holdings[q])),
            decreases pc - p,
        {
            assert(self@.holdings[p as int] == self.holdings@[p as int]@);
            let gain = self.income(&self.holdings[p]);
            assert(cash_ok(v.player_cash[p as int]));
            cash.push(self.player_cash[p] + gain);
            p += 1;
        }
        let mut details: Vec<CompanyDetails> = Vec::new();
        let mut i: usize = 0;
        while i < self.company_details.len()
            invariant
                i <= self.company_details.len(),
                v == self@,
                details.len() == i,
                forall|j: int| 0 <= j < i ==> #[trigger] details@[j]@ == with_undeferred_bonds(v.company_details[j]),
            decreases self.company_details.len() - i,
        {
            let d = &self.company_details[i];
            assert(v.company_details[i as int] == d@);
            details.push(CompanyDetails {
                shares_held: d.shares_held,
                shares_remaining: d.shares_remaining,
                merged: d.merged,
                cash: d.cash,
                available: d.available,
                hq: d.hq,
                track_remaining: d.track_remaining,
                bonds: undefer(&d.bonds),
                owned_privates: copy_vec(&d.owned_privates),
            });
            i += 1;
        }
        let mut shares = true;
        let mut k: usize = 0;
        while k < COMPANY_COUNT
            invariant
                k <= COMPANY_COUNT,
                v == self@,
                state_wf(v),
                shares == forall|j: int|
                    0 <= j < k ==> #[trigger] v.company_details[j].merged == Some(true)
                        || v.company_details[j].shares_remaining == 0,
            decreases COMPANY_COUNT - k,
        {
            let d = &self.company_details[k];
            assert(v.company_details[k as int] == d@);
            let ghost old_shares = shares;
            if !(d.merged == Some(true)) && d.shares_remaining > 0 {
                shares = false;
            }
            proof {
                if shares {
                    assert forall|j: int| 0 <= j < k + 1 implies #[trigger] v.company_details[j].merged == Some(true)
                        || v.company_details[j].shares_remaining == 0 by {
                        if j < k {
                            assert(old_shares);
                        }
                    }
                } else {
                    if old_shares {
                        assert(!(v.company_details[k as int].merged == Some(true) || v.company_details[k as int].shares_remaining == 0));
                    }
                }
            }
            k += 1;
        }
        let bonds = self.unissued_bonds.len() <= 2;
        let resources = self.resource_cubes.len() <= 3;
        let met: u8 = (if shares { 1u8 } else { 0 }) + (if bonds { 1u8 } else { 0 }) + (if resources { 1u8 } else { 0 });
        let mut bankrupt = false;
        let mut q: usize = 0;
        while q < cash.len()
            invariant
                q <= cash.len(),
                bankrupt == exists|j: int| 0 <= j < q && #[trigger] cash@[j] < 0,
            decreases cash.len() - q,
        {
            if cash[q] < 0 {
                bankrupt = true;
            }
            q += 1;
        }
        self.next_player = (self.next_player + 1) % pc;
        self.player_cash = cash;
        self.company_details = details;
        self.dividends_paid = self.dividends_paid + 1;
        if self.dividends_paid == FINAL_DIVIDEND_COUNT {
            self.terminal = true;
            self.end_game_reason = EndGameReason::Dividends;
        } else if bankrupt {
            self.terminal = true;
            self.end_game_reason = EndGameReason::Bankruptcy;
        } else if met >= 2 {
            self.terminal = true;
            if shares {
                self.end_game_reason = EndGameReason::Shares;
            } else if bonds {
                self.end_game_reason = EndGameReason::Bonds;
            } else if resources {
                self.end_game_reason = EndGameReason::Resources;
            }
        }
        proof {
            let w = spec_pay_dividend(v);
            assert(self@.player_cash =~= w.player_cash);
            assert(self@.company_details =~= w.company_details);
            assert(self@.holdings =~= w.holdings);
        }
    }
}

} // verus!

verus! {

proof fn lemma_ceil_div_exact(n: int, d: int)
    requires
        n >= 0,
        d >= 1,
    ensures
        n <= ceil_div(n, d) * d < n + d,
{
    let s = n + d - 1;
    vstd::arithmetic::div_mod::lemma_fundamental_div_mod(s, d);
    assert(0 <= s % d < d) by {
        vstd::arithmetic::div_mod::lemma_mod_bound(s, d);
    }
    assert(ceil_div(n, d) == s / d);
    assert(d * (s / d) == (s / d) * d) by (nonlinear_arith);
}

/// What a dividend pays per share: the company's net revenue shared over the
/// shares held, rounded away from zero. The dividends on all held shares
/// cover a positive revenue with less than one unit per share to spare, and
/// pass on a loss (or nothing) in full with less than one unit per share
/// more; with no shares held nothing is paid.
pub proof fn lemma_dividend_per_share(v: EBRStateView, c: Company)
    ensures
        ({
            let sh = details(v, c).shares_held as int;
            let rev = spec_net_revenue(v, c);
            let q = revenue_per_share(v, c);
            &&& (sh > 0 && rev > 0 ==> rev <= q * sh < rev + sh)
            &&& (sh > 0 && rev <= 0 ==> rev - sh < q * sh <= rev)
            &&& (sh == 0 ==> q == 0)
        }),
{
    let sh = details(v, c).shares_held as int;
    let rev = spec_net_revenue(v, c);
    if sh > 0 {
        if rev > 0 {
            lemma_ceil_div_exact(rev, sh);
        } else {
            lemma_ceil_div_exact(-rev, sh);
            let q1 = ceil_div(-rev, sh);
            assert((-q1) * sh == -(q1 * sh)) by (nonlinear_arith);
        }
    }
}

} // verus!
