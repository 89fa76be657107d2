use vstd::prelude::*;
use crate::ebr::board::{Coordinate, Terrain, spec_terrain, terrain_at, same_coord, WIDTH};
use crate::ebr::company::Company;
use crate::ebr::params::Bond;
use crate::ebr::actions::{ChoosableAction, EBRAction};
use crate::ebr::state::{EBRState, EBRStateView, Stage, StageView};
use crate::ebr::spec::{
    state_wf, bounded, details, is_private, owns_terrain, owned_candidate, narrow_candidate, merge_option,
    spec_can_build, spec_can_take, spec_can_auction, spec_can_auction_any, spec_can_issue,
    spec_can_issue_any, spec_accessible_resources,
};
use crate::ebr::building::sorted_coords;
use crate::ebr::eligibility::sorted_pairs;
use crate::ebr::transitions::has_space;

verus! {

/// The actions of the action table in their order.
pub open spec fn choosable_of(i: int) -> ChoosableAction {
    if i == 0 {
        ChoosableAction::BuildTrack
    } else if i == 1 {
        ChoosableAction::AuctionShare
    } else if i == 2 {
        ChoosableAction::TakeResources
    } else if i == 3 {
        ChoosableAction::IssueBond
    } else if i == 4 {
        ChoosableAction::Merge
    } else {
        ChoosableAction::PayDividend
    }
}

impl ChoosableAction {
    pub fn from_index(i: usize) -> (r: ChoosableAction)
        requires
            i < 6,
        ensures
            r == choosable_of(i as int),
    {
        if i == 0 {
            ChoosableAction::BuildTrack
        } else if i == 1 {
            ChoosableAction::AuctionShare
        } else if i == 2 {
            ChoosableAction::TakeResources
        } else if i == 3 {
            ChoosableAction::IssueBond
        } else if i == 4 {
            ChoosableAction::Merge
        } else {
            ChoosableAction::PayDividend
        }
    }
}

/// Whether the player to move may put a cube on action `a`: it has an empty
/// space, and the action has something to do.
pub open spec fn may_add(v: EBRStateView, a: ChoosableAction) -> bool {
    &&& has_space(v.action_cubes, a, false)
    &&& match a {
        ChoosableAction::Merge => exists|p: Company, q: Company| merge_option(v, v.next_player as int, p, q),
        ChoosableAction::BuildTrack => exists|c: Company| spec_can_build(v, c, v.next_player as int),
        ChoosableAction::TakeResources => exists|c: Company|
            #[trigger] v.holdings[v.next_player as int].contains(c) && spec_can_take(v, c),
        ChoosableAction::IssueBond => spec_can_issue_any(v),
        ChoosableAction::AuctionShare => spec_can_auction_any(v),
        ChoosableAction::PayDividend => true,
    }
}

/// The cube moves `(from, to)` among the first `k` of the 36 ordered pairs of
/// actions (by `from`, then `to`): a cube is taken from `from` and put on
/// another action `to` that may take one.
pub open spec fn move_choices(v: EBRStateView, k: int) -> Seq<EBRAction>
    decreases k,
{
    if k <= 0 {
        Seq::empty()
    } else {
        let from = choosable_of((k - 1) / 6);
        let to = choosable_of((k - 1) % 6);
        move_choices(v, k - 1) + if from != to && has_space(v.action_cubes, from, true) && may_add(v, to) {
            seq![EBRAction::MoveCube(from, to)]
        } else {
            Seq::empty()
        }
    }
}

/// The companies among the first `k`, in order, that satisfy `pred`, each
/// made into an action by `make`.
pub open spec fn company_choices(
    pred: spec_fn(Company) -> bool,
    make: spec_fn(Company) -> EBRAction,
    k: int,
) -> Seq<EBRAction>
    decreases k,
{
    if k <= 0 {
        Seq::empty()
    } else {
        let c = Company::spec_from_index(k - 1);
        company_choices(pred, make, k - 1) + if pred(c) { seq![make(c)] } else { Seq::empty() }
    }
}

pub open spec fn auction_pred(v: EBRStateView) -> spec_fn(Company) -> bool {
    |c: Company| spec_can_auction(v, c, v.player_cash[v.next_player as int] as int)
}

pub open spec fn build_pred(v: EBRStateView) -> spec_fn(Company) -> bool {
    |c: Company| spec_can_build(v, c, v.next_player as int)
}

pub open spec fn bond_pred(v: EBRStateView) -> spec_fn(Company) -> bool {
    |c: Company| spec_can_issue(v, c)
}

pub open spec fn as_auction_choice() -> spec_fn(Company) -> EBRAction {
    |c: Company| EBRAction::ChooseAuctionCompany(c)
}

pub open spec fn as_build_choice() -> spec_fn(Company) -> EBRAction {
    |c: Company| EBRAction::ChooseBuildCompany(c)
}

pub open spec fn as_bond_choice() -> spec_fn(Company) -> EBRAction {
    |c: Company| EBRAction::ChooseBondCompany(c)
}

/// Whether some company has its headquarters at `loc`.
pub open spec fn hq_taken(v: EBRStateView, loc: Coordinate) -> bool {
    exists|i: int| 0 <= i < 7 && #[trigger] v.company_details[i].hq == Some(loc)
}

/// The hex with row-major number `k`.
pub open spec fn hex_of(k: int) -> Coordinate {
    ((k % 14) as usize, (k / 14) as usize)
}

/// The free forest and mountain hexes among the first `k` hexes of the
/// board, in row-major order, as headquarters for private `c`.
pub open spec fn start_choices(v: EBRStateView, c: Company, k: int) -> Seq<EBRAction>
    decreases k,
{
    if k <= 0 {
        Seq::empty()
    } else {
        let loc = hex_of(k - 1);
        start_choices(v, c, k - 1) + if (spec_terrain(loc) == Terrain::Forest || spec_terrain(loc)
            == Terrain::Mountain) && !hq_taken(v, loc) {
            seq![EBRAction::StartPrivateAt(c, loc)]
        } else {
            Seq::empty()
        }
    }
}

/// The hexes of the board in lexicographic order: by column, then by row.
pub open spec fn board_in_order() -> Seq<Coordinate> {
    Seq::new(182, |k: int| ((k / 13) as usize, (k % 13) as usize))
}

/// Whether `c` may build next at `t`.
pub open spec fn build_target(v: EBRStateView, c: Company) -> spec_fn(Coordinate) -> bool {
    |t: Coordinate| if is_private(v, c) { narrow_candidate(v, c, t) } else { owned_candidate(v, c, t) }
}

/// The hexes where `c` may build next, in lexicographic order.
pub open spec fn build_hexes(v: EBRStateView, c: Company) -> Seq<Coordinate> {
    board_in_order().filter(build_target(v, c))
}

pub open spec fn as_build_track() -> spec_fn(Coordinate) -> EBRAction {
    |t: Coordinate| EBRAction::BuildTrack(t)
}

pub open spec fn as_take() -> spec_fn(Coordinate) -> EBRAction {
    |t: Coordinate| EBRAction::TakeResources(t)
}

pub open spec fn as_issue(c: Company) -> spec_fn(Bond) -> EBRAction {
    |b: Bond| EBRAction::IssueBond(c, b)
}

pub open spec fn as_merge() -> spec_fn((Company, Company)) -> EBRAction {
    |m: (Company, Company)| EBRAction::Merge(m.0, m.1)
}

/// The builds open to `c` after `completed` builds this turn: a pass alone
/// when it has no track left, else each hex it may build on, and a pass
/// once it has built.
pub open spec fn build_choices(v: EBRStateView, c: Company, completed: usize) -> Seq<EBRAction> {
    let out = if is_private(v, c) { v.narrow_gauge_remaining == 0 } else { details(v, c).track_remaining == 0 };
    if out {
        seq![EBRAction::BuildPass]
    } else {
        build_hexes(v, c).map_values(as_build_track()) + if completed > 0 {
            seq![EBRAction::BuildPass]
        } else {
            Seq::empty()
        }
    }
}

/// Every pair of companies in lexicographic order.
pub open spec fn all_pairs() -> Seq<(Company, Company)> {
    Seq::new(49, |k: int| (Company::spec_from_index(k / 7), Company::spec_from_index(k % 7)))
}

pub open spec fn merge_pred(v: EBRStateView, player: int) -> spec_fn((Company, Company)) -> bool {
    |m: (Company, Company)| merge_option(v, player, m.0, m.1)
}

/// The mergers open to `player`, in lexicographic order.
pub open spec fn merge_list(v: EBRStateView, player: int) -> Seq<(Company, Company)> {
    all_pairs().filter(merge_pred(v, player))
}

/// Whether `c` owns track on a port or a town, to which it can deliver.
pub open spec fn delivers(v: EBRStateView, c: Company) -> bool {
    owns_terrain(v, c, Terrain::Port) || owns_terrain(v, c, Terrain::Town)
}

/// The choices of `c` taking resources delivered by each of the first `k`
/// companies that can deliver.
pub open spec fn delivery_choices(v: EBRStateView, c: Company, k: int) -> Seq<EBRAction>
    decreases k,
{
    if k <= 0 {
        Seq::empty()
    } else {
        let m = Company::spec_from_index(k - 1);
        delivery_choices(v, c, k - 1) + if delivers(v, m) {
            seq![EBRAction::ChooseTakeResourcesCompany(c, Some(m))]
        } else {
            Seq::empty()
        }
    }
}

/// The choices of company and deliverer for taking resources, over the first
/// `k` companies: each company that can take, with each deliverer, or with
/// none when no company can deliver.
pub open spec fn take_company_choices(v: EBRStateView, k: int) -> Seq<EBRAction>
    decreases k,
{
    if k <= 0 {
        Seq::empty()
    } else {
        let c = Company::spec_from_index(k - 1);
        take_company_choices(v, k - 1) + if spec_can_take(v, c) {
            let d = delivery_choices(v, c, 7);
            if d.len() > 0 { d } else { seq![EBRAction::ChooseTakeResourcesCompany(c, None)] }
        } else {
            Seq::empty()
        }
    }
}

/// The bids and passes of an auction: every bid from one above the current
/// bid up to the player's cash, then a zero bid opening a lot of the initial
/// auction or a pass once there is a bid; a player who cannot bid has the
/// zero bid or the pass alone.
pub open spec fn auction_choices(v: EBRStateView, initial: bool, current_bid: Option<i64>) -> Seq<EBRAction> {
    let cash = v.player_cash[v.next_player as int] as int;
    let low = match current_bid { Some(b) => b as int, None => -1 };
    if low < cash {
        let start = match current_bid { Some(b) => b as int + 1, None => 1 };
        Seq::new((cash - start + 1) as nat, |i: int| EBRAction::Bid((start + i) as usize)) + if initial
            && current_bid is None {
            seq![EBRAction::Bid(0)]
        } else if current_bid is Some {
            seq![EBRAction::Pass]
        } else {
            Seq::empty()
        }
    } else if initial && current_bid is None {
        seq![EBRAction::Bid(0)]
    } else {
        seq![EBRAction::Pass]
    }
}

/// The actions open to the player to move.
pub open spec fn spec_permitted(v: EBRStateView) -> Seq<EBRAction> {
    if v.terminal {
        Seq::empty()
    } else {
        match v.stage {
            StageView::Auction { initial_auction, current_bid, .. } => auction_choices(v, initial_auction, current_bid),
            StageView::ChooseAction => {
                let m = move_choices(v, 36);
                if m.len() == 0 { seq![EBRAction::Stalemate] } else { m }
            },
            StageView::ChooseAuctionCompany => company_choices(auction_pred(v), as_auction_choice(), 7),
            StageView::ChoosePrivateStart(c) => start_choices(v, c, 182),
            StageView::ChooseBuildCompany => company_choices(build_pred(v), as_build_choice(), 7),
            StageView::BuildTrack { company, completed_builds } => build_choices(v, company, completed_builds),
            StageView::ChooseBondCompany => company_choices(bond_pred(v), as_bond_choice(), 7),
            StageView::ChooseBond(c) => v.unissued_bonds.map_values(as_issue(c)),
            StageView::ChooseMerge => merge_list(v, v.next_player as int).map_values(as_merge()),
            StageView::ChooseTakeResourcesCompany => take_company_choices(v, 7),
            StageView::TakeResources { company, taken_resources, .. } => spec_accessible_resources(
                v,
                company,
            ).map_values(as_take()) + if taken_resources > 0 {
                seq![EBRAction::PassTakeResources]
            } else {
                Seq::empty()
            },
        }
    }
}

/// Two strictly increasing lists of hexes with the same members are equal.
pub proof fn lemma_sorted_coords_eq(a: Seq<Coordinate>, b: Seq<Coordinate>)
    requires
        sorted_coords(a),
        sorted_coords(b),
        forall|t: Coordinate| a.contains(t) <==> b.contains(t),
    ensures
        a == b,
    decreases a.len() + b.len(),
{
    if a.len() == 0 {
        if b.len() > 0 {
            assert(b.contains(b[0]));
        }
        assert(a =~= b);
    } else if b.len() == 0 {
        assert(a.contains(a[0]));
    } else {
        assert(a.contains(a[0]));
        assert(b.contains(b[0]));
        let j = choose|j: int| 0 <= j < b.len() && b[j] == a[0];
        let i = choose|i: int| 0 <= i < a.len() && a[i] == b[0];
        if j > 0 {
            assert(crate::ebr::building::coord_lt(b[0], b[j]));
            if i > 0 {
                assert(crate::ebr::building::coord_lt(a[0], a[i]));
            }
        }
        assert(a[0] == b[0]);
        let a2 = a.drop_first();
        let b2 = b.drop_first();
        assert forall|t: Coordinate| a2.contains(t) <==> b2.contains(t) by {
            if a2.contains(t) {
                let k = choose|k: int| 0 <= k < a2.len() && a2[k] == t;
                assert(a[k + 1] == t);
                assert(crate::ebr::building::coord_lt(a[0], a[k + 1]));
                assert(a.contains(t));
                let m = choose|m: int| 0 <= m < b.len() && b[m] == t;
                assert(b2[m - 1] == t);
            }
            if b2.contains(t) {
                let k = choose|k: int| 0 <= k < b2.len() && b2[k] == t;
                assert(b[k + 1] == t);
                assert(crate::ebr::building::coord_lt(b[0], b[k + 1]));
                assert(b.contains(t));
                let m = choose|m: int| 0 <= m < a.len() && a[m] == t;
                assert(a2[m - 1] == t);
            }
        }
        lemma_sorted_coords_eq(a2, b2);
        assert(a =~= b) by {
            assert forall|k: int| 0 <= k < a.len() implies a[k] == b[k] by {
                if k > 0 {
                    assert(a[k] == a2[k - 1]);
                }
            }
        }
    }
}

/// Two strictly increasing lists of pairs of companies with the same members
/// are equal.
pub proof fn lemma_sorted_pairs_eq(a: Seq<(Company, Company)>, b: Seq<(Company, Company)>)
    requires
        sorted_pairs(a),
        sorted_pairs(b),
        forall|p: Company, q: Company| a.contains((p, q)) <==> b.contains((p, q)),
    ensures
        a == b,
    decreases a.len() + b.len(),
{
    if a.len() == 0 {
        if b.len() > 0 {
            assert(b.contains((b[0].0, b[0].1)));
        }
        assert(a =~= b);
    } else if b.len() == 0 {
        assert(a.contains((a[0].0, a[0].1)));
    } else {
        assert(a.contains((a[0].0, a[0].1)));
        assert(b.contains((b[0].0, b[0].1)));
        let j = choose|j: int| 0 <= j < b.len() && b[j] == (a[0].0, a[0].1);
        let i = choose|i: int| 0 <= i < a.len() && a[i] == (b[0].0, b[0].1);
        if j > 0 {
            assert(crate::ebr::spec::pair_lt(b[0], b[j]));
            if i > 0 {
                assert(crate::ebr::spec::pair_lt(a[0], a[i]));
            }
        }
        assert(a[0] == b[0]);
        let a2 = a.drop_first();
        let b2 = b.drop_first();
        assert forall|p: Company, q: Company| a2.contains((p, q)) <==> b2.contains((p, q)) by {
            let t = (p, q);
            if a2.contains(t) {
                let k = choose|k: int| 0 <= k < a2.len() && a2[k] == t;
                assert(a[k + 1] == t);
                assert(crate::ebr::spec::pair_lt(a[0], a[k + 1]));
                assert(a.contains(t));
                let m = choose|m: int| 0 <= m < b.len() && b[m] == t;
                assert(b2[m - 1] == t);
            }
            if b2.contains(t) {
                let k = choose|k: int| 0 <= k < b2.len() && b2[k] == t;
                assert(b[k + 1] == t);
                assert(crate::ebr::spec::pair_lt(b[0], b[k + 1]));
                assert(b.contains(t));
                let m = choose|m: int| 0 <= m < a.len() && a[m] == t;
                assert(a2[m - 1] == t);
            }
        }
        lemma_sorted_pairs_eq(a2, b2);
        assert(a =~= b) by {
            assert forall|k: int| 0 <= k < a.len() implies a[k] == b[k] by {
                if k > 0 {
                    assert(a[k] == a2[k - 1]);
                }
            }
        }
    }
}

/// Filtering a list whose items increase keeps them increasing.
pub proof fn lemma_filter_increasing<A>(s: Seq<A>, pred: spec_fn(A) -> bool, lt: spec_fn(A, A) -> bool)
    requires
        forall|i: int, j: int| 0 <= i < j < s.len() ==> #[trigger] lt(s[i], s[j]),
    ensures
        forall|i: int, j: int| 0 <= i < j < s.filter(pred).len() ==> #[trigger] lt(s.filter(pred)[i], s.filter(pred)[j]),
    decreases s.len(),
{
    reveal(Seq::filter);
    if s.len() > 0 {
        let rest = s.drop_last();
        lemma_filter_increasing(rest, pred, lt);
        let f = rest.filter(pred);
        if pred(s.last()) {
            assert(s.filter(pred) == f.push(s.last()));
            assert forall|i: int, j: int| 0 <= i < j < f.push(s.last()).len() implies #[trigger] lt(
                f.push(s.last())[i],
                f.push(s.last())[j],
            ) by {
                if j == f.len() {
                    assert(f.contains(f[i]));
                    rest.lemma_filter_contains_rev(pred, f[i]);
                    let k = choose|k: int| 0 <= k < rest.len() && rest[k] == f[i];
                    assert(lt(s[k], s[s.len() - 1]));
                }
            }
        } else {
            assert(s.filter(pred) == f);
        }
    }
}

proof fn lemma_board_order(i: int, j: int)
    requires
        0 <= i < j,
    ensures
        i / 13 < j / 13 || (i / 13 == j / 13 && i % 13 < j % 13),
{
    assert(i / 13 < j / 13 || (i / 13 == j / 13 && i % 13 < j % 13)) by (nonlinear_arith)
        requires
            0 <= i < j,
    ;
}

/// The board in order increases, and holds every hex of the board.
pub proof fn lemma_board_in_order()
    ensures
        forall|i: int, j: int| 0 <= i < j < board_in_order().len() ==> #[trigger] crate::ebr::building::coord_lt(
            board_in_order()[i],
            board_in_order()[j],
        ),
        forall|t: Coordinate| crate::ebr::board::on_board(t) ==> #[trigger] board_in_order().contains(t),
{
    let b = board_in_order();
    assert forall|i: int, j: int| 0 <= i < j < b.len() implies #[trigger] crate::ebr::building::coord_lt(b[i], b[j]) by {
        lemma_board_order(i, j);
        assert(0 <= i / 13 < 14 && 0 <= j / 13 < 14) by (nonlinear_arith)
            requires
                0 <= i < j < 182,
        ;
        assert(0 <= i % 13 < 13 && 0 <= j % 13 < 13) by (nonlinear_arith)
            requires
                0 <= i < j < 182,
        ;
    }
    assert forall|t: Coordinate| crate::ebr::board::on_board(t) implies #[trigger] b.contains(t) by {
        let k = t.0 * 13 + t.1;
        vstd::arithmetic::div_mod::lemma_fundamental_div_mod_converse(k as int, 13, t.0 as int, t.1 as int);
        assert(0 <= k < 182);
        assert(b[k as int] == t);
    }
}

/// The pairs in order increase, and hold every pair.
pub proof fn lemma_all_pairs()
    ensures
        forall|i: int, j: int| 0 <= i < j < all_pairs().len() ==> #[trigger] crate::ebr::spec::pair_lt(
            all_pairs()[i],
            all_pairs()[j],
        ),
        forall|p: Company, q: Company| #[trigger] all_pairs().contains((p, q)),
{
    let a = all_pairs();
    assert forall|k: int| 0 <= k < 49 implies #[trigger] crate::ebr::spec::pair_key(a[k]) == k by {
        vstd::arithmetic::div_mod::lemma_fundamental_div_mod(k, 7);
        assert(0 <= k / 7 < 7) by (nonlinear_arith)
            requires
                0 <= k < 49,
        ;
        assert(0 <= k % 7 < 7);
    }
    assert forall|i: int, j: int| 0 <= i < j < a.len() implies #[trigger] crate::ebr::spec::pair_lt(a[i], a[j]) by {
        assert(crate::ebr::spec::pair_key(a[i]) == i);
        assert(crate::ebr::spec::pair_key(a[j]) == j);
    }
    assert forall|p: Company, q: Company| #[trigger] a.contains((p, q)) by {
        let k = p.spec_index() * 7 + q.spec_index();
        vstd::arithmetic::div_mod::lemma_fundamental_div_mod_converse(k, 7, p.spec_index(), q.spec_index());
        assert(Company::spec_from_index(p.spec_index()) == p);
        assert(Company::spec_from_index(q.spec_index()) == q);
        assert(a[k] == (p, q));
    }
}

/// Whether some action space of `a` is occupied as `occupied` says.
pub fn space_exists(cubes: &[bool; 11], a: ChoosableAction, occupied: bool) -> (r: bool)
    ensures
        r == has_space(cubes@, a, occupied),
{
    let mut i: usize = 0;
    while i < 11
        invariant
            i <= 11,
            forall|j: int| 0 <= j < i ==> !(cubes@[j] == occupied && #[trigger] crate::ebr::actions::ACTION_CUBE_SPACES@[j] == a),
        decreases 11 - i,
    {
        if cubes[i] == occupied && crate::ebr::actions::ACTION_CUBE_SPACES[i] == a {
            return true;
        }
        i += 1;
    }
    false
}

fn as_build_tracks(hexes: &Vec<Coordinate>) -> (r: Vec<EBRAction>)
    ensures
        r@ == hexes@.map_values(as_build_track()),
{
    let mut r: Vec<EBRAction> = Vec::new();
    let mut i: usize = 0;
    while i < hexes.len()
        invariant
            i <= hexes.len(),
            r.len() == i,
            forall|j: int| 0 <= j < i ==> #[trigger] r@[j] == EBRAction::BuildTrack(hexes@[j]),
        decreases hexes.len() - i,
    {
        r.push(EBRAction::BuildTrack(hexes[i]));
        i += 1;
    }
    assert(r@ =~= hexes@.map_values(as_build_track()));
    r
}

fn as_takes(hexes: &Vec<Coordinate>) -> (r: Vec<EBRAction>)
    ensures
        r@ == hexes@.map_values(as_take()),
{
    let mut r: Vec<EBRAction> = Vec::new();
    let mut i: usize = 0;
    while i < hexes.len()
        invariant
            i <= hexes.len(),
            r.len() == i,
            forall|j: int| 0 <= j < i ==> #[trigger] r@[j] == EBRAction::TakeResources(hexes@[j]),
        decreases hexes.len() - i,
    {
        r.push(EBRAction::TakeResources(hexes[i]));
        i += 1;
    }
    assert(r@ =~= hexes@.map_values(as_take()));
    r
}

fn as_issues(c: Company, bonds: &Vec<Bond>) -> (r: Vec<EBRAction>)
    ensures
        r@ == bonds@.map_values(as_issue(c)),
{
    let mut r: Vec<EBRAction> = Vec::new();
    let mut i: usize = 0;
    while i < bonds.len()
        invariant
            i <= bonds.len(),
            r.len() == i,
            forall|j: int| 0 <= j < i ==> #[trigger] r@[j] == EBRAction::IssueBond(c, bonds@[j]),
        decreases bonds.len() - i,
    {
        r.push(EBRAction::IssueBond(c, bonds[i]));
        i += 1;
    }
    assert(r@ =~= bonds@.map_values(as_issue(c)));
    r
}

fn as_merges(options: &Vec<(Company, Company)>) -> (r: Vec<EBRAction>)
    ensures
        r@ == options@.map_values(as_merge()),
{
    let mut r: Vec<EBRAction> = Vec::new();
    let mut i: usize = 0;
    while i < options.len()
        invariant
            i <= options.len(),
            r.len() == i,
            forall|j: int| 0 <= j < i ==> #[trigger] r@[j] == EBRAction::Merge(options@[j].0, options@[j].1),
        decreases options.len() - i,
    {
        let (p, q) = options[i];
        r.push(EBRAction::Merge(p, q));
        i += 1;
    }
    assert(r@ =~= options@.map_values(as_merge()));
    r
}

impl EBRState {
    /// The bids and passes open in an auction.
    fn auction_actions(&self, initial: bool, current_bid: Option<i64>) -> (r: Vec<EBRAction>)
        requires
            state_wf(self@),
            bounded(self@),
            current_bid matches Some(b) ==> 0 <= b <= crate::ebr::spec::CASH_LIMIT,
        ensures
            r@ == auction_choices(self@, initial, current_bid),
    {
        let ghost v = self@;
        assert(crate::ebr::spec::cash_ok(v.player_cash[v.next_player as int]));
        let cash = self.player_cash[self.next_player as usize];
        let low: i64 = match current_bid {
            Some(b) => b,
            None => -1,
        };
        if low < cash {
            let start: i64 = match current_bid {
                Some(b) => b + 1,
                None => 1,
            };
            let mut r: Vec<EBRAction> = Vec::new();
            let mut b: i64 = start;
            while b <= cash
                invariant
                    start <= b <= cash + 1,
                    cash <= crate::ebr::spec::CASH_LIMIT,
                    r@ =~= Seq::new((b - start) as nat, |i: int| EBRAction::Bid((start + i) as usize)),
                decreases cash + 1 - b,
            {
                r.push(EBRAction::Bid(b as usize));
                b += 1;
            }
            if initial && current_bid.is_none() {
                r.push(EBRAction::Bid(0));
            } else if current_bid.is_some() {
                r.push(EBRAction::Pass);
            }
            r
        } else if initial && current_bid.is_none() {
            vec![EBRAction::Bid(0)]
        } else {
            vec![EBRAction::Pass]
        }
    }

    /// Whether the player to move may put a cube on action `a`.
    fn may_add_cube(&self, a: ChoosableAction) -> (r: bool)
        requires
            state_wf(self@),
            bounded(self@),
            !self.terminal,
        ensures
            r == may_add(self@, a),
    {
        if !space_exists(&self.action_cubes, a, false) {
            return false;
        }
        match a {
            ChoosableAction::Merge => self.can_merge_any(),
            ChoosableAction::BuildTrack => self.can_build_any(),
            ChoosableAction::TakeResources => self.can_take_any(),
            ChoosableAction::IssueBond => self.can_issue_any(),
            ChoosableAction::AuctionShare => self.can_auction_any(),
            ChoosableAction::PayDividend => true,
        }
    }

    /// The cube moves open to the player to move.
    fn move_actions(&self) -> (r: Vec<EBRAction>)
        requires
            state_wf(self@),
            bounded(self@),
            !self.terminal,
        ensures
            r@ == move_choices(self@, 36),
    {
        let mut addable: Vec<bool> = Vec::new();
        let mut i: usize = 0;
        while i < 6
            invariant
                i <= 6,
                state_wf(self@),
                bounded(self@),
                !self.terminal,
                addable.len() == i,
                forall|j: int| 0 <= j < i ==> #[trigger] addable@[j] == may_add(self@, choosable_of(j)),
            decreases 6 - i,
        {
            let ok = self.may_add_cube(ChoosableAction::from_index(i));
            addable.push(ok);
            i += 1;
        }
        let mut r: Vec<EBRAction> = Vec::new();
        let mut k: usize = 0;
        while k < 36
            invariant
                k <= 36,
                addable.len() == 6,
                forall|j: int| 0 <= j < 6 ==> #[trigger] addable@[j] == may_add(self@, choosable_of(j)),
                r@ == move_choices(self@, k as int),
            decreases 36 - k,
        {
            let from = ChoosableAction::from_index(k / 6);
            let to = ChoosableAction::from_index(k % 6);
            if from != to && space_exists(&self.action_cubes, from, true) && addable[k % 6] {
                r.push(EBRAction::MoveCube(from, to));
            }
            k += 1;
        }
        r
    }

    /// The companies the player to move may auction.
    fn auction_company_actions(&self) -> (r: Vec<EBRAction>)
        requires
            state_wf(self@),
            bounded(self@),
            !self.terminal,
        ensures
            r@ == company_choices(auction_pred(self@), as_auction_choice(), 7),
    {
        let cash = self.player_cash[self.next_player as usize];
        let mut r: Vec<EBRAction> = Vec::new();
        let mut i: usize = 0;
        while i < 7
            invariant
                i <= 7,
                state_wf(self@),
                bounded(self@),
                !self.terminal,
                cash == self@.player_cash[self.next_player as int],
                r@ == company_choices(auction_pred(self@), as_auction_choice(), i as int),
            decreases 7 - i,
        {
            let c = Company::from_index(i);
            if self.can_auction(c, cash) {
                r.push(EBRAction::ChooseAuctionCompany(c));
            }
            i += 1;
        }
        r
    }

    /// The companies the player to move may build with.
    fn build_company_actions(&self) -> (r: Vec<EBRAction>)
        requires
            state_wf(self@),
            bounded(self@),
        ensures
            r@ == company_choices(build_pred(self@), as_build_choice(), 7),
    {
        let mut r: Vec<EBRAction> = Vec::new();
        let mut i: usize = 0;
        while i < 7
            invariant
                i <= 7,
                state_wf(self@),
                bounded(self@),
                r@ == company_choices(build_pred(self@), as_build_choice(), i as int),
            decreases 7 - i,
        {
            let c = Company::from_index(i);
            if self.can_build(c, self.next_player) {
                r.push(EBRAction::ChooseBuildCompany(c));
            }
            i += 1;
        }
        r
    }

    /// The companies that may issue a bond for the player to move.
    fn bond_company_actions(&self) -> (r: Vec<EBRAction>)
        requires
            state_wf(self@),
        ensures
            r@ == company_choices(bond_pred(self@), as_bond_choice(), 7),
    {
        let mut r: Vec<EBRAction> = Vec::new();
        let mut i: usize = 0;
        while i < 7
            invariant
                i <= 7,
                state_wf(self@),
                r@ == company_choices(bond_pred(self@), as_bond_choice(), i as int),
            decreases 7 - i,
        {
            let c = Company::from_index(i);
            if self.can_issue(c) {
                r.push(EBRAction::ChooseBondCompany(c));
            }
            i += 1;
        }
        r
    }

    /// Whether some company has its headquarters at `loc`.
    fn hq_at(&self, loc: Coordinate) -> (r: bool)
        requires
            state_wf(self@),
        ensures
            r == hq_taken(self@, loc),
    {
        let mut i: usize = 0;
        while i < 7
            invariant
                i <= 7,
                state_wf(self@),
                forall|j: int| 0 <= j < i ==> #[trigger] self@.company_details[j].hq != Some(loc),
            decreases 7 - i,
        {
            assert(self@.company_details[i as int] == self.company_details@[i as int]@);
            match self.company_details[i].hq {
                Some(h) => {
                    if same_coord(h, loc) {
                        assert(self@.company_details[i as int].hq == Some(loc));
                        return true;
                    }
                },
                None => {},
            }
            i += 1;
        }
        false
    }

    /// The free starting hexes for private `company`.
    fn start_actions(&self, company: Company) -> (r: Vec<EBRAction>)
        requires
            state_wf(self@),
        ensures
            r@ == start_choices(self@, company, 182),
    {
        let mut r: Vec<EBRAction> = Vec::new();
        let mut k: usize = 0;
        while k < 182
            invariant
                k <= 182,
                state_wf(self@),
                r@ == start_choices(self@, company, k as int),
            decreases 182 - k,
        {
            let loc: Coordinate = (k % WIDTH, k / WIDTH);
            assert(loc == hex_of(k as int));
            let t = terrain_at(loc);
            if (t == Terrain::Forest || t == Terrain::Mountain) && !self.hq_at(loc) {
                r.push(EBRAction::StartPrivateAt(company, loc));
            }
            k += 1;
        }
        r
    }

    /// The builds open to `company` after `completed` builds this turn.
    fn build_actions(&self, company: Company, completed: usize) -> (r: Vec<EBRAction>)
        requires
            state_wf(self@),
            bounded(self@),
        ensures
            r@ == build_choices(self@, company, completed),
    {
        let ci = company.index();
        assert(self@.company_details[ci as int] == self.company_details@[ci as int]@);
        let private = self.company_fixed_details[ci].private;
        let out = if private { self.narrow_gauge_remaining == 0 } else { self.company_details[ci].track_remaining == 0 };
        if out {
            return vec![EBRAction::BuildPass];
        }
        let hexes = if private { self.possible_narrow_track(company) } else { self.possible_owned_track(company) };
        proof {
            let v = self@;
            let pred = build_target(v, company);
            let b = build_hexes(v, company);
            lemma_board_in_order();
            lemma_filter_increasing(board_in_order(), pred, |x: Coordinate, y: Coordinate| crate::ebr::building::coord_lt(x, y));
            assert(sorted_coords(b)) by {
                assert forall|i: int, j: int| 0 <= i < j < b.len() implies crate::ebr::building::coord_lt(b[i], b[j]) by {
                    let lt = |x: Coordinate, y: Coordinate| crate::ebr::building::coord_lt(x, y);
                    assert(lt(b[i], b[j]));
                }
            }
            assert forall|t: Coordinate| hexes@.contains(t) <==> b.contains(t) by {
                if hexes@.contains(t) {
                    assert(pred(t));
                    assert(crate::ebr::board::on_board(t));
                    assert(board_in_order().contains(t));
                    let k = choose|k: int| 0 <= k < board_in_order().len() && board_in_order()[k] == t;
                    board_in_order().lemma_filter_contains(pred, k);
                }
                if b.contains(t) {
                    let k = choose|k: int| 0 <= k < b.len() && b[k] == t;
                    board_in_order().lemma_filter_pred(pred, k);
                }
            }
            lemma_sorted_coords_eq(hexes@, b);
        }
        let mut r = as_build_tracks(&hexes);
        if completed > 0 {
            r.push(EBRAction::BuildPass);
        }
        r
    }

    /// The choices of company and deliverer for taking resources.
    fn take_company_actions(&self) -> (r: Vec<EBRAction>)
        requires
            state_wf(self@),
            bounded(self@),
        ensures
            r@ == take_company_choices(self@, 7),
    {
        let mut deliver: Vec<bool> = Vec::new();
        let mut m: usize = 0;
        while m < 7
            invariant
                m <= 7,
                state_wf(self@),
                deliver.len() == m,
                forall|j: int| 0 <= j < m ==> #[trigger] deliver@[j] == delivers(self@, Company::spec_from_index(j)),
            decreases 7 - m,
        {
            let c = Company::from_index(m);
            let d = self.has_port(c) || self.has_town(c);
            deliver.push(d);
            m += 1;
        }
        let mut r: Vec<EBRAction> = Vec::new();
        let mut k: usize = 0;
        while k < 7
            invariant
                k <= 7,
                state_wf(self@),
                bounded(self@),
                deliver.len() == 7,
                forall|j: int| 0 <= j < 7 ==> #[trigger] deliver@[j] == delivers(self@, Company::spec_from_index(j)),
                r@ == take_company_choices(self@, k as int),
            decreases 7 - k,
        {
            let c = Company::from_index(k);
            if self.can_take(c) {
                let mut d: Vec<EBRAction> = Vec::new();
                let mut j: usize = 0;
                while j < 7
                    invariant
                        j <= 7,
                        deliver.len() == 7,
                        forall|i: int| 0 <= i < 7 ==> #[trigger] deliver@[i] == delivers(self@, Company::spec_from_index(i)),
                        d@ == delivery_choices(self@, c, j as int),
                    decreases 7 - j,
                {
                    if deliver[j] {
                        d.push(EBRAction::ChooseTakeResourcesCompany(c, Some(Company::from_index(j))));
                    }
                    j += 1;
                }
                if d.len() > 0 {
                    r.append(&mut d);
                } else {
                    r.push(EBRAction::ChooseTakeResourcesCompany(c, None));
                }
            }
            k += 1;
        }
        r
    }

    /// The actions open to the player to move; none once the game is over.
    pub fn permitted_actions(&self) -> (r: Vec<EBRAction>)
        requires
            state_wf(self@),
            bounded(self@),
        ensures
            r@ == spec_permitted(self@),
    {
        if self.terminal {
            return Vec::new();
        }
        match &self.stage {
            Stage::Auction { initial_auction, current_bid, .. } => self.auction_actions(*initial_auction, *current_bid),
            Stage::ChooseAction => {
                let m = self.move_actions();
                if m.len() == 0 { vec![EBRAction::Stalemate] } else { m }
            },
            Stage::ChooseAuctionCompany => self.auction_company_actions(),
            Stage::ChoosePrivateStart(c) => self.start_actions(*c),
            Stage::ChooseBuildCompany => self.build_company_actions(),
            Stage::BuildTrack { company, completed_builds } => self.build_actions(*company, *completed_builds),
            Stage::ChooseBondCompany => self.bond_company_actions(),
            Stage::ChooseBond(c) => as_issues(*c, &self.unissued_bonds),
            Stage::ChooseMerge => {
                let options = self.merge_options(self.next_player);
                proof {
                    let v = self@;
                    let pl = self.next_player as int;
                    let pred = merge_pred(v, pl);
                    let m = merge_list(v, pl);
                    lemma_all_pairs();
                    lemma_filter_increasing(all_pairs(), pred, |x: (Company, Company), y: (Company, Company)| crate::ebr::spec::pair_lt(x, y));
                    assert(sorted_pairs(m)) by {
                        assert forall|i: int, j: int| 0 <= i < j < m.len() implies crate::ebr::spec::pair_lt(m[i], m[j]) by {
                            let lt = |x: (Company, Company), y: (Company, Company)| crate::ebr::spec::pair_lt(x, y);
                            assert(lt(m[i], m[j]));
                        }
                    }
                    assert forall|p: Company, q: Company| options@.contains((p, q)) <==> m.contains((p, q)) by {
                        if options@.contains((p, q)) {
                            assert(pred((p, q)));
                            assert(all_pairs().contains((p, q)));
                            let k = choose|k: int| 0 <= k < all_pairs().len() && all_pairs()[k] == (p, q);
                            all_pairs().lemma_filter_contains(pred, k);
                        }
                        if m.contains((p, q)) {
                            let k = choose|k: int| 0 <= k < m.len() && m[k] == (p, q);
                            all_pairs().lemma_filter_pred(pred, k);
                        }
                    }
                    lemma_sorted_pairs_eq(options@, m);
                }
                as_merges(&options)
            },
            Stage::ChooseTakeResourcesCompany => self.take_company_actions(),
            Stage::TakeResources { company, taken_resources, .. } => {
                let hexes = self.company_accessible_resources(*company);
                let mut r = as_takes(&hexes);
                if *taken_resources > 0 {
                    r.push(EBRAction::PassTakeResources);
                }
                r
            },
        }
    }
}

} // verus!
