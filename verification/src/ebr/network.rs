use vstd::prelude::*;
use crate::ebr::board::{Coordinate, get_neighbors, spec_neighbors, adjacent, interior, same_coord};
use crate::ebr::company::{Company, COMPANY_COUNT};
use crate::ebr::params::COUNT_LIMIT;
use crate::ebr::state::{EBRState, EBRStateView, Track, TrackType};
use crate::ebr::spec::{
    state_wf, bounded, details, track_of_type_at, track_walk, track_reachable, reachable_narrow,
    spec_connected_to, is_private,
};
use crate::seqs::lemma_unique_within;

verus! {

/// Whether `c` occurs in `v`.
pub fn coord_in(v: &Vec<Coordinate>, c: Coordinate) -> (r: bool)
    ensures
        r == v@.contains(c),
{
    let mut i: usize = 0;
    while i < v.len()
        invariant
            i <= v.len(),
            forall|j: int| 0 <= j < i ==> v@[j] != c,
        decreases v.len() - i,
    {
        if same_coord(v[i], c) {
            return true;
        }
        i += 1;
    }
    false
}

/// Extending a walk by an adjacent hex with narrow gauge track gives a walk.
proof fn lemma_walk_extend(track: Seq<Track>, tt: TrackType, p: Seq<Coordinate>, n: Coordinate)
    requires
        track_walk(track, tt, p),
        adjacent(p.last(), n),
        track_of_type_at(track, n, tt),
    ensures
        track_walk(track, tt, p.push(n)),
        p.push(n)[0] == p[0],
        p.push(n).last() == n,
{
    let q = p.push(n);
    assert forall|i: int| 1 <= i < q.len() implies adjacent(q[i - 1], #[trigger] q[i])
        && track_of_type_at(track, q[i], tt) by {
        if i < p.len() {
            assert(q[i] == p[i] && q[i - 1] == p[i - 1]);
        }
    }
}

/// A set of hexes that holds `from` and every narrow-track neighbour of its
/// members holds every hex that `from` reaches by narrow gauge.
proof fn lemma_closed_contains_reachable(
    track: Seq<Track>,
    tt: TrackType,
    s: Seq<Coordinate>,
    from: Coordinate,
    p: Seq<Coordinate>,
)
    requires
        s.contains(from),
        forall|x: Coordinate, n: Coordinate|
            #[trigger] s.contains(x) && adjacent(x, n) && track_of_type_at(track, n, tt)
                ==> #[trigger] s.contains(n),
        track_walk(track, tt, p),
        p[0] == from,
    ensures
        s.contains(p.last()),
    decreases p.len(),
{
    if p.len() > 1 {
        let q = p.drop_last();
        assert(track_walk(track, tt, q)) by {
            assert forall|i: int| 1 <= i < q.len() implies adjacent(q[i - 1], #[trigger] q[i])
                && track_of_type_at(track, q[i], tt) by {
                assert(q[i] == p[i] && q[i - 1] == p[i - 1]);
            }
        }
        lemma_closed_contains_reachable(track, tt, s, from, q);
        assert(adjacent(p[p.len() - 2], p[p.len() - 1]));
    }
}

/// The hexes a narrow gauge network from `h` can hold: `h` and the hexes with track.
pub open spec fn cand_hexes(track: Seq<Track>, h: Coordinate) -> Seq<Coordinate> {
    track.map_values(|t: Track| t.location).push(h)
}

pub open spec fn good(track: Seq<Track>, tt: TrackType, h: Coordinate, cands: Seq<Coordinate>, x: Coordinate) -> bool {
    track_reachable(track, tt, h, x) && interior(x) && cands.contains(x)
}

pub open spec fn all_good(track: Seq<Track>, tt: TrackType, h: Coordinate, cands: Seq<Coordinate>, s: Seq<Coordinate>) -> bool {
    forall|i: int| 0 <= i < s.len() ==> good(track, tt, h, cands, #[trigger] s[i])
}

pub open spec fn disjoint(a: Seq<Coordinate>, b: Seq<Coordinate>) -> bool {
    forall|x: Coordinate| !(a.contains(x) && b.contains(x))
}

/// Every narrow-track neighbour of a hex of `visited` is in `visited` or `frontier`.
pub open spec fn closed_over(track: Seq<Track>, tt: TrackType, visited: Seq<Coordinate>, frontier: Seq<Coordinate>) -> bool {
    forall|x: Coordinate, n: Coordinate|
        #[trigger] visited.contains(x) && adjacent(x, n) && track_of_type_at(track, n, tt)
            ==> visited.contains(n) || #[trigger] frontier.contains(n)
}

/// Moving the last hex of the frontier to the visited list keeps both lists
/// free of repeats, apart, and made of reachable hexes.
proof fn lemma_pop_visit(
    track: Seq<Track>,
    tt: TrackType,
    h: Coordinate,
    cands: Seq<Coordinate>,
    old_visited: Seq<Coordinate>,
    old_to_visit: Seq<Coordinate>,
)
    requires
        old_to_visit.len() > 0,
        old_visited.no_duplicates(),
        old_to_visit.no_duplicates(),
        disjoint(old_visited, old_to_visit),
        all_good(track, tt, h, cands, old_visited),
        all_good(track, tt, h, cands, old_to_visit),
    ensures
        ({
            let coord = old_to_visit.last();
            let nv = old_visited.push(coord);
            let nt = old_to_visit.drop_last();
            &&& nv.no_duplicates()
            &&& nt.no_duplicates()
            &&& disjoint(nv, nt)
            &&& all_good(track, tt, h, cands, nv)
            &&& all_good(track, tt, h, cands, nt)
            &&& good(track, tt, h, cands, coord)
            &&& interior(coord)
            &&& track_reachable(track, tt, h, coord)
            &&& nv.len() <= cands.len()
        }),
{
    let coord = old_to_visit.last();
    let nv = old_visited.push(coord);
    let nt = old_to_visit.drop_last();
    assert(good(track, tt, h, cands, old_to_visit[old_to_visit.len() - 1]));
    assert(!old_visited.contains(coord)) by {
        assert(old_to_visit.contains(coord)) by { assert(old_to_visit[old_to_visit.len() - 1] == coord); }
    }
    assert(all_good(track, tt, h, cands, nt)) by {
        assert forall|i: int| 0 <= i < nt.len() implies good(track, tt, h, cands, #[trigger] nt[i]) by {
            assert(nt[i] == old_to_visit[i]);
        }
    }
    assert(nt.no_duplicates()) by {
        assert forall|i: int, j: int| 0 <= i < j < nt.len() implies nt[i] != nt[j] by {
            assert(nt[i] == old_to_visit[i] && nt[j] == old_to_visit[j]);
        }
    }
    assert(nv.no_duplicates()) by {
        assert forall|i: int, j: int| 0 <= i < j < nv.len() implies nv[i] != nv[j] by {
            if j == nv.len() - 1 {
                assert(old_visited.contains(nv[i])) by { assert(old_visited[i] == nv[i]); }
            }
        }
    }
    assert(all_good(track, tt, h, cands, nv)) by {
        assert forall|i: int| 0 <= i < nv.len() implies good(track, tt, h, cands, #[trigger] nv[i]) by {
            if i < old_visited.len() {
                assert(nv[i] == old_visited[i]);
            }
        }
    }
    assert(disjoint(nv, nt)) by {
        assert forall|x: Coordinate| !(nv.contains(x) && nt.contains(x)) by {
            if nv.contains(x) && nt.contains(x) {
                let i = choose|i: int| 0 <= i < nt.len() && nt[i] == x;
                assert(old_to_visit[i] == x);
                assert(old_to_visit.contains(x));
                if x != coord {
                    let j = choose|j: int| 0 <= j < nv.len() && nv[j] == x;
                    assert(j != nv.len() - 1);
                    assert(old_visited[j] == x);
                    assert(old_visited.contains(x));
                    assert(false);
                } else {
                    assert(old_to_visit[old_to_visit.len() - 1] == coord);
                    assert(i != old_to_visit.len() - 1);
                    assert(false);
                }
            }
        }
    }
    assert forall|i: int| 0 <= i < nv.len() implies cands.contains(#[trigger] nv[i]) by {
        assert(good(track, tt, h, cands, nv[i]));
    }
    lemma_unique_within(nv, cands);
}

/// After the last hex of the frontier is visited and its narrow-track
/// neighbours are added, every visited hex again has its narrow-track
/// neighbours visited or in the frontier.
proof fn lemma_closure_step(
    track: Seq<Track>,
    tt: TrackType,
    h: Coordinate,
    old_visited: Seq<Coordinate>,
    old_to_visit: Seq<Coordinate>,
    new_to_visit: Seq<Coordinate>,
)
    requires
        old_to_visit.len() > 0,
        closed_over(track, tt, old_visited, old_to_visit),
        old_visited.contains(h) || old_to_visit.contains(h),
        forall|x: Coordinate| old_to_visit.drop_last().contains(x) ==> #[trigger] new_to_visit.contains(x),
        forall|n: Coordinate|
            adjacent(old_to_visit.last(), n) && track_of_type_at(track, n, tt)
                ==> old_visited.push(old_to_visit.last()).contains(n) || #[trigger] new_to_visit.contains(n),
    ensures
        closed_over(track, tt, old_visited.push(old_to_visit.last()), new_to_visit),
        old_visited.push(old_to_visit.last()).contains(h) || new_to_visit.contains(h),
{
    let coord = old_to_visit.last();
    let nv = old_visited.push(coord);
    let mid = old_to_visit.drop_last();
    assert forall|x: Coordinate| old_to_visit.contains(x) implies nv.contains(x) || new_to_visit.contains(x) by {
        let k = choose|k: int| 0 <= k < old_to_visit.len() && old_to_visit[k] == x;
        if k == old_to_visit.len() - 1 {
            assert(nv[nv.len() - 1] == x);
        } else {
            assert(mid[k] == x);
            assert(mid.contains(x));
        }
    }
    assert forall|x: Coordinate| old_visited.contains(x) implies nv.contains(x) by {
        let k = choose|k: int| 0 <= k < old_visited.len() && old_visited[k] == x;
        assert(nv[k] == x);
    }
    assert forall|x: Coordinate, n: Coordinate|
        #[trigger] nv.contains(x) && adjacent(x, n) && track_of_type_at(track, n, tt)
        implies nv.contains(n) || #[trigger] new_to_visit.contains(n) by {
        if x != coord {
            let j = choose|j: int| 0 <= j < nv.len() && nv[j] == x;
            assert(old_visited[j] == x);
            assert(old_visited.contains(x));
        }
    }
}

/// A finished search holds exactly the hexes that `h` reaches by track of
/// type `tt`.
proof fn lemma_bfs_done(
    track: Seq<Track>,
    tt: TrackType,
    h: Coordinate,
    cands: Seq<Coordinate>,
    visited: Seq<Coordinate>,
)
    requires
        all_good(track, tt, h, cands, visited),
        closed_over(track, tt, visited, Seq::empty()),
        visited.contains(h) || Seq::<Coordinate>::empty().contains(h),
    ensures
        forall|x: Coordinate| visited.contains(x) <==> track_reachable(track, tt, h, x),
        forall|i: int| 0 <= i < visited.len() ==> interior(#[trigger] visited[i]),
{
    assert forall|x: Coordinate, n: Coordinate|
        #[trigger] visited.contains(x) && adjacent(x, n) && track_of_type_at(track, n, tt)
        implies #[trigger] visited.contains(n) by {
        assert(!Seq::<Coordinate>::empty().contains(n));
    }
    assert forall|x: Coordinate| track_reachable(track, tt, h, x) implies visited.contains(x) by {
        let p = choose|p: Seq<Coordinate>| #[trigger] track_walk(track, tt, p) && p[0] == h && p.last() == x;
        lemma_closed_contains_reachable(track, tt, visited, h, p);
    }
    assert forall|x: Coordinate| visited.contains(x) implies track_reachable(track, tt, h, x) by {
        let j = choose|j: int| 0 <= j < visited.len() && visited[j] == x;
        assert(good(track, tt, h, cands, visited[j]));
    }
    assert forall|i: int| 0 <= i < visited.len() implies interior(#[trigger] visited[i]) by {
        assert(good(track, tt, h, cands, visited[i]));
    }
}

impl EBRState {
    /// Whether there is track of type `tt` at `loc`.
    pub fn has_track_at(&self, loc: Coordinate, tt: TrackType) -> (r: bool)
        ensures
            r == track_of_type_at(self@.track, loc, tt),
    {
        let mut i: usize = 0;
        while i < self.track.len()
            invariant
                i <= self.track.len(),
                forall|j: int|
                    0 <= j < i ==> !(#[trigger] self@.track[j].location == loc && self@.track[j].track_type
                        == tt),
            decreases self.track.len() - i,
        {
            let t = self.track[i];
            if same_coord(t.location, loc) && t.track_type == tt {
                return true;
            }
            i += 1;
        }
        false
    }

    /// Appends to `to_visit` each narrow-track neighbour of `coord` that is in
    /// neither list.
    fn push_track_neighbors(
        &self,
        tt: TrackType,
        coord: Coordinate,
        visited: &Vec<Coordinate>,
        to_visit: &mut Vec<Coordinate>,
        Ghost(h): Ghost<Coordinate>,
        Ghost(cands): Ghost<Seq<Coordinate>>,
    )
        requires
            state_wf(self@),
            cands == cand_hexes(self@.track, h),
            interior(coord),
            track_reachable(self@.track, tt, h, coord),
            old(to_visit)@.no_duplicates(),
            all_good(self@.track, tt, h, cands, old(to_visit)@),
            disjoint(visited@, old(to_visit)@),
        ensures
            final(to_visit)@.no_duplicates(),
            all_good(self@.track, tt, h, cands, final(to_visit)@),
            disjoint(visited@, final(to_visit)@),
            forall|x: Coordinate| old(to_visit)@.contains(x) ==> #[trigger] final(to_visit)@.contains(x),
            forall|n: Coordinate|
                adjacent(coord, n) && track_of_type_at(self@.track, n, tt)
                    ==> visited@.contains(n) || #[trigger] final(to_visit)@.contains(n),
    {
        let ghost track = self@.track;
        let neighbors = get_neighbors(coord);
        let ghost pc = choose|p: Seq<Coordinate>| #[trigger] track_walk(track, tt, p) && p[0] == h && p.last() == coord;
        let ghost start = to_visit@;
        let mut k: usize = 0;
        while k < 6
            invariant
                state_wf(self@),
                track == self@.track,
                cands == cand_hexes(track, h),
                k <= 6,
                neighbors@ == spec_neighbors(coord),
                track_walk(track, tt, pc) && pc[0] == h && pc.last() == coord,
                to_visit@.no_duplicates(),
                all_good(track, tt, h, cands, to_visit@),
                disjoint(visited@, to_visit@),
                forall|x: Coordinate| start.contains(x) ==> #[trigger] to_visit@.contains(x),
                forall|j: int|
                    0 <= j < k && track_of_type_at(track, #[trigger] spec_neighbors(coord)[j], tt)
                        ==> visited@.contains(spec_neighbors(coord)[j]) || to_visit@.contains(spec_neighbors(coord)[j]),
            decreases 6 - k,
        {
            let n = neighbors[k];
            if !coord_in(visited, n) && !coord_in(to_visit, n) && self.has_track_at(n, tt) {
                proof {
                    assert(adjacent(coord, n)) by { assert(spec_neighbors(coord)[k as int] == n); }
                    lemma_walk_extend(track, tt, pc, n);
                    assert(track_reachable(track, tt, h, n));
                    let i = choose|i: int| 0 <= i < track.len() && #[trigger] track[i].location == n
                        && track[i].track_type == tt;
                    assert(interior(track[i].location));
                    assert(cands[i] == n);
                }
                let ghost before = to_visit@;
                to_visit.push(n);
                proof {
                    assert(to_visit@.no_duplicates()) by {
                        assert forall|i: int, j: int| 0 <= i < j < to_visit@.len() implies to_visit@[i] != to_visit@[j] by {
                            if j == to_visit@.len() - 1 {
                                assert(before.contains(to_visit@[i]));
                            }
                        }
                    }
                    assert forall|x: Coordinate| start.contains(x) implies #[trigger] to_visit@.contains(x) by {
                        assert(before.contains(x));
                        let i = choose|i: int| 0 <= i < before.len() && before[i] == x;
                        assert(to_visit@[i] == x);
                    }
                    assert forall|x: Coordinate| !(visited@.contains(x) && to_visit@.contains(x)) by {
                        if to_visit@.contains(x) && x != n {
                            let i = choose|i: int| 0 <= i < to_visit@.len() && to_visit@[i] == x;
                            assert(before.contains(x)) by { assert(before[i] == x); }
                        }
                    }
                    assert forall|j: int|
                        0 <= j < k + 1 && track_of_type_at(track, #[trigger] spec_neighbors(coord)[j], tt)
                        implies visited@.contains(spec_neighbors(coord)[j]) || to_visit@.contains(spec_neighbors(coord)[j]) by {
                        if j < k && to_visit@.len() > 0 && before.contains(spec_neighbors(coord)[j]) {
                            let i = choose|i: int| 0 <= i < before.len() && before[i] == spec_neighbors(coord)[j];
                            assert(to_visit@[i] == spec_neighbors(coord)[j]);
                        }
                        if j == k {
                            assert(to_visit@[to_visit@.len() - 1] == n);
                        }
                    }
                }
            }
            k += 1;
        }
        proof {
            assert forall|n: Coordinate|
                adjacent(coord, n) && track_of_type_at(track, n, tt)
                implies visited@.contains(n) || #[trigger] to_visit@.contains(n) by {
                let j = choose|j: int| 0 <= j < 6 && spec_neighbors(coord)[j] == n;
            }
        }
    }

    /// The hexes that `h` reaches by track of type `tt`, `h` included, each
    /// once.
    pub(crate) fn track_network(&self, h: Coordinate, tt: TrackType) -> (r: Vec<Coordinate>)
        requires
            state_wf(self@),
            bounded(self@),
            interior(h),
        ensures
            r@.no_duplicates(),
            forall|x: Coordinate| r@.contains(x) <==> track_reachable(self@.track, tt, h, x),
            forall|i: int| 0 <= i < r.len() ==> interior(#[trigger] r@[i]),
            r.len() <= self.track.len() + 1,
    {
        let ghost track = self@.track;
        let ghost cands = cand_hexes(track, h);
        let mut visited: Vec<Coordinate> = Vec::new();
        let mut to_visit: Vec<Coordinate> = Vec::new();
        to_visit.push(h);
        proof {
            assert(track_walk(track, tt, seq![h]));
            assert(cands[cands.len() - 1] == h);
            assert(good(track, tt, h, cands, h));
            assert(to_visit@[0] == h);
        }
        while to_visit.len() > 0
            invariant
                state_wf(self@),
                bounded(self@),
                track == self@.track,
                cands == cand_hexes(track, h),
                visited@.no_duplicates(),
                to_visit@.no_duplicates(),
                disjoint(visited@, to_visit@),
                visited@.contains(h) || to_visit@.contains(h),
                all_good(track, tt, h, cands, visited@),
                all_good(track, tt, h, cands, to_visit@),
                closed_over(track, tt, visited@, to_visit@),
                visited.len() <= cands.len(),
                cands.len() == track.len() + 1,
            decreases cands.len() - visited.len(),
        {
            let ghost old_visited = visited@;
            let ghost old_to_visit = to_visit@;
            let coord = to_visit.pop().unwrap();
            visited.push(coord);
            proof {
                lemma_pop_visit(track, tt, h, cands, old_visited, old_to_visit);
            }
            self.push_track_neighbors(tt, coord, &visited, &mut to_visit, Ghost(h), Ghost(cands));
            proof {
                lemma_closure_step(track, tt, h, old_visited, old_to_visit, to_visit@);
            }
        }
        proof {
            assert(to_visit@ =~= Seq::<Coordinate>::empty());
            lemma_bfs_done(track, tt, h, cands, visited@);
        }
        visited
    }

    /// The hexes joined to the headquarters of `company` by narrow gauge
    /// track, headquarters included, each once; none without headquarters.
    pub fn reachable_narrow_track(&self, company: Company) -> (r: Vec<Coordinate>)
        requires
            state_wf(self@),
            bounded(self@),
        ensures
            r@.no_duplicates(),
            forall|x: Coordinate| r@.contains(x) <==> reachable_narrow(self@, company).contains(x),
            forall|i: int| 0 <= i < r.len() ==> interior(#[trigger] r@[i]),
            r.len() <= self.track.len() + 1,
    {
        let hq = self.company_details[company.index()].hq;
        assert(self@.company_details[company.spec_index()] == self.company_details@[company.spec_index()]@);
        match hq {
            None => Vec::new(),
            Some(h) => {
                assert(details(self@, company).hq == Some(h));
                self.track_network(h, TrackType::Narrow)
            },
        }
    }

    /// Whether the narrow gauge network of `private_co` touches track of `public_co`.
    pub fn connected_to(&self, private_co: Company, public_co: Company) -> (r: bool)
        requires
            state_wf(self@),
            bounded(self@),
        ensures
            r == spec_connected_to(self@, private_co, public_co),
    {
        let reach = self.reachable_narrow_track(private_co);
        let tt = TrackType::CompanyOwned(public_co);
        let mut i: usize = 0;
        while i < reach.len()
            invariant
                i <= reach.len(),
                state_wf(self@),
                tt == TrackType::CompanyOwned(public_co),
                forall|x: Coordinate| reach@.contains(x) <==> reachable_narrow(self@, private_co).contains(x),
                forall|j: int| 0 <= j < reach.len() ==> interior(#[trigger] reach@[j]),
                forall|j: int, n: Coordinate|
                    0 <= j < i && #[trigger] adjacent(reach@[j], n) ==> !track_of_type_at(self@.track, n, tt),
            decreases reach.len() - i,
        {
            let x = reach[i];
            assert(interior(reach@[i as int]));
            let neighbors = get_neighbors(x);
            let mut k: usize = 0;
            while k < 6
                invariant
                    k <= 6,
                    tt == TrackType::CompanyOwned(public_co),
                    i < reach.len(),
                    x == reach@[i as int],
                    forall|x: Coordinate| reach@.contains(x) <==> reachable_narrow(self@, private_co).contains(x),
                    neighbors@ == spec_neighbors(x),
                    forall|m: int| 0 <= m < k ==> !track_of_type_at(self@.track, #[trigger] spec_neighbors(x)[m], tt),
                decreases 6 - k,
            {
                if self.has_track_at(neighbors[k], tt) {
                    proof {
                        assert(reach@.contains(x)) by { assert(reach@[i as int] == x); }
                        assert(adjacent(x, neighbors[k as int]));
                        assert(reachable_narrow(self@, private_co).contains(x));
                        let n = neighbors@[k as int];
                        assert(track_of_type_at(self@.track, n, TrackType::CompanyOwned(public_co)));
                        assert(reachable_narrow(self@, private_co).contains(x) && adjacent(x, n)
                            && track_of_type_at(self@.track, n, TrackType::CompanyOwned(public_co)));
                    }
                    return true;
                }
                k += 1;
            }
            proof {
                assert forall|j: int, n: Coordinate|
                    0 <= j < i + 1 && #[trigger] adjacent(reach@[j], n) implies !track_of_type_at(self@.track, n, tt) by {
                    if j == i {
                        let m = choose|m: int| 0 <= m < 6 && spec_neighbors(x)[m] == n;
                    }
                }
            }
            i += 1;
        }
        proof {
            assert forall|x: Coordinate, n: Coordinate|
                #[trigger] reachable_narrow(self@, private_co).contains(x) && #[trigger] adjacent(x, n)
                implies !track_of_type_at(self@.track, n, tt) by {
                assert(reach@.contains(x));
                let j = choose|j: int| 0 <= j < reach.len() && reach@[j] == x;
            }
        }
        false
    }

    /// The public companies whose track the narrow gauge network of
    /// `private_co` touches, in company order.
    pub fn connected_majors(&self, private_co: Company) -> (r: Vec<Company>)
        requires
            state_wf(self@),
            bounded(self@),
        ensures
            r@ == Seq::new(7, |i: int| Company::spec_from_index(i)).filter(
                |c: Company| !is_private(self@, c) && spec_connected_to(self@, private_co, c),
            ),
    {
        let ghost all = Seq::new(7, |i: int| Company::spec_from_index(i));
        let ghost pred = |c: Company| !is_private(self@, c) && spec_connected_to(self@, private_co, c);
        let mut r: Vec<Company> = Vec::new();
        let mut i: usize = 0;
        while i < COMPANY_COUNT
            invariant
                i <= COMPANY_COUNT,
                state_wf(self@),
                bounded(self@),
                all == Seq::new(7, |i: int| Company::spec_from_index(i)),
                pred == (|c: Company| !is_private(self@, c) && spec_connected_to(self@, private_co, c)),
                r@ == all.take(i as int).filter(pred),
            decreases COMPANY_COUNT - i,
        {
            let c = Company::from_index(i);
            assert(all.take(i + 1).drop_last() =~= all.take(i as int));
            assert(all.take(i + 1).last() == c);
            proof { reveal_with_fuel(Seq::<_>::filter, 1); }
            if !self.company_fixed_details[i].private && self.connected_to(private_co, c) {
                r.push(c);
            }
            i += 1;
        }
        assert(all.take(7) =~= all);
        r
    }
}

} // verus!
