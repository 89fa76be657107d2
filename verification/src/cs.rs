//! Can't Stop: roll four dice, pair them up, and climb the columns of the
//! pairs' sums; stop to keep the climb, or bust and lose it. Three claimed
//! columns win.

use vstd::prelude::*;
use vstd::multiset::Multiset;
use linked_hash_set::LinkedHashSet;
use crate::actor::Actor;

verus! {

/// The number of columns, for the sums 2 to 12.
pub const COLUMN_COUNT: usize = 11;

/// The number of ordered rolls of four dice.
pub const ROLL_COUNT: usize = 1296;

#[derive(Copy, Clone, PartialEq, Eq, Hash, Debug, Structural)]
pub enum CSAction {
    DiceRoll(u8, u8, u8, u8),
    Move(u8, Option<u8>),
    Roll,
    Done,
}

/// A position. `positions[p][c - 2]` is how far player `p` has climbed
/// column `c`; `temp_position` holds this turn's climb, `claimed_columns`
/// the owner of each claimed column, and `locked_in_columns` the columns
/// climbed this turn (no column twice).
#[derive(Debug)]
pub struct CSState {
    pub dice_next: bool,
    pub locked_in_columns: Vec<u8>,
    pub last_roll: Option<(u8, u8, u8, u8)>,
    pub next_player: u8,
    pub positions: Vec<[u8; COLUMN_COUNT]>,
    pub temp_position: [Option<u8>; COLUMN_COUNT],
    pub claimed_columns: [Option<u8>; COLUMN_COUNT],
    pub player_count: u8,
}

pub struct CSStateView {
    pub dice_next: bool,
    pub locked: Seq<u8>,
    pub last_roll: Option<(u8, u8, u8, u8)>,
    pub next_player: u8,
    pub positions: Seq<Seq<u8>>,
    pub temp: Seq<Option<u8>>,
    pub claimed: Seq<Option<u8>>,
    pub player_count: u8,
}

impl View for CSState {
    type V = CSStateView;

    open spec fn view(&self) -> CSStateView {
        CSStateView {
            dice_next: self.dice_next,
            locked: self.locked_in_columns@,
            last_roll: self.last_roll,
            next_player: self.next_player,
            positions: self.positions@.map_values(|p: [u8; COLUMN_COUNT]| p@),
            temp: self.temp_position@,
            claimed: self.claimed_columns@,
            player_count: self.player_count,
        }
    }
}

fn copy_bytes(v: &Vec<u8>) -> (r: Vec<u8>)
    ensures
        r@ == v@,
{
    let mut r: Vec<u8> = Vec::new();
    let mut i: usize = 0;
    while i < v.len()
        invariant
            i <= v.len(),
            r@ == v@.take(i as int),
        decreases v.len() - i,
    {
        r.push(v[i]);
        i += 1;
        assert(r@ =~= v@.take(i as int));
    }
    assert(v@.take(v.len() as int) =~= v@);
    r
}

fn copy_positions(v: &Vec<[u8; COLUMN_COUNT]>) -> (r: Vec<[u8; COLUMN_COUNT]>)
    ensures
        r@ == v@,
{
    let mut r: Vec<[u8; COLUMN_COUNT]> = Vec::new();
    let mut i: usize = 0;
    while i < v.len()
        invariant
            i <= v.len(),
            r@ == v@.take(i as int),
        decreases v.len() - i,
    {
        r.push(v[i]);
        i += 1;
        assert(r@ =~= v@.take(i as int));
    }
    assert(v@.take(v.len() as int) =~= v@);
    r
}

impl Clone for CSState {
    fn clone(&self) -> (r: Self)
        ensures
            r@ == self@,
    {
        CSState {
            dice_next: self.dice_next,
            locked_in_columns: copy_bytes(&self.locked_in_columns),
            last_roll: self.last_roll,
            next_player: self.next_player,
            positions: copy_positions(&self.positions),
            temp_position: self.temp_position,
            claimed_columns: self.claimed_columns,
            player_count: self.player_count,
        }
    }
}

/// The height of column `c`.
pub open spec fn column_len(c: int) -> int {
    if c == 2 || c == 12 {
        3
    } else if c == 3 || c == 11 {
        5
    } else if c == 4 || c == 10 {
        7
    } else if c == 5 || c == 9 {
        9
    } else if c == 6 || c == 8 {
        11
    } else {
        13
    }
}

pub fn column_length(c: u8) -> (r: u8)
    requires
        2 <= c <= 12,
    ensures
        r == column_len(c as int),
{
    if c == 2 || c == 12 {
        3
    } else if c == 3 || c == 11 {
        5
    } else if c == 4 || c == 10 {
        7
    } else if c == 5 || c == 9 {
        9
    } else if c == 6 || c == 8 {
        11
    } else {
        13
    }
}

pub open spec fn is_die(d: u8) -> bool {
    1 <= d <= 6
}

/// The structural invariant: one row of positions per player, the player to
/// move among them, columns climbed this turn distinct and real, and a
/// roll made of dice.
pub open spec fn cs_wf(v: CSStateView) -> bool {
    &&& v.player_count >= 1
    &&& v.positions.len() == v.player_count
    &&& forall|p: int| 0 <= p < v.positions.len() ==> (#[trigger] v.positions[p]).len() == COLUMN_COUNT
    &&& v.next_player < v.player_count
    &&& v.temp.len() == COLUMN_COUNT
    &&& v.claimed.len() == COLUMN_COUNT
    &&& v.locked.no_duplicates()
    &&& forall|i: int| 0 <= i < v.locked.len() ==> 2 <= #[trigger] v.locked[i] <= 12
    &&& (v.last_roll matches Some((a, b, c, d)) ==> is_die(a) && is_die(b) && is_die(c) && is_die(d))
}

// ---------------------------------------------------------------------------
// The dice
// ---------------------------------------------------------------------------

/// A four-dice roll in ascending order.
pub open spec fn sorted4(t: (u8, u8, u8, u8)) -> bool {
    t.0 <= t.1 <= t.2 <= t.3
}

/// The values of a roll as a multiset.
pub open spec fn roll_bag(t: (u8, u8, u8, u8)) -> Multiset<u8> {
    Multiset::empty().insert(t.0).insert(t.1).insert(t.2).insert(t.3)
}

/// Sorts the four dice of a roll.
pub fn sort_roll(t: (u8, u8, u8, u8)) -> (r: (u8, u8, u8, u8))
    ensures
        sorted4(r),
        roll_bag(r) == roll_bag(t),
{
    let (mut a, mut b, mut c, mut d) = t;
    proof {
        broadcast use vstd::multiset::group_multiset_axioms;
    }
    if a > b {
        let x = a;
        a = b;
        b = x;
    }
    if c > d {
        let x = c;
        c = d;
        d = x;
    }
    if a > c {
        let x = a;
        a = c;
        c = x;
    }
    if b > d {
        let x = b;
        b = d;
        d = x;
    }
    if b > c {
        let x = b;
        b = c;
        c = x;
    }
    proof {
        broadcast use vstd::multiset::group_multiset_axioms;
        assert(roll_bag((a, b, c, d)) =~= roll_bag(t));
    }
    (a, b, c, d)
}

/// The ordered roll with number `k`: its dice are the base-6 digits of `k`.
pub open spec fn ordered_roll(k: int) -> (u8, u8, u8, u8) {
    ((k / 216 + 1) as u8, ((k / 36) % 6 + 1) as u8, ((k / 6) % 6 + 1) as u8, (k % 6 + 1) as u8)
}

/// The slot of a sorted roll in a table of `6 ^ 4` entries.
pub open spec fn roll_key(t: (u8, u8, u8, u8)) -> int {
    (t.0 - 1) * 216 + (t.1 - 1) * 36 + (t.2 - 1) * 6 + (t.3 - 1)
}

/// The roll in slot `k` of the table.
pub open spec fn roll_of_key(k: int) -> (u8, u8, u8, u8) {
    ordered_roll(k)
}

/// The number of ordered rolls among the first `n` whose dice, sorted, are
/// `t`.
pub open spec fn ways(t: (u8, u8, u8, u8), n: int) -> int
    decreases n,
{
    if n <= 0 {
        0
    } else {
        ways(t, n - 1) + if roll_bag(ordered_roll(n - 1)) == roll_bag(t) { 1int } else { 0int }
    }
}

/// The dice rolls among the first `k` table slots that some ordered roll
/// gives, each with the number of ordered rolls that give it.
pub open spec fn dice_choices(k: int) -> Seq<(CSAction, u32)>
    decreases k,
{
    if k <= 0 {
        Seq::empty()
    } else {
        let t = roll_of_key(k - 1);
        dice_choices(k - 1) + if sorted4(t) && ways(t, ROLL_COUNT as int) > 0 {
            seq![(CSAction::DiceRoll(t.0, t.1, t.2, t.3), ways(t, ROLL_COUNT as int) as u32)]
        } else {
            Seq::empty()
        }
    }
}

proof fn lemma_digits(k: int)
    requires
        0 <= k < 1296,
    ensures
        ordered_roll(k).0 as int == k / 216 + 1,
        ordered_roll(k).1 as int == (k / 36) % 6 + 1,
        ordered_roll(k).2 as int == (k / 6) % 6 + 1,
        ordered_roll(k).3 as int == k % 6 + 1,
        1 <= k / 216 + 1 <= 6,
        roll_key(ordered_roll(k)) == k,
{
    assert(0 <= k / 216 < 6) by (nonlinear_arith)
        requires
            0 <= k < 1296,
    ;
    assert(0 <= (k / 36) % 6 < 6) by (nonlinear_arith)
        requires
            0 <= k,
    ;
    assert(0 <= (k / 6) % 6 < 6) by (nonlinear_arith)
        requires
            0 <= k,
    ;
    assert(0 <= k % 6 < 6) by (nonlinear_arith)
        requires
            0 <= k,
    ;
    assert((k / 216) * 216 + ((k / 36) % 6) * 36 + ((k / 6) % 6) * 6 + k % 6 == k) by (nonlinear_arith)
        requires
            0 <= k,
    ;
}

/// The sum of the first `k` counts.
pub open spec fn count_sum(s: Seq<u32>, k: int) -> int
    decreases k,
{
    if k <= 0 {
        0
    } else {
        count_sum(s, k - 1) + s[k - 1]
    }
}

/// The sum of the weights of a weighted list.
pub open spec fn weight_sum(s: Seq<(CSAction, u32)>) -> int
    decreases s.len(),
{
    if s.len() == 0 {
        0
    } else {
        weight_sum(s.drop_last()) + s.last().1
    }
}

proof fn lemma_count_sum_update(s: Seq<u32>, i: int, x: u32, k: int)
    requires
        0 <= i < s.len(),
        0 <= k <= s.len(),
    ensures
        count_sum(s.update(i, x), k) == count_sum(s, k) + if i < k { x - s[i] } else { 0 },
    decreases k,
{
    if k > 0 {
        lemma_count_sum_update(s, i, x, k - 1);
    }
}

/// The slot of a roll of dice names that roll.
proof fn lemma_key_roll(t: (u8, u8, u8, u8))
    requires
        is_die(t.0),
        is_die(t.1),
        is_die(t.2),
        is_die(t.3),
    ensures
        0 <= roll_key(t) < 1296,
        ordered_roll(roll_key(t)) == t,
{
    let a = t.0 - 1;
    let b = t.1 - 1;
    let c = t.2 - 1;
    let d = t.3 - 1;
    let k = roll_key(t);
    vstd::arithmetic::div_mod::lemma_fundamental_div_mod_converse(k, 216, a, b * 36 + c * 6 + d);
    vstd::arithmetic::div_mod::lemma_fundamental_div_mod_converse(k, 36, a * 6 + b, c * 6 + d);
    vstd::arithmetic::div_mod::lemma_fundamental_div_mod_converse(a * 6 + b, 6, a, b);
    vstd::arithmetic::div_mod::lemma_fundamental_div_mod_converse(k, 6, a * 36 + b * 6 + c, d);
    vstd::arithmetic::div_mod::lemma_fundamental_div_mod_converse(a * 36 + b * 6 + c, 6, a * 6 + b, c);
}

/// One more ordered roll, whose dice sorted are `s`, adds one way to `s`
/// and none to any other sorted roll.
proof fn lemma_ways_step(t: (u8, u8, u8, u8), n: int, s: (u8, u8, u8, u8))
    requires
        0 <= n,
        sorted4(s),
        sorted4(t),
        roll_bag(s) == roll_bag(ordered_roll(n)),
    ensures
        ways(t, n + 1) == ways(t, n) + if t == s { 1int } else { 0int },
{
    if roll_bag(ordered_roll(n)) == roll_bag(t) {
        lemma_sorted_bag_unique(s, t);
    }
}

/// The dice of a sorted roll of dice lie between the smallest and largest.
proof fn lemma_sorted_dice(s: (u8, u8, u8, u8), t: (u8, u8, u8, u8))
    requires
        sorted4(s),
        roll_bag(s) == roll_bag(t),
        is_die(t.0),
        is_die(t.1),
        is_die(t.2),
        is_die(t.3),
    ensures
        is_die(s.0),
        is_die(s.3),
{
    broadcast use vstd::multiset::group_multiset_axioms;
    assert(roll_bag(t).count(s.0) > 0);
    assert(roll_bag(t).count(s.3) > 0);
}

/// Counts, for every ordered roll, the sorted roll it gives, in a table
/// indexed by `roll_key`.
fn count_rolls() -> (counts: Vec<u32>)
    ensures
        counts.len() == ROLL_COUNT,
        count_sum(counts@, ROLL_COUNT as int) == ROLL_COUNT,
        forall|k: int| 0 <= k < ROLL_COUNT ==> #[trigger] counts@[k] == (if sorted4(roll_of_key(k)) {
            ways(roll_of_key(k), ROLL_COUNT as int)
        } else {
            0
        }),
{
    let mut counts: Vec<u32> = Vec::new();
    let mut i: usize = 0;
    while i < ROLL_COUNT
        invariant
            i <= ROLL_COUNT,
            counts.len() == i,
            forall|k: int| 0 <= k < i ==> #[trigger] counts@[k] == 0,
            count_sum(counts@, i as int) == 0,
        decreases ROLL_COUNT - i,
    {
        let ghost before = counts@;
        counts.push(0);
        proof {
            lemma_count_sum_prefix(counts@, before, i as int);
            assert(count_sum(counts@, i + 1) == count_sum(counts@, i as int) + counts@[i as int]);
        }
        i += 1;
    }
    let mut n: usize = 0;
    while n < ROLL_COUNT
        invariant
            n <= ROLL_COUNT,
            counts.len() == ROLL_COUNT,
            forall|k: int| 0 <= k < ROLL_COUNT ==> #[trigger] counts@[k] == (if sorted4(roll_of_key(k)) {
                ways(roll_of_key(k), n as int)
            } else {
                0
            }),
            forall|k: int| 0 <= k < ROLL_COUNT ==> #[trigger] counts@[k] <= n,
            count_sum(counts@, ROLL_COUNT as int) == n,
        decreases ROLL_COUNT - n,
    {
        proof { lemma_digits(n as int); }
        let d1 = (n / 216 + 1) as u8;
        let d2 = ((n / 36) % 6 + 1) as u8;
        let d3 = ((n / 6) % 6 + 1) as u8;
        let d4 = (n % 6 + 1) as u8;
        assert((d1, d2, d3, d4) == ordered_roll(n as int));
        let s = sort_roll((d1, d2, d3, d4));
        proof { lemma_sorted_dice(s, (d1, d2, d3, d4)); }
        let key = ((s.0 - 1) as usize) * 216 + ((s.1 - 1) as usize) * 36 + ((s.2 - 1) as usize) * 6 + (s.3 - 1) as usize;
        proof {
            assert(key == roll_key(s));
            lemma_key_roll(s);
        }
        let c = counts[key];
        proof { lemma_count_sum_update(counts@, key as int, (c + 1) as u32, ROLL_COUNT as int); }
        counts.set(key, c + 1);
        proof {
            assert forall|k: int| 0 <= k < ROLL_COUNT implies #[trigger] counts@[k] == (if sorted4(roll_of_key(k)) {
                ways(roll_of_key(k), n + 1)
            } else {
                0
            }) by {
                let t = roll_of_key(k);
                lemma_digits(k);
                if sorted4(t) {
                    lemma_ways_step(t, n as int, s);
                }
            }
        }
        n += 1;
    }
    counts
}

/// Two sorted rolls with the same dice are the same roll.
proof fn lemma_sorted_bag_unique(a: (u8, u8, u8, u8), b: (u8, u8, u8, u8))
    requires
        sorted4(a),
        sorted4(b),
        roll_bag(a) == roll_bag(b),
    ensures
        a == b,
{
    broadcast use vstd::multiset::group_multiset_axioms;
    let m = roll_bag(a);
    assert(m.count(a.0) > 0);
    assert(m.count(b.0) > 0);
    assert(m.count(a.3) > 0);
    assert(m.count(b.3) > 0);
    assert(a.0 == b.0);
    assert(a.3 == b.3);
    let m2 = m.remove(a.0).remove(a.3);
    assert(m2 =~= Multiset::empty().insert(a.1).insert(a.2));
    assert(m2 =~= Multiset::empty().insert(b.1).insert(b.2));
    assert(m2.count(a.1) > 0);
    assert(m2.count(b.1) > 0);
    assert(a.1 == b.1);
    assert(a.2 == b.2) by {
        assert(m2.remove(a.1) =~= Multiset::empty().insert(a.2));
        assert(m2.remove(a.1) =~= Multiset::empty().insert(b.2));
        assert(m2.remove(a.1).count(a.2) > 0);
    }
}

proof fn lemma_count_sum_prefix(s: Seq<u32>, t: Seq<u32>, k: int)
    requires
        0 <= k <= t.len(),
        t.len() <= s.len(),
        forall|j: int| 0 <= j < t.len() ==> s[j] == t[j],
    ensures
        count_sum(s, k) == count_sum(t, k),
    decreases k,
{
    if k > 0 {
        lemma_count_sum_prefix(s, t, k - 1);
    }
}

/// Every distinct roll of four dice, in ascending order, with the number of
/// the `6 ^ 4` ordered rolls that give it; the weights add up to `6 ^ 4`.
pub fn dice_actions() -> (r: Vec<(CSAction, u32)>)
    ensures
        r@ == dice_choices(ROLL_COUNT as int),
        weight_sum(r@) == ROLL_COUNT,
{
    let counts = count_rolls();
    let mut r: Vec<(CSAction, u32)> = Vec::new();
    let mut k: usize = 0;
    while k < ROLL_COUNT
        invariant
            k <= ROLL_COUNT,
            counts.len() == ROLL_COUNT,
            forall|j: int| 0 <= j < ROLL_COUNT ==> #[trigger] counts@[j] == (if sorted4(roll_of_key(j)) {
                ways(roll_of_key(j), ROLL_COUNT as int)
            } else {
                0
            }),
            r@ == dice_choices(k as int),
            count_sum(counts@, ROLL_COUNT as int) == ROLL_COUNT,
            weight_sum(r@) == count_sum(counts@, k as int),
        decreases ROLL_COUNT - k,
    {
        proof { lemma_digits(k as int); }
        if counts[k] > 0 {
            let d1 = (k / 216 + 1) as u8;
            let d2 = ((k / 36) % 6 + 1) as u8;
            let d3 = ((k / 6) % 6 + 1) as u8;
            let d4 = (k % 6 + 1) as u8;
            assert((d1, d2, d3, d4) == roll_of_key(k as int));
            let ghost before = r@;
            r.push((CSAction::DiceRoll(d1, d2, d3, d4), counts[k]));
            assert(r@.drop_last() == before);
        }
        k += 1;
    }
    r
}

// ---------------------------------------------------------------------------
// Moves, and the ordered set that removes repeated ones
// ---------------------------------------------------------------------------

#[verifier::external_type_specification]
#[verifier::external_body]
#[verifier::reject_recursive_types(T)]
#[verifier::reject_recursive_types(S)]
pub struct ExLinkedHashSet<T, S>(LinkedHashSet<T, S>);

/// The items of an insertion-ordered set, in its order.
pub uninterp spec fn linked_set_order(s: LinkedHashSet<u64>) -> Seq<u64>;

/// `s` without the items equal to `x`.
pub open spec fn other_than(x: u64) -> spec_fn(u64) -> bool {
    |y: u64| y != x
}

/// The order of an insertion-ordered set after inserting `s` in turn, where
/// inserting an item already present moves it to the end.
pub open spec fn keep_last(s: Seq<u64>) -> Seq<u64>
    decreases s.len(),
{
    if s.len() == 0 {
        Seq::empty()
    } else {
        keep_last(s.drop_last()).filter(other_than(s.last())).push(s.last())
    }
}

/// `LinkedHashSet::from_iter` over `items`: the crate inserts the items one
/// by one, and an insert of a value already present moves it to the end of
/// the order, so the order is `keep_last(items@)`.
#[verifier::external_body]
fn linked_set_from(items: &Vec<u64>) -> (r: LinkedHashSet<u64>)
    ensures
        linked_set_order(r) == keep_last(items@),
{
    LinkedHashSet::from_iter(items.iter().cloned())
}

/// `LinkedHashSet::iter`, collected: the items in the set's order.
#[verifier::external_body]
fn linked_set_items(set: &LinkedHashSet<u64>) -> (r: Vec<u64>)
    ensures
        r@ == linked_set_order(*set),
{
    set.iter().cloned().collect()
}

/// A move as a number: the first column times 512, plus one more than the
/// second column if there is one.
pub open spec fn move_code(a: CSAction) -> u64 {
    match a {
        CSAction::Move(c, o) => (c * 512 + match o {
            Some(x) => x + 1,
            None => 0,
        }) as u64,
        _ => 0,
    }
}

pub open spec fn move_of_code(k: u64) -> CSAction {
    CSAction::Move((k / 512) as u8, if k % 512 == 0 { None } else { Some((k % 512 - 1) as u8) })
}

pub open spec fn code_of() -> spec_fn(CSAction) -> u64 {
    |a: CSAction| move_code(a)
}

pub open spec fn move_of() -> spec_fn(u64) -> CSAction {
    |k: u64| move_of_code(k)
}

fn encode_move(c: u8, o: Option<u8>) -> (k: u64)
    ensures
        k == move_code(CSAction::Move(c, o)),
        move_of_code(k) == CSAction::Move(c, o),
{
    let extra: u64 = match o {
        Some(x) => x as u64 + 1,
        None => 0,
    };
    let k = c as u64 * 512 + extra;
    proof {
        vstd::arithmetic::div_mod::lemma_fundamental_div_mod_converse(k as int, 512, c as int, extra as int);
    }
    k
}

fn decode_move(k: u64) -> (a: CSAction)
    ensures
        a == move_of_code(k),
{
    let r = k % 512;
    if r == 0 {
        CSAction::Move((k / 512) as u8, None)
    } else {
        CSAction::Move((k / 512) as u8, Some((r - 1) as u8))
    }
}

/// Whether the player to move may climb column `col`: a column already
/// climbed this turn or a free third one, not claimed, and not topped out.
pub open spec fn column_allowed(v: CSStateView, col: int) -> bool {
    &&& (v.locked.len() < 3 || v.locked.contains(col as u8))
    &&& v.claimed[col - 2] is None
    &&& (v.temp[col - 2] matches Some(t) ==> t < column_len(col))
}

/// Whether both columns of a pair may be climbed together.
pub open spec fn double_ok(v: CSStateView, a: int, b: int) -> bool {
    &&& column_allowed(v, a)
    &&& column_allowed(v, b)
    &&& (v.locked.len() < 2 || v.locked.contains(a as u8) || v.locked.contains(b as u8))
}

pub open spec fn pair_move(a: int, b: int) -> CSAction {
    if a <= b {
        CSAction::Move(a as u8, Some(b as u8))
    } else {
        CSAction::Move(b as u8, Some(a as u8))
    }
}

/// Climbing one column of a pair: the first if it may be, else the second.
pub open spec fn single_move(v: CSStateView, a: int, b: int) -> Seq<CSAction> {
    if column_allowed(v, a) {
        seq![CSAction::Move(a as u8, None)]
    } else if column_allowed(v, b) {
        seq![CSAction::Move(b as u8, None)]
    } else {
        Seq::empty()
    }
}

/// The moves a roll offers, before repeats are removed: for each of the
/// three pairings, climbing both columns; only when no pairing allows that,
/// one column of each pairing. (The third pairing also asks the column of
/// the second and fourth dice to be open.)
pub open spec fn move_candidates(v: CSStateView, r: (u8, u8, u8, u8)) -> Seq<CSAction> {
    let d12 = r.0 + r.1;
    let d34 = r.2 + r.3;
    let d13 = r.0 + r.2;
    let d24 = r.1 + r.3;
    let d14 = r.0 + r.3;
    let d23 = r.1 + r.2;
    let p1 = double_ok(v, d12, d34);
    let p2 = double_ok(v, d13, d24);
    let p3 = double_ok(v, d14, d23) && column_allowed(v, d24);
    let doubles = (if p1 { seq![pair_move(d12, d34)] } else { Seq::empty() }) + (if p2 {
        seq![pair_move(d13, d24)]
    } else {
        Seq::empty()
    }) + (if p3 { seq![pair_move(d14, d23)] } else { Seq::empty() });
    let singles = (if p1 { Seq::empty() } else { single_move(v, d12, d34) }) + (if p2 {
        Seq::empty()
    } else {
        single_move(v, d13, d24)
    }) + (if p3 { Seq::empty() } else { single_move(v, d14, d23) });
    if doubles.len() == 0 { singles } else { doubles }
}

/// The actions open to the player to move: roll or stop before a roll; after
/// one, each distinct move it offers.
pub open spec fn spec_cs_permitted(v: CSStateView) -> Seq<CSAction> {
    match v.last_roll {
        None => seq![CSAction::Roll, CSAction::Done],
        Some(r) => keep_last(move_candidates(v, r).map_values(code_of())).map_values(move_of()),
    }
}

impl CSState {
    fn allowed(&self, col: u8) -> (r: bool)
        requires
            cs_wf(self@),
            2 <= col <= 12,
        ensures
            r == column_allowed(self@, col as int),
    {
        let i = (col - 2) as usize;
        let locked_ok = self.locked_in_columns.len() < 3 || byte_in(&self.locked_in_columns, col);
        let temp_ok = match self.temp_position[i] {
            Some(t) => t < column_length(col),
            None => true,
        };
        locked_ok && self.claimed_columns[i].is_none() && temp_ok
    }

    fn double_allowed(&self, a: u8, b: u8) -> (r: bool)
        requires
            cs_wf(self@),
            2 <= a <= 12,
            2 <= b <= 12,
        ensures
            r == double_ok(self@, a as int, b as int),
    {
        self.allowed(a) && self.allowed(b) && (self.locked_in_columns.len() < 2 || byte_in(&self.locked_in_columns, a)
            || byte_in(&self.locked_in_columns, b))
    }

    fn push_single(&self, a: u8, b: u8, out: &mut Vec<u64>)
        requires
            cs_wf(self@),
            2 <= a <= 12,
            2 <= b <= 12,
        ensures
            final(out)@ == old(out)@ + single_move(self@, a as int, b as int).map_values(code_of()),
    {
        let ghost before = out@;
        if self.allowed(a) {
            out.push(encode_move(a, None));
        } else if self.allowed(b) {
            out.push(encode_move(b, None));
        }
        proof {
            assert(out@ =~= before + single_move(self@, a as int, b as int).map_values(code_of()));
        }
    }

    /// The actions open to the player to move.
    pub fn permitted_actions(&self) -> (r: Vec<CSAction>)
        requires
            cs_wf(self@),
        ensures
            r@ == spec_cs_permitted(self@),
    {
        let (d1, d2, d3, d4) = match self.last_roll {
            None => return vec![CSAction::Roll, CSAction::Done],
            Some(roll) => roll,
        };
        let d12 = d1 + d2;
        let d34 = d3 + d4;
        let d13 = d1 + d3;
        let d24 = d2 + d4;
        let d14 = d1 + d4;
        let d23 = d2 + d3;
        let p1 = self.double_allowed(d12, d34);
        let p2 = self.double_allowed(d13, d24);
        let p3 = self.double_allowed(d14, d23) && self.allowed(d24);
        let mut codes: Vec<u64> = Vec::new();
        if p1 || p2 || p3 {
            if p1 {
                codes.push(if d12 <= d34 { encode_move(d12, Some(d34)) } else { encode_move(d34, Some(d12)) });
            }
            if p2 {
                codes.push(if d13 <= d24 { encode_move(d13, Some(d24)) } else { encode_move(d24, Some(d13)) });
            }
            if p3 {
                codes.push(if d14 <= d23 { encode_move(d14, Some(d23)) } else { encode_move(d23, Some(d14)) });
            }
        } else {
            self.push_single(d12, d34, &mut codes);
            self.push_single(d13, d24, &mut codes);
            self.push_single(d14, d23, &mut codes);
        }
        proof {
            let cands = move_candidates(self@, (d1, d2, d3, d4));
            assert(codes@ =~= cands.map_values(code_of()));
        }
        let set = linked_set_from(&codes);
        let items = linked_set_items(&set);
        let mut r: Vec<CSAction> = Vec::new();
        let mut i: usize = 0;
        while i < items.len()
            invariant
                i <= items.len(),
                r.len() == i,
                forall|j: int| 0 <= j < i ==> #[trigger] r@[j] == move_of_code(items@[j]),
            decreases items.len() - i,
        {
            r.push(decode_move(items[i]));
            i += 1;
        }
        assert(r@ =~= items@.map_values(move_of()));
        r
    }
}

/// Whether `x` occurs in `v`.
fn byte_in(v: &Vec<u8>, x: u8) -> (r: bool)
    ensures
        r == v@.contains(x),
{
    let mut i: usize = 0;
    while i < v.len()
        invariant
            i <= v.len(),
            forall|j: int| 0 <= j < i ==> v@[j] != x,
        decreases v.len() - i,
    {
        if v[i] == x {
            return true;
        }
        i += 1;
    }
    false
}

// ---------------------------------------------------------------------------
// Playing
// ---------------------------------------------------------------------------

/// `s` with column `c` added, if it is not there yet.
pub open spec fn insert_col(s: Seq<u8>, c: u8) -> Seq<u8> {
    if s.contains(c) { s } else { s.push(c) }
}

/// One step up column `c` this turn, from this turn's height or else from
/// the player's kept height.
pub open spec fn climb(v: CSStateView, c: u8) -> CSStateView {
    let from = match v.temp[c - 2] {
        Some(t) => t as int,
        None => v.positions[v.next_player as int][c - 2] as int,
    };
    CSStateView { locked: insert_col(v.locked, c), temp: v.temp.update(c - 2, Some((from + 1) as u8)), ..v }
}

/// The end of a turn: the next player rolls, with nothing climbed yet.
pub open spec fn end_of_turn(v: CSStateView) -> CSStateView {
    CSStateView {
        next_player: ((v.next_player + 1) % (v.player_count as int)) as u8,
        locked: Seq::empty(),
        temp: Seq::new(COLUMN_COUNT as nat, |i: int| None),
        dice_next: true,
        ..v
    }
}

/// Keeping this turn's climb: the heights reached become the player's, and
/// a column climbed to its top is claimed by the player.
pub open spec fn keep_climb(v: CSStateView) -> CSStateView {
    let p = v.next_player as int;
    CSStateView {
        positions: v.positions.update(
            p,
            Seq::new(
                COLUMN_COUNT as nat,
                |i: int|
                    match v.temp[i] {
                        Some(t) => t,
                        None => v.positions[p][i],
                    },
            ),
        ),
        claimed: Seq::new(
            COLUMN_COUNT as nat,
            |i: int|
                match v.temp[i] {
                    Some(t) => if t >= column_len(i + 2) { Some(v.next_player) } else { v.claimed[i] },
                    None => v.claimed[i],
                },
        ),
        ..v
    }
}

/// The position after `a`.
pub open spec fn spec_cs_execute(v: CSStateView, a: CSAction) -> CSStateView {
    match a {
        CSAction::DiceRoll(d1, d2, d3, d4) => {
            let v1 = CSStateView { last_roll: Some((d1, d2, d3, d4)), ..v };
            if spec_cs_permitted(v1).len() == 0 {
                end_of_turn(v1)
            } else {
                CSStateView { dice_next: false, ..v1 }
            }
        },
        CSAction::Move(c, o) => {
            let v1 = climb(v, c);
            let v2 = match o {
                Some(c2) => climb(v1, c2),
                None => v1,
            };
            CSStateView { last_roll: None, ..v2 }
        },
        CSAction::Roll => CSStateView { dice_next: true, ..v },
        CSAction::Done => end_of_turn(keep_climb(v)),
    }
}

/// The height that climbing `c` starts from.
pub open spec fn climb_from(v: CSStateView, c: u8) -> int {
    match v.temp[c - 2] {
        Some(t) => t as int,
        None => v.positions[v.next_player as int][c - 2] as int,
    }
}

/// The inputs on which `a` runs: dice for a roll, real columns for a move,
/// and heights that fit a byte.
pub open spec fn cs_execute_ok(v: CSStateView, a: CSAction) -> bool {
    match a {
        CSAction::DiceRoll(d1, d2, d3, d4) => is_die(d1) && is_die(d2) && is_die(d3) && is_die(d4),
        CSAction::Move(c, o) => {
            &&& 2 <= c <= 12
            &&& climb_from(v, c) < 255
            &&& (o matches Some(c2) ==> 2 <= c2 <= 12 && climb_from(climb(v, c), c2) < 255)
        },
        _ => true,
    }
}

/// The number of columns among the first `k` that `p` has claimed.
pub open spec fn claims(claimed: Seq<Option<u8>>, p: u8, k: int) -> int
    decreases k,
{
    if k <= 0 {
        0
    } else {
        claims(claimed, p, k - 1) + if claimed[k - 1] == Some(p) { 1int } else { 0int }
    }
}

/// The game is over once a player has claimed three columns.
pub open spec fn spec_cs_terminal(v: CSStateView) -> bool {
    exists|p: u8| claims(v.claimed, p, COLUMN_COUNT as int) >= 3
}

/// The most columns any player among the first `k` player numbers has claimed.
pub open spec fn most_claims(claimed: Seq<Option<u8>>, k: int) -> int
    decreases k,
{
    if k <= 0 {
        0
    } else {
        let m = most_claims(claimed, k - 1);
        let c = claims(claimed, (k - 1) as u8, COLUMN_COUNT as int);
        if c > m { c } else { m }
    }
}

proof fn lemma_claims_bounds(claimed: Seq<Option<u8>>, p: u8, k: int)
    requires
        0 <= k,
    ensures
        0 <= claims(claimed, p, k) <= k,
        claims(claimed, p, k) > 0 ==> exists|i: int| 0 <= i < k && claimed[i] == Some(p),
    decreases k,
{
    if k > 0 {
        lemma_claims_bounds(claimed, p, k - 1);
    }
}

proof fn lemma_most_claims(claimed: Seq<Option<u8>>, k: int, p: int)
    requires
        0 <= p < k,
    ensures
        claims(claimed, p as u8, COLUMN_COUNT as int) <= most_claims(claimed, k),
    decreases k,
{
    if p < k - 1 {
        lemma_most_claims(claimed, k - 1, p);
    }
}

impl CSState {
    fn climb_column(&mut self, c: u8)
        requires
            cs_wf(old(self)@),
            2 <= c <= 12,
            climb_from(old(self)@, c) < 255,
        ensures
            final(self)@ == climb(old(self)@, c),
            cs_wf(final(self)@),
    {
        let i = (c - 2) as usize;
        if !byte_in(&self.locked_in_columns, c) {
            self.locked_in_columns.push(c);
        }
        let from = match self.temp_position[i] {
            Some(t) => t,
            None => self.positions[self.next_player as usize][i],
        };
        self.temp_position[i] = Some(from + 1);
        proof {
            assert(self@.temp =~= old(self)@.temp.update(i as int, Some((from + 1) as u8)));
            assert forall|j: int| 0 <= j < self@.locked.len() implies 2 <= #[trigger] self@.locked[j] <= 12 by {
                if j < old(self)@.locked.len() {
                    assert(self@.locked[j] == old(self)@.locked[j]);
                }
            }
        }
    }

    fn finish_turn(&mut self)
        requires
            cs_wf(old(self)@),
        ensures
            final(self)@ == end_of_turn(old(self)@),
            cs_wf(final(self)@),
    {
        self.next_player = (self.next_player + 1) % self.player_count;
        self.locked_in_columns = Vec::new();
        self.temp_position = [None, None, None, None, None, None, None, None, None, None, None];
        self.dice_next = true;
        proof {
            assert(self@.locked =~= Seq::<u8>::empty());
            assert(self@.temp =~= Seq::new(COLUMN_COUNT as nat, |i: int| None::<u8>));
        }
    }
}

impl CSAction {
    /// The position after this action.
    pub fn execute(&self, state: &CSState) -> (r: CSState)
        requires
            cs_wf(state@),
            cs_execute_ok(state@, *self),
        ensures
            r@ == spec_cs_execute(state@, *self),
            cs_wf(r@),
    {
        let mut s = state.clone();
        match self {
            CSAction::DiceRoll(d1, d2, d3, d4) => {
                s.last_roll = Some((*d1, *d2, *d3, *d4));
                if s.permitted_actions().len() == 0 {
                    s.finish_turn();
                } else {
                    s.dice_next = false;
                }
            },
            CSAction::Move(c, o) => {
                s.climb_column(*c);
                match o {
                    Some(c2) => s.climb_column(*c2),
                    None => {},
                }
                s.last_roll = None;
            },
            CSAction::Roll => {
                s.dice_next = true;
            },
            CSAction::Done => {
                let p = s.next_player as usize;
                let mut row = s.positions[p];
                assert(row@ == state@.positions[p as int]);
                let mut i: usize = 0;
                while i < COLUMN_COUNT
                    invariant
                        i <= COLUMN_COUNT,
                        cs_wf(state@),
                        s@ == (CSStateView { claimed: s@.claimed, ..state@ }),
                        p == s.next_player,
                        forall|j: int| 0 <= j < i ==> #[trigger] row@[j] == match state@.temp[j] {
                            Some(t) => t,
                            None => state@.positions[p as int][j],
                        },
                        forall|j: int| i <= j < COLUMN_COUNT ==> #[trigger] row@[j] == state@.positions[p as int][j],
                        forall|j: int| 0 <= j < i ==> #[trigger] s.claimed_columns@[j] == match state@.temp[j] {
                            Some(t) => if t >= column_len(j + 2) { Some(state.next_player) } else { state@.claimed[j] },
                            None => state@.claimed[j],
                        },
                        forall|j: int| i <= j < COLUMN_COUNT ==> #[trigger] s.claimed_columns@[j] == state@.claimed[j],
                    decreases COLUMN_COUNT - i,
                {
                    match s.temp_position[i] {
                        Some(t) => {
                            row[i] = t;
                            if t >= column_length(i as u8 + 2) {
                                s.claimed_columns[i] = Some(s.next_player);
                            }
                        },
                        None => {},
                    }
                    i += 1;
                }
                let ghost before = s.positions@;
                s.positions.set(p, row);
                proof {
                    let w = keep_climb(state@);
                    assert(s.positions@ == before.update(p as int, row));
                    assert(row@ =~= w.positions[p as int]);
                    assert forall|j: int| 0 <= j < s@.positions.len() implies #[trigger] s@.positions[j] == w.positions[j] by {
                        if j != p {
                            assert(s.positions@[j] == before[j]);
                        }
                    }
                    assert(s@.positions =~= w.positions);
                    assert(s@.claimed =~= w.claimed);
                }
                s.finish_turn();
            },
        }
        s
    }
}

impl CSState {
    /// A roll of the dice comes next, or else the player to move decides.
    pub fn next_actor(&self) -> (r: Actor<CSAction>)
        ensures
            self.dice_next ==> (r matches Actor::GameAction(d) && d@ == dice_choices(ROLL_COUNT as int)),
            !self.dice_next ==> r == Actor::<CSAction>::Player(self.next_player),
    {
        if self.dice_next {
            Actor::GameAction(dice_actions())
        } else {
            Actor::Player(self.next_player)
        }
    }

    fn claims_of(&self, p: u8) -> (r: usize)
        requires
            cs_wf(self@),
        ensures
            r == claims(self@.claimed, p, COLUMN_COUNT as int),
    {
        let mut n: usize = 0;
        let mut i: usize = 0;
        while i < COLUMN_COUNT
            invariant
                i <= COLUMN_COUNT,
                cs_wf(self@),
                n == claims(self@.claimed, p, i as int),
                n <= i,
            decreases COLUMN_COUNT - i,
        {
            if self.claimed_columns[i] == Some(p) {
                n += 1;
            }
            i += 1;
        }
        n
    }

    /// How many columns each player has claimed, by player number.
    pub fn player_claimed_count(&self) -> (r: Vec<usize>)
        requires
            cs_wf(self@),
        ensures
            r.len() == self.positions.len(),
            forall|p: int| 0 <= p < r.len() ==> #[trigger] r@[p] == claims(self@.claimed, p as u8, COLUMN_COUNT as int),
    {
        let mut r: Vec<usize> = Vec::new();
        let mut p: usize = 0;
        while p < self.positions.len()
            invariant
                p <= self.positions.len(),
                self.positions.len() == self.player_count,
                cs_wf(self@),
                r.len() == p,
                forall|j: int| 0 <= j < p ==> #[trigger] r@[j] == claims(self@.claimed, j as u8, COLUMN_COUNT as int),
            decreases self.positions.len() - p,
        {
            r.push(self.claims_of(p as u8));
            p += 1;
        }
        r
    }

    /// Whether some player has claimed three columns.
    pub fn terminal(&self) -> (r: bool)
        requires
            cs_wf(self@),
        ensures
            r == spec_cs_terminal(self@),
    {
        let mut i: usize = 0;
        while i < COLUMN_COUNT
            invariant
                i <= COLUMN_COUNT,
                cs_wf(self@),
                forall|j: int| 0 <= j < i ==> (#[trigger] self@.claimed[j] matches Some(q) ==> claims(self@.claimed, q, COLUMN_COUNT as int) < 3),
            decreases COLUMN_COUNT - i,
        {
            match self.claimed_columns[i] {
                Some(q) => {
                    if self.claims_of(q) >= 3 {
                        return true;
                    }
                },
                None => {},
            }
            i += 1;
        }
        proof {
            assert forall|p: u8| claims(self@.claimed, p, COLUMN_COUNT as int) < 3 by {
                lemma_claims_bounds(self@.claimed, p, COLUMN_COUNT as int);
                if claims(self@.claimed, p, COLUMN_COUNT as int) > 0 {
                    let j = choose|j: int| 0 <= j < COLUMN_COUNT && self@.claimed[j] == Some(p);
                    assert(self@.claimed[j] matches Some(q) ==> claims(self@.claimed, q, COLUMN_COUNT as int) < 3);
                }
            }
        }
        false
    }

    /// Which players win: none before the end; at the end, every player with
    /// the most claimed columns.
    pub fn reward_flags(&self) -> (r: Vec<bool>)
        requires
            cs_wf(self@),
        ensures
            r.len() == self.positions.len(),
            forall|p: int| 0 <= p < r.len() ==> #[trigger] r@[p] == (spec_cs_terminal(self@) && claims(
                self@.claimed,
                p as u8,
                COLUMN_COUNT as int,
            ) == most_claims(self@.claimed, 256)),
    {
        let over = self.terminal();
        let mut most: usize = 0;
        let mut q: usize = 0;
        while q < 256
            invariant
                q <= 256,
                cs_wf(self@),
                most == most_claims(self@.claimed, q as int),
                most <= COLUMN_COUNT,
            decreases 256 - q,
        {
            let c = self.claims_of(q as u8);
            proof { lemma_claims_bounds(self@.claimed, q as u8, COLUMN_COUNT as int); }
            if c > most {
                most = c;
            }
            q += 1;
        }
        let counts = self.player_claimed_count();
        let mut r: Vec<bool> = Vec::new();
        let mut p: usize = 0;
        while p < counts.len()
            invariant
                p <= counts.len(),
                counts.len() == self.positions.len(),
                cs_wf(self@),
                over == spec_cs_terminal(self@),
                most == most_claims(self@.claimed, 256),
                r.len() == p,
                forall|j: int| 0 <= j < counts.len() ==> #[trigger] counts@[j] == claims(self@.claimed, j as u8, COLUMN_COUNT as int),
                forall|j: int| 0 <= j < p ==> #[trigger] r@[j] == (over && claims(self@.claimed, j as u8, COLUMN_COUNT as int) == most),
            decreases counts.len() - p,
        {
            let c = counts[p];
            r.push(over && c == most);
            p += 1;
        }
        r
    }
}

/// The game for a number of players.
pub struct CS {
    pub player_count: u8,
}

pub open spec fn spec_cs_init(pc: u8) -> CSStateView {
    CSStateView {
        dice_next: true,
        locked: Seq::empty(),
        last_roll: None,
        next_player: 0,
        positions: Seq::new(pc as nat, |p: int| Seq::new(COLUMN_COUNT as nat, |i: int| 0u8)),
        temp: Seq::new(COLUMN_COUNT as nat, |i: int| None),
        claimed: Seq::new(COLUMN_COUNT as nat, |i: int| None),
        player_count: pc,
    }
}

impl CS {
    /// Every player at the foot of every column, nothing claimed, and the
    /// first player to roll.
    pub fn init_game(&self) -> (r: CSState)
        ensures
            r@ == spec_cs_init(self.player_count),
            self.player_count >= 1 ==> cs_wf(r@),
    {
        let pc = self.player_count;
        let mut positions: Vec<[u8; COLUMN_COUNT]> = Vec::new();
        let mut p: u8 = 0;
        while p < pc
            invariant
                p <= pc,
                positions.len() == p,
                forall|j: int| 0 <= j < p ==> (#[trigger] positions@[j])@ == Seq::new(COLUMN_COUNT as nat, |i: int| 0u8),
            decreases pc - p,
        {
            let row: [u8; COLUMN_COUNT] = [0, 0, 0, 0, 0, 0, 0, 0, 0, 0, 0];
            assert(row@ =~= Seq::new(COLUMN_COUNT as nat, |i: int| 0u8));
            positions.push(row);
            p += 1;
        }
        let r = CSState {
            dice_next: true,
            locked_in_columns: Vec::new(),
            last_roll: None,
            next_player: 0,
            positions,
            temp_position: [None, None, None, None, None, None, None, None, None, None, None],
            claimed_columns: [None, None, None, None, None, None, None, None, None, None, None],
            player_count: pc,
        };
        proof {
            let w = spec_cs_init(pc);
            assert(r@.positions =~= w.positions);
            assert(r@.temp =~= w.temp);
            assert(r@.claimed =~= w.claimed);
            assert(r@.locked =~= w.locked);
        }
        r
    }
}

/// Filtering a list without repeats leaves a list without repeats.
proof fn lemma_filter_unique(s: Seq<u64>, pred: spec_fn(u64) -> bool)
    requires
        s.no_duplicates(),
    ensures
        s.filter(pred).no_duplicates(),
    decreases s.len(),
{
    reveal(Seq::filter);
    if s.len() > 0 {
        let rest = s.drop_last();
        assert(rest.no_duplicates()) by {
            assert forall|i: int, j: int| 0 <= i < rest.len() && 0 <= j < rest.len() && i != j implies rest[i] != rest[j] by {
                assert(rest[i] == s[i] && rest[j] == s[j]);
            }
        }
        lemma_filter_unique(rest, pred);
        if pred(s.last()) {
            let f = rest.filter(pred);
            if f.contains(s.last()) {
                rest.lemma_filter_contains_rev(pred, s.last());
                let k = choose|k: int| 0 <= k < rest.len() && rest[k] == s.last();
                assert(s[k] == s[s.len() - 1]);
            }
            assert(s.filter(pred) == f.push(s.last()));
            assert forall|i: int, j: int| 0 <= i < j < f.push(s.last()).len() implies f.push(s.last())[i] != f.push(s.last())[j] by {
                if j == f.len() {
                    assert(f.contains(f[i]));
                }
            }
        }
    }
}

/// Removing repeats keeps one of each item and nothing else.
pub proof fn lemma_keep_last(s: Seq<u64>)
    ensures
        keep_last(s).no_duplicates(),
        forall|x: u64| keep_last(s).contains(x) <==> s.contains(x),
    decreases s.len(),
{
    if s.len() > 0 {
        let rest = s.drop_last();
        let x = s.last();
        lemma_keep_last(rest);
        let f = keep_last(rest).filter(other_than(x));
        assert forall|y: u64| f.contains(y) <==> keep_last(rest).contains(y) && y != x by {
            if f.contains(y) {
                keep_last(rest).lemma_filter_contains_rev(other_than(x), y);
                let i = choose|i: int| 0 <= i < f.len() && f[i] == y;
                keep_last(rest).lemma_filter_pred(other_than(x), i);
            }
            if keep_last(rest).contains(y) && y != x {
                let i = choose|i: int| 0 <= i < keep_last(rest).len() && keep_last(rest)[i] == y;
                keep_last(rest).lemma_filter_contains(other_than(x), i);
            }
        }
        assert(!f.contains(x));
        lemma_filter_unique(keep_last(rest), other_than(x));
        assert(keep_last(s) == f.push(x));
        assert forall|y: u64| keep_last(s).contains(y) <==> s.contains(y) by {
            if keep_last(s).contains(y) && y != x {
                let i = choose|i: int| 0 <= i < keep_last(s).len() && keep_last(s)[i] == y;
                assert(i < f.len());
                assert(f[i] == y);
                assert(f.contains(y));
                assert(keep_last(rest).contains(y));
                assert(rest.contains(y));
                let j = choose|j: int| 0 <= j < rest.len() && rest[j] == y;
                assert(s[j] == y);
            }
            if s.contains(y) && y != x {
                let j = choose|j: int| 0 <= j < s.len() && s[j] == y;
                assert(rest[j] == y);
                assert(rest.contains(y));
                assert(keep_last(rest).contains(y));
                assert(f.contains(y));
                let i = choose|i: int| 0 <= i < f.len() && f[i] == y;
                assert(keep_last(s)[i] == y);
            }
            if y == x {
                assert(keep_last(s)[keep_last(s).len() - 1] == x);
                assert(s[s.len() - 1] == x);
            }
        }
        assert(keep_last(s).no_duplicates()) by {
            assert forall|i: int, j: int| 0 <= i < j < keep_last(s).len() implies keep_last(s)[i] != keep_last(s)[j] by {
                if j == keep_last(s).len() - 1 {
                    assert(f.contains(f[i]));
                }
            }
        }
    }
}

/// A roll that offers no move busts: the turn passes to the next player and
/// the heights kept and the columns claimed stay as they were.
pub proof fn lemma_bust_keeps_heights(v: CSStateView, d1: u8, d2: u8, d3: u8, d4: u8)
    requires
        cs_wf(v),
        spec_cs_permitted(CSStateView { last_roll: Some((d1, d2, d3, d4)), ..v }).len() == 0,
    ensures
        spec_cs_execute(v, CSAction::DiceRoll(d1, d2, d3, d4)).positions == v.positions,
        spec_cs_execute(v, CSAction::DiceRoll(d1, d2, d3, d4)).claimed == v.claimed,
        spec_cs_execute(v, CSAction::DiceRoll(d1, d2, d3, d4)).next_player == (v.next_player + 1) % (v.player_count as int),
        spec_cs_execute(v, CSAction::DiceRoll(d1, d2, d3, d4)).temp == Seq::new(COLUMN_COUNT as nat, |i: int| None::<u8>),
{
}

} // verus!

verus! {

/// A move the rules can offer after a roll: climbing two columns of a pair
/// that may be climbed together, or one column that may be climbed.
pub open spec fn offered_move(v: CSStateView, a: CSAction) -> bool {
    ||| exists|x: int, y: int| 2 <= x <= 12 && 2 <= y <= 12 && double_ok(v, x, y) && a == pair_move(x, y)
    ||| exists|x: int| 2 <= x <= 12 && column_allowed(v, x) && a == CSAction::Move(x as u8, None)
}

proof fn lemma_single_offered(v: CSStateView, x: int, y: int)
    requires
        2 <= x <= 12,
        2 <= y <= 12,
    ensures
        forall|i: int| 0 <= i < single_move(v, x, y).len() ==> offered_move(v, #[trigger] single_move(v, x, y)[i]),
{
    if column_allowed(v, x) {
        assert(single_move(v, x, y)[0] == CSAction::Move(x as u8, None));
    } else if column_allowed(v, y) {
        assert(single_move(v, x, y)[0] == CSAction::Move(y as u8, None));
    }
}

proof fn lemma_concat_offered(v: CSStateView, a: Seq<CSAction>, b: Seq<CSAction>)
    requires
        forall|i: int| 0 <= i < a.len() ==> offered_move(v, #[trigger] a[i]),
        forall|i: int| 0 <= i < b.len() ==> offered_move(v, #[trigger] b[i]),
    ensures
        forall|i: int| 0 <= i < (a + b).len() ==> offered_move(v, #[trigger] (a + b)[i]),
{
    assert forall|i: int| 0 <= i < (a + b).len() implies offered_move(v, #[trigger] (a + b)[i]) by {
        if i < a.len() {
            assert((a + b)[i] == a[i]);
        } else {
            assert((a + b)[i] == b[i - a.len()]);
        }
    }
}

/// Every move a roll offers is one the rules allow.
proof fn lemma_candidates_offered(v: CSStateView, r: (u8, u8, u8, u8))
    requires
        is_die(r.0) && is_die(r.1) && is_die(r.2) && is_die(r.3),
    ensures
        forall|i: int| 0 <= i < move_candidates(v, r).len() ==> offered_move(v, #[trigger] move_candidates(v, r)[i]),
{
    let d12 = r.0 + r.1;
    let d34 = r.2 + r.3;
    let d13 = r.0 + r.2;
    let d24 = r.1 + r.3;
    let d14 = r.0 + r.3;
    let d23 = r.1 + r.2;
    let p1 = double_ok(v, d12, d34);
    let p2 = double_ok(v, d13, d24);
    let p3 = double_ok(v, d14, d23) && column_allowed(v, d24);
    let s1 = if p1 { seq![pair_move(d12, d34)] } else { Seq::<CSAction>::empty() };
    let s2 = if p2 { seq![pair_move(d13, d24)] } else { Seq::<CSAction>::empty() };
    let s3 = if p3 { seq![pair_move(d14, d23)] } else { Seq::<CSAction>::empty() };
    assert forall|i: int| 0 <= i < s1.len() implies offered_move(v, #[trigger] s1[i]) by {
        assert(s1[i] == pair_move(d12, d34));
        assert(2 <= d12 <= 12 && 2 <= d34 <= 12 && double_ok(v, d12, d34));
    }
    assert forall|i: int| 0 <= i < s2.len() implies offered_move(v, #[trigger] s2[i]) by {
        assert(s2[i] == pair_move(d13, d24));
        assert(2 <= d13 <= 12 && 2 <= d24 <= 12 && double_ok(v, d13, d24));
    }
    assert forall|i: int| 0 <= i < s3.len() implies offered_move(v, #[trigger] s3[i]) by {
        assert(s3[i] == pair_move(d14, d23));
        assert(2 <= d14 <= 12 && 2 <= d23 <= 12 && double_ok(v, d14, d23));
    }
    lemma_concat_offered(v, s1, s2);
    lemma_concat_offered(v, s1 + s2, s3);
    let t1 = if p1 { Seq::<CSAction>::empty() } else { single_move(v, d12, d34) };
    let t2 = if p2 { Seq::<CSAction>::empty() } else { single_move(v, d13, d24) };
    let t3 = if p3 { Seq::<CSAction>::empty() } else { single_move(v, d14, d23) };
    lemma_single_offered(v, d12, d34);
    lemma_single_offered(v, d13, d24);
    lemma_single_offered(v, d14, d23);
    assert forall|i: int| 0 <= i < t1.len() implies offered_move(v, #[trigger] t1[i]) by {}
    assert forall|i: int| 0 <= i < t2.len() implies offered_move(v, #[trigger] t2[i]) by {}
    assert forall|i: int| 0 <= i < t3.len() implies offered_move(v, #[trigger] t3[i]) by {}
    lemma_concat_offered(v, t1, t2);
    lemma_concat_offered(v, t1 + t2, t3);
}

proof fn lemma_insert_col(s: Seq<u8>, c: u8)
    ensures
        insert_col(s, c).len() == s.len() + if s.contains(c) { 0int } else { 1int },
        insert_col(s, c).contains(c),
        forall|x: u8| s.contains(x) ==> insert_col(s, c).contains(x),
{
    if !s.contains(c) {
        assert(insert_col(s, c)[s.len() as int] == c);
        assert forall|x: u8| s.contains(x) implies insert_col(s, c).contains(x) by {
            let i = choose|i: int| 0 <= i < s.len() && s[i] == x;
            assert(insert_col(s, c)[i] == x);
        }
    }
}

/// An allowed move leaves at most three columns climbed this turn.
proof fn lemma_offered_locks(v: CSStateView, a: CSAction)
    requires
        v.locked.len() <= 3,
        offered_move(v, a),
    ensures
        spec_cs_execute(v, a).locked.len() <= 3,
{
    if exists|x: int, y: int| 2 <= x <= 12 && 2 <= y <= 12 && double_ok(v, x, y) && a == pair_move(x, y) {
        let (x, y) = choose|x: int, y: int| 2 <= x <= 12 && 2 <= y <= 12 && double_ok(v, x, y) && a == pair_move(x, y);
        let (c, c2) = if x <= y { (x as u8, y as u8) } else { (y as u8, x as u8) };
        assert(a == CSAction::Move(c, Some(c2)));
        let v1 = climb(v, c);
        lemma_insert_col(v.locked, c);
        lemma_insert_col(v1.locked, c2);
        assert(v1.locked == insert_col(v.locked, c));
        if v.locked.contains(c2) {
            assert(v1.locked.contains(c2));
        }
    } else {
        let x = choose|x: int| 2 <= x <= 12 && column_allowed(v, x) && a == CSAction::Move(x as u8, None);
        lemma_insert_col(v.locked, x as u8);
    }
}

/// A move keeps its columns through its number: decoding the code of a move
/// on real columns gives the move back.
proof fn lemma_code_round_trip(a: CSAction)
    requires
        a matches CSAction::Move(c, o) && 2 <= c <= 12 && (o matches Some(c2) ==> 2 <= c2 <= 12),
    ensures
        move_of_code(move_code(a)) == a,
{
    if let CSAction::Move(c, o) = a {
        let extra: int = match o { Some(x) => x + 1, None => 0 };
        vstd::arithmetic::div_mod::lemma_fundamental_div_mod_converse(c * 512 + extra, 512, c as int, extra);
    }
}

/// No turn climbs more than three columns: from a position with at most three
/// columns climbed this turn, every action the rules offer leaves at most
/// three, so a pair naming two columns not yet climbed is offered only while
/// fewer than two are.
pub proof fn lemma_at_most_three_columns(v: CSStateView, a: CSAction)
    requires
        cs_wf(v),
        v.locked.len() <= 3,
        spec_cs_permitted(v).contains(a),
    ensures
        spec_cs_execute(v, a).locked.len() <= 3,
{
    match v.last_roll {
        None => {
            let i = choose|i: int| 0 <= i < spec_cs_permitted(v).len() && spec_cs_permitted(v)[i] == a;
        },
        Some(r) => {
            let cands = move_candidates(v, r);
            let codes = cands.map_values(code_of());
            let kept = keep_last(codes);
            let i = choose|i: int| 0 <= i < kept.map_values(move_of()).len() && kept.map_values(move_of())[i] == a;
            let k = kept[i];
            assert(a == move_of_code(k));
            lemma_keep_last(codes);
            assert(kept.contains(k));
            assert(codes.contains(k));
            let j = choose|j: int| 0 <= j < codes.len() && codes[j] == k;
            let m = cands[j];
            assert(k == move_code(m));
            lemma_candidates_offered(v, r);
            assert(offered_move(v, m));
            if exists|x: int, y: int| 2 <= x <= 12 && 2 <= y <= 12 && double_ok(v, x, y) && m == pair_move(x, y) {
                let (x, y) = choose|x: int, y: int| 2 <= x <= 12 && 2 <= y <= 12 && double_ok(v, x, y) && m == pair_move(x, y);
                lemma_code_round_trip(m);
            } else {
                lemma_code_round_trip(m);
            }
            assert(a == m);
            lemma_offered_locks(v, m);
        },
    }
}

} // verus!
