//! No Thanks!: players take the card on offer, with the tokens on it, or pay
//! a token to pass it on. Runs of consecutive cards count only their lowest
//! card, and tokens count against the score.

use vstd::prelude::*;
use crate::actor::Actor;

verus! {

/// The lowest card.
pub const FIRST_CARD: u8 = 3;

/// The number of cards, `FIRST_CARD` to `FIRST_CARD + CARD_COUNT - 1`.
pub const CARD_COUNT: usize = 32;

/// The card values a position keeps a place for: every byte.
pub const CARD_VALUES: usize = 256;

/// The game ends once this many cards have been taken.
pub const CARDS_TO_TAKE: usize = 24;

#[derive(Copy, Clone, PartialEq, Eq, Hash, Debug, Structural)]
pub enum NTAction {
    Take,
    NoThanks,
    Draw(u8),
}

/// Where a card is: still in the deck, or taken by a player.
#[derive(Copy, Clone, PartialEq, Eq, Debug, Structural)]
pub enum CardState {
    Drawable,
    Taken(u8),
}

/// A position: `cards[c]` is the state of the card of value `c`, or `None`
/// where no such card is in play; `tokens[p]` the tokens of player `p`.
#[derive(Debug)]
pub struct NTState {
    pub cards: Vec<Option<CardState>>,
    pub tokens: Vec<u8>,
    pub next_player: u8,
    pub to_draw: bool,
    pub current_card: Option<u8>,
    pub tokens_on_card: u8,
}

pub struct NTStateView {
    pub cards: Seq<Option<CardState>>,
    pub tokens: Seq<u8>,
    pub next_player: u8,
    pub to_draw: bool,
    pub current_card: Option<u8>,
    pub tokens_on_card: u8,
}

impl View for NTState {
    type V = NTStateView;

    open spec fn view(&self) -> NTStateView {
        NTStateView {
            cards: self.cards@,
            tokens: self.tokens@,
            next_player: self.next_player,
            to_draw: self.to_draw,
            current_card: self.current_card,
            tokens_on_card: self.tokens_on_card,
        }
    }
}

fn copy_cards(v: &Vec<Option<CardState>>) -> (r: Vec<Option<CardState>>)
    ensures
        r@ == v@,
{
    let mut r: Vec<Option<CardState>> = Vec::new();
    let mut i: usize = 0;
    while i < v.len()
        invariant
            i <= v.len(),
            r@ == v@.take(i as int),
        decreases v.len() - i,
    {
        r.push(v[i]);
        i += 1;
        assert(r@ =~= v@.take(i as int));
    }
    assert(v@.take(v.len() as int) =~= v@);
    r
}

fn copy_tokens(v: &Vec<u8>) -> (r: Vec<u8>)
    ensures
        r@ == v@,
{
    let mut r: Vec<u8> = Vec::new();
    let mut i: usize = 0;
    while i < v.len()
        invariant
            i <= v.len(),
            r@ == v@.take(i as int),
        decreases v.len() - i,
    {
        r.push(v[i]);
        i += 1;
        assert(r@ =~= v@.take(i as int));
    }
    assert(v@.take(v.len() as int) =~= v@);
    r
}

impl Clone for NTState {
    fn clone(&self) -> (r: Self)
        ensures
            r@ == self@,
    {
        NTState {
            cards: copy_cards(&self.cards),
            tokens: copy_tokens(&self.tokens),
            next_player: self.next_player,
            to_draw: self.to_draw,
            current_card: self.current_card,
            tokens_on_card: self.tokens_on_card,
        }
    }
}

/// Whether `card` is one of the cards of the game.
pub open spec fn is_card(card: int) -> bool {
    FIRST_CARD <= card < FIRST_CARD + CARD_COUNT
}

/// The structural invariant: one entry per card value and per player, and
/// the player to move among them.
pub open spec fn nt_wf(v: NTStateView) -> bool {
    &&& v.cards.len() == CARD_VALUES
    &&& 1 <= v.tokens.len() <= 255
    &&& v.next_player < v.tokens.len()
}

/// The position after `a`.
pub open spec fn spec_nt_execute(v: NTStateView, a: NTAction) -> NTStateView {
    match a {
        NTAction::Take => NTStateView {
            cards: v.cards.update(v.current_card.unwrap() as int, Some(CardState::Taken(v.next_player))),
            tokens: v.tokens.update(v.next_player as int, (v.tokens[v.next_player as int] + v.tokens_on_card) as u8),
            to_draw: true,
            tokens_on_card: 0,
            ..v
        },
        NTAction::NoThanks => NTStateView {
            tokens: v.tokens.update(v.next_player as int, (v.tokens[v.next_player as int] - 1) as u8),
            next_player: ((v.next_player + 1) % (v.tokens.len() as int)) as u8,
            to_draw: false,
            tokens_on_card: (v.tokens_on_card + 1) as u8,
            ..v
        },
        NTAction::Draw(card) => NTStateView {
            to_draw: false,
            current_card: Some(card),
            tokens_on_card: 0,
            ..v
        },
    }
}

/// The inputs on which `a` runs: a card on offer to take, a token to pay,
/// and counts that fit a byte; any value can be drawn.
pub open spec fn nt_execute_ok(v: NTStateView, a: NTAction) -> bool {
    match a {
        NTAction::Take => v.current_card is Some && v.tokens[v.next_player as int] + v.tokens_on_card <= 255,
        NTAction::NoThanks => v.tokens[v.next_player as int] > 0 && v.tokens_on_card < 255,
        NTAction::Draw(_) => true,
    }
}

/// Tokens held by the first `k` players.
pub open spec fn tokens_held(tokens: Seq<u8>, k: int) -> int
    decreases k,
{
    if k <= 0 {
        0
    } else {
        tokens_held(tokens, k - 1) + tokens[k - 1]
    }
}

/// All the tokens in the game: the players' and those on the card.
pub open spec fn total_tokens(v: NTStateView) -> int {
    tokens_held(v.tokens, v.tokens.len() as int) + v.tokens_on_card
}

/// Whether the card of value `i` has been taken.
pub open spec fn is_taken(cards: Seq<Option<CardState>>, i: int) -> bool {
    cards[i] matches Some(CardState::Taken(_))
}

/// The number of cards among the values below `k` that have been taken.
pub open spec fn taken_count(cards: Seq<Option<CardState>>, k: int) -> int
    decreases k,
{
    if k <= 0 {
        0
    } else {
        taken_count(cards, k - 1) + if is_taken(cards, k - 1) { 1int } else { 0int }
    }
}

/// What the card of value `i` adds to the score of `p`: its value, when `p`
/// holds it and it is the lowest card, or `p` does not hold the card of the
/// value below it (a card of value zero adds nothing).
pub open spec fn card_points(cards: Seq<Option<CardState>>, i: int, p: u8) -> int {
    if cards[i] == Some(CardState::Taken(p)) && (i == FIRST_CARD || (i > 0 && cards[i - 1] != Some(CardState::Taken(p)))) {
        i
    } else {
        0
    }
}

pub open spec fn points(cards: Seq<Option<CardState>>, p: u8, k: int) -> int
    decreases k,
{
    if k <= 0 {
        0
    } else {
        points(cards, p, k - 1) + card_points(cards, k - 1, p)
    }
}

/// The score of player `p`: the value of its cards less its tokens.
pub open spec fn spec_score(v: NTStateView, p: int) -> int {
    points(v.cards, p as u8, CARD_VALUES as int) - v.tokens[p]
}

/// The cards still in the deck among the values below `k`, as draws of
/// weight one.
pub open spec fn draws(cards: Seq<Option<CardState>>, k: int) -> Seq<(NTAction, u32)>
    decreases k,
{
    if k <= 0 {
        Seq::empty()
    } else {
        draws(cards, k - 1) + if cards[k - 1] == Some(CardState::Drawable) {
            seq![(NTAction::Draw((k - 1) as u8), 1u32)]
        } else {
            Seq::empty()
        }
    }
}

/// The tokens each player starts with.
pub open spec fn starting_tokens(pc: u8) -> u8 {
    if pc <= 5 {
        11
    } else if pc == 6 {
        9
    } else {
        7
    }
}

pub open spec fn spec_nt_init(pc: u8) -> NTStateView {
    NTStateView {
        cards: Seq::new(CARD_VALUES as nat, |i: int| if is_card(i) { Some(CardState::Drawable) } else { None }),
        tokens: Seq::new(pc as nat, |i: int| starting_tokens(pc)),
        next_player: 0,
        to_draw: true,
        current_card: None,
        tokens_on_card: 0,
    }
}

impl NTAction {
    /// The position after this action.
    pub fn execute(&self, state: &NTState) -> (r: NTState)
        requires
            nt_wf(state@),
            nt_execute_ok(state@, *self),
        ensures
            r@ == spec_nt_execute(state@, *self),
            nt_wf(r@),
    {
        let mut s = state.clone();
        match self {
            NTAction::Take => {
                let card = state.current_card.unwrap();
                let p = state.next_player as usize;
                s.cards.set(card as usize, Some(CardState::Taken(state.next_player)));
                let t = state.tokens[p] + state.tokens_on_card;
                s.tokens.set(p, t);
                s.to_draw = true;
                s.tokens_on_card = 0;
            },
            NTAction::NoThanks => {
                let p = state.next_player as usize;
                let t = state.tokens[p] - 1;
                s.tokens.set(p, t);
                s.next_player = ((state.next_player as usize + 1) % state.tokens.len()) as u8;
                s.to_draw = false;
                s.tokens_on_card = state.tokens_on_card + 1;
            },
            NTAction::Draw(card) => {
                s.to_draw = false;
                s.current_card = Some(*card);
                s.tokens_on_card = 0;
            },
        }
        s
    }
}

impl NTState {
    /// The draws still possible, each card in the deck with weight one, in
    /// order of value.
    pub fn possible_non_player_actions(&self) -> (r: Vec<(NTAction, u32)>)
        requires
            nt_wf(self@),
        ensures
            r@ == draws(self@.cards, CARD_VALUES as int),
    {
        let mut r: Vec<(NTAction, u32)> = Vec::new();
        let mut i: usize = 0;
        while i < CARD_VALUES
            invariant
                i <= CARD_VALUES,
                nt_wf(self@),
                r@ == draws(self@.cards, i as int),
            decreases CARD_VALUES - i,
        {
            match self.cards[i] {
                Some(CardState::Drawable) => r.push((NTAction::Draw(i as u8), 1)),
                _ => {},
            }
            i += 1;
        }
        r
    }

    /// A card is drawn next, or else the player to move decides.
    pub fn next_actor(&self) -> (r: Actor<NTAction>)
        requires
            nt_wf(self@),
        ensures
            self.to_draw ==> (r matches Actor::GameAction(d) && d@ == draws(self@.cards, CARD_VALUES as int)),
            !self.to_draw ==> r == Actor::<NTAction>::Player(self.next_player),
    {
        if self.to_draw {
            Actor::GameAction(self.possible_non_player_actions())
        } else {
            Actor::Player(self.next_player)
        }
    }

    /// The player to move may always take the card, and may pass it on
    /// while they have a token.
    pub fn permitted_actions(&self) -> (r: Vec<NTAction>)
        requires
            nt_wf(self@),
        ensures
            r@ == if self@.tokens[self.next_player as int] > 0 {
                seq![NTAction::Take, NTAction::NoThanks]
            } else {
                seq![NTAction::Take]
            },
    {
        if self.tokens[self.next_player as usize] > 0 {
            vec![NTAction::Take, NTAction::NoThanks]
        } else {
            vec![NTAction::Take]
        }
    }

    /// The game is over once enough cards have been taken.
    pub fn terminal(&self) -> (r: bool)
        requires
            nt_wf(self@),
        ensures
            r == (taken_count(self@.cards, CARD_VALUES as int) >= CARDS_TO_TAKE),
    {
        let mut n: usize = 0;
        let mut i: usize = 0;
        while i < CARD_VALUES
            invariant
                i <= CARD_VALUES,
                nt_wf(self@),
                n == taken_count(self@.cards, i as int),
                n <= i,
            decreases CARD_VALUES - i,
        {
            match self.cards[i] {
                Some(CardState::Taken(_)) => n += 1,
                _ => {},
            }
            i += 1;
        }
        n >= CARDS_TO_TAKE
    }

    /// Each player's score: the value of the lowest card of each run of
    /// consecutive cards they hold, less their tokens.
    pub fn scores(&self) -> (r: Vec<i64>)
        requires
            nt_wf(self@),
        ensures
            r.len() == self.tokens.len(),
            forall|p: int| 0 <= p < r.len() ==> #[trigger] r@[p] == spec_score(self@, p),
    {
        let mut r: Vec<i64> = Vec::new();
        let mut p: usize = 0;
        while p < self.tokens.len()
            invariant
                p <= self.tokens.len(),
                nt_wf(self@),
                r.len() == p,
                forall|q: int| 0 <= q < p ==> #[trigger] r@[q] == spec_score(self@, q),
            decreases self.tokens.len() - p,
        {
            let player = p as u8;
            let mut total: i64 = 0;
            let mut i: usize = 0;
            while i < CARD_VALUES
                invariant
                    i <= CARD_VALUES,
                    nt_wf(self@),
                    player == p as u8,
                    total == points(self@.cards, player, i as int),
                    0 <= total <= i * 256,
                decreases CARD_VALUES - i,
            {
                let held = match self.cards[i] {
                    Some(CardState::Taken(q)) => q == player,
                    _ => false,
                };
                let below = i > 0 && match self.cards[i - 1] {
                    Some(CardState::Taken(q)) => q == player,
                    _ => false,
                };
                if held && (i == FIRST_CARD as usize || (i > 0 && !below)) {
                    total = total + i as i64;
                }
                i += 1;
            }
            r.push(total - self.tokens[p] as i64);
            p += 1;
        }
        r
    }

    /// Each player's place when the scores are ranked from lowest (best) to
    /// highest, a tie going to the earlier seat.
    pub fn places(&self) -> (r: Vec<usize>)
        requires
            nt_wf(self@),
        ensures
            r.len() == self.tokens.len(),
            forall|p: int| 0 <= p < r.len() ==> #[trigger] r@[p] == spec_place(self@, p),
    {
        let scores = self.scores();
        let n = scores.len();
        let mut r: Vec<usize> = Vec::new();
        let mut i: usize = 0;
        while i < n
            invariant
                i <= n,
                n == scores.len(),
                n == self@.tokens.len(),
                n <= 255,
                forall|q: int| 0 <= q < n ==> #[trigger] scores@[q] == spec_score(self@, q),
                r.len() == i,
                forall|q: int| 0 <= q < i ==> #[trigger] r@[q] == spec_place(self@, q),
            decreases n - i,
        {
            let mut count: usize = 0;
            let mut j: usize = 0;
            while j < n
                invariant
                    j <= n,
                    i < n,
                    n == scores.len(),
                    n == self@.tokens.len(),
                    n <= 255,
                    forall|q: int| 0 <= q < n ==> #[trigger] scores@[q] == spec_score(self@, q),
                    count == places_before(self@, i as int, j as int),
                    count <= j,
                decreases n - j,
            {
                if scores[j] < scores[i] || (scores[j] == scores[i] && j < i) {
                    count += 1;
                }
                j += 1;
            }
            r.push(count);
            i += 1;
        }
        r
    }
}

/// Whether player `j` ranks before player `i`: a lower score, or the same
/// score from an earlier seat.
pub open spec fn ranks_before(v: NTStateView, j: int, i: int) -> bool {
    spec_score(v, j) < spec_score(v, i) || (spec_score(v, j) == spec_score(v, i) && j < i)
}

/// How many of the first `k` players rank before player `i`.
pub open spec fn places_before(v: NTStateView, i: int, k: int) -> int
    decreases k,
{
    if k <= 0 {
        0
    } else {
        places_before(v, i, k - 1) + if ranks_before(v, k - 1, i) { 1int } else { 0int }
    }
}

/// The place of player `i`, counted from zero for the best score.
pub open spec fn spec_place(v: NTStateView, i: int) -> int {
    places_before(v, i, v.tokens.len() as int)
}

/// The game for a number of players.
pub struct NT {
    pub player_count: u8,
}

impl NT {
    /// All cards in the deck, every player with their starting tokens, and a
    /// card to draw.
    pub fn init_game(&self) -> (r: NTState)
        ensures
            r@ == spec_nt_init(self.player_count),
            self.player_count >= 1 ==> nt_wf(r@),
    {
        let pc = self.player_count;
        let start: u8 = if pc <= 5 {
            11
        } else if pc == 6 {
            9
        } else {
            7
        };
        let mut cards: Vec<Option<CardState>> = Vec::new();
        let mut i: usize = 0;
        while i < CARD_VALUES
            invariant
                i <= CARD_VALUES,
                cards.len() == i,
                forall|j: int| 0 <= j < i ==> #[trigger] cards@[j] == (if is_card(j) { Some(CardState::Drawable) } else { None }),
            decreases CARD_VALUES - i,
        {
            if FIRST_CARD as usize <= i && i < FIRST_CARD as usize + CARD_COUNT {
                cards.push(Some(CardState::Drawable));
            } else {
                cards.push(None);
            }
            i += 1;
        }
        let mut tokens: Vec<u8> = Vec::new();
        let mut p: u8 = 0;
        while p < pc
            invariant
                p <= pc,
                start == starting_tokens(pc),
                tokens.len() == p,
                forall|j: int| 0 <= j < p ==> #[trigger] tokens@[j] == start,
            decreases pc - p,
        {
            tokens.push(start);
            p += 1;
        }
        let r = NTState { cards, tokens, next_player: 0, to_draw: true, current_card: None, tokens_on_card: 0 };
        assert(r@.cards =~= spec_nt_init(pc).cards);
        assert(r@.tokens =~= spec_nt_init(pc).tokens);
        r
    }
}

proof fn lemma_tokens_held_update(s: Seq<u8>, i: int, x: u8, k: int)
    requires
        0 <= i < s.len(),
        0 <= k <= s.len(),
    ensures
        tokens_held(s.update(i, x), k) == tokens_held(s, k) + if i < k { x - s[i] } else { 0 },
    decreases k,
{
    if k > 0 {
        lemma_tokens_held_update(s, i, x, k - 1);
    }
}

/// No action creates or destroys tokens: taking moves the tokens on the card
/// to the taker, passing moves one token from the player to the card, and a
/// draw, which comes only when the card holds no tokens, moves none.
pub proof fn lemma_tokens_conserved(v: NTStateView, a: NTAction)
    requires
        nt_wf(v),
        nt_execute_ok(v, a),
        a is Draw ==> v.tokens_on_card == 0,
    ensures
        total_tokens(spec_nt_execute(v, a)) == total_tokens(v),
{
    let n = v.tokens.len() as int;
    let p = v.next_player as int;
    match a {
        NTAction::Take => {
            lemma_tokens_held_update(v.tokens, p, (v.tokens[p] + v.tokens_on_card) as u8, n);
        },
        NTAction::NoThanks => {
            lemma_tokens_held_update(v.tokens, p, (v.tokens[p] - 1) as u8, n);
        },
        NTAction::Draw(_) => {},
    }
}

proof fn lemma_taken_count_update(s: Seq<Option<CardState>>, i: int, x: Option<CardState>, k: int)
    requires
        0 <= i < s.len(),
        0 <= k <= s.len(),
    ensures
        taken_count(s.update(i, x), k) == taken_count(s, k) + if i < k {
            (if x matches Some(CardState::Taken(_)) { 1int } else { 0int }) - (if is_taken(s, i) { 1int } else { 0int })
        } else {
            0
        },
    decreases k,
{
    if k > 0 {
        lemma_taken_count_update(s, i, x, k - 1);
    }
}

/// Taking gives the card on offer to the player to move, and a card that was
/// still in the deck adds one to the cards taken; nothing else takes a card.
pub proof fn lemma_take_takes_one(v: NTStateView, a: NTAction)
    requires
        nt_wf(v),
        nt_execute_ok(v, a),
    ensures
        a == NTAction::Take ==> spec_nt_execute(v, a).cards[v.current_card.unwrap() as int]
            == Some(CardState::Taken(v.next_player)),
        a == NTAction::Take && !is_taken(v.cards, v.current_card.unwrap() as int)
            ==> taken_count(spec_nt_execute(v, a).cards, CARD_VALUES as int) == taken_count(v.cards, CARD_VALUES as int)
            + 1,
        a != NTAction::Take ==> spec_nt_execute(v, a).cards == v.cards,
{
    if a == NTAction::Take {
        let i = v.current_card.unwrap() as int;
        lemma_taken_count_update(v.cards, i, Some(CardState::Taken(v.next_player)), CARD_VALUES as int);
    }
}

} // verus!

verus! {

/// The value drawn by a draw action.
pub open spec fn drawn_value(a: NTAction) -> int {
    match a {
        NTAction::Draw(c) => c as int,
        _ => -1,
    }
}

proof fn lemma_draws_below(cards: Seq<Option<CardState>>, k: int)
    requires
        0 <= k <= cards.len(),
        cards.len() <= CARD_VALUES,
    ensures
        forall|j: int| 0 <= j < draws(cards, k).len() ==> {
            let (a, weight) = #[trigger] draws(cards, k)[j];
            &&& a is Draw
            &&& weight == 1
            &&& 0 <= drawn_value(a) < k
            &&& cards[drawn_value(a)] == Some(CardState::Drawable)
        },
        forall|j1: int, j2: int| 0 <= j1 < j2 < draws(cards, k).len() ==> drawn_value(#[trigger] draws(cards, k)[j1].0)
            < drawn_value(#[trigger] draws(cards, k)[j2].0),
        forall|c: int| 0 <= c < k && cards[c] == Some(CardState::Drawable) ==> exists|j: int|
            0 <= j < draws(cards, k).len() && drawn_value(#[trigger] draws(cards, k)[j].0) == c,
    decreases k,
{
    if k > 0 {
        lemma_draws_below(cards, k - 1);
        let prev = draws(cards, k - 1);
        let d = draws(cards, k);
        if cards[k - 1] == Some(CardState::Drawable) {
            assert(d == prev + seq![(NTAction::Draw((k - 1) as u8), 1u32)]);
            assert(drawn_value(d[prev.len() as int].0) == k - 1);
            assert forall|j: int| 0 <= j < prev.len() implies #[trigger] d[j] == prev[j] by {}
            assert forall|c: int| 0 <= c < k && cards[c] == Some(CardState::Drawable) implies exists|j: int|
                0 <= j < d.len() && drawn_value(#[trigger] d[j].0) == c by {
                if c < k - 1 {
                    let j = choose|j: int| 0 <= j < prev.len() && drawn_value(#[trigger] prev[j].0) == c;
                    assert(d[j] == prev[j]);
                } else {
                    assert(drawn_value(d[prev.len() as int].0) == c);
                }
            }
        } else {
            assert(d == prev + Seq::<(NTAction, u32)>::empty());
            assert(d =~= prev);
        }
    }
}

/// The draws offered are exactly the cards still in the deck: every draw
/// names a card whose state is `Drawable`, with weight one, each card at
/// most once (in increasing order of value), and every card still in the
/// deck is offered.
pub proof fn lemma_draws_are_the_deck(cards: Seq<Option<CardState>>)
    requires
        cards.len() == CARD_VALUES,
    ensures
        forall|j: int| 0 <= j < draws(cards, CARD_VALUES as int).len() ==> {
            let (a, weight) = #[trigger] draws(cards, CARD_VALUES as int)[j];
            &&& weight == 1
            &&& a matches NTAction::Draw(c) && cards[c as int] == Some(CardState::Drawable)
        },
        forall|j1: int, j2: int| 0 <= j1 < j2 < draws(cards, CARD_VALUES as int).len()
            ==> #[trigger] draws(cards, CARD_VALUES as int)[j1].0 != #[trigger] draws(cards, CARD_VALUES as int)[j2].0,
        forall|c: u8| #[trigger] cards[c as int] == Some(CardState::Drawable) ==> draws(cards, CARD_VALUES as int).contains(
            (NTAction::Draw(c), 1u32),
        ),
{
    let d = draws(cards, CARD_VALUES as int);
    lemma_draws_below(cards, CARD_VALUES as int);
    assert forall|c: u8| #[trigger] cards[c as int] == Some(CardState::Drawable) implies d.contains((NTAction::Draw(c), 1u32)) by {
        let j = choose|j: int| 0 <= j < d.len() && drawn_value(#[trigger] d[j].0) == c as int;
        assert(d[j] == (NTAction::Draw(c), 1u32));
    }
    assert forall|j1: int, j2: int| 0 <= j1 < j2 < d.len() implies #[trigger] d[j1].0 != #[trigger] d[j2].0 by {
        assert(drawn_value(d[j1].0) < drawn_value(d[j2].0));
    }
}

} // verus!
