//! A simplified game of blackjack where the dealer has a fixed strategy and
//! only the player takes actions. The cards are dealt by whoever calls: this
//! module says what follows from a deal.

use vstd::prelude::*;
use crate::player::ucb::clamped;

verus! {

#[derive(Debug, Clone, Copy, PartialEq, Eq, Structural, Hash)]
pub enum Suit {
    Spades,
    Hearts,
    Diamonds,
    Clubs,
}

/// A card: the values run from 1 for the ace to 13 for the king.
#[derive(Debug, Clone, Copy, PartialEq, Eq, Structural, Hash)]
pub struct Card {
    pub value: u8,
    pub suit: Suit,
}

#[derive(Debug, Clone, Copy, PartialEq, Eq, Structural, Hash)]
pub enum BjAction {
    PlaceBet(i64),
    Hit,
    Stand,
    Surrender,
}

#[derive(Debug, Clone, Copy, PartialEq, Eq, Structural, Hash)]
pub enum BjStatus {
    Wagering,
    PlayerTurn,
    Ended,
}

/// The cards of one side, in the order in which they were dealt. A hand
/// holds 22 cards at most: no hand of more cards is 21 or less.
#[derive(Debug, Clone, Copy)]
pub struct Hand {
    /// The cards; the places from `len` on hold the ace of spades.
    cards: [Card; 22],
    len: usize,
}

/// The state of a game: the two hands, the bet and the stage of the game.
#[derive(Debug, Clone, Copy)]
pub struct BjState {
    dealer: Hand,
    player: Hand,
    bet: i64,
    status: BjStatus,
}

/// What one sees of a game.
pub struct BjView {
    pub dealer: Seq<Card>,
    pub player: Seq<Card>,
    pub bet: i64,
    pub status: BjStatus,
}

/// What follows from a deal: the new state and the reward in thousandths of
/// a unit.
pub struct Outcome {
    pub state: BjView,
    pub reward: int,
}

/// The card is one of the 52 of the deck.
pub open spec fn is_card(c: Card) -> bool {
    1 <= c.value <= 13
}

/// The number of the suit, from 0 to 3.
pub open spec fn suit_number(s: Suit) -> int {
    match s {
        Suit::Spades => 0,
        Suit::Hearts => 1,
        Suit::Diamonds => 2,
        Suit::Clubs => 3,
    }
}

/// The place of the card in the deck, from 0 to 51.
pub open spec fn card_number(c: Card) -> int {
    4 * (c.value - 1) + suit_number(c.suit)
}

/// What a card counts with the ace taken as 1: the court cards count 10.
pub open spec fn pips(c: Card) -> nat {
    if c.value >= 10 {
        10
    } else {
        c.value as nat
    }
}

/// The total of the cards with every ace taken as 1.
pub open spec fn hard_total(cards: Seq<Card>) -> nat
    decreases cards.len(),
{
    if cards.len() == 0 {
        0
    } else {
        hard_total(cards.drop_last()) + pips(cards.last())
    }
}

/// The number of aces among the cards.
pub open spec fn aces(cards: Seq<Card>) -> nat
    decreases cards.len(),
{
    if cards.len() == 0 {
        0
    } else {
        aces(cards.drop_last()) + if cards.last().value == 1 {
            1nat
        } else {
            0nat
        }
    }
}

/// The total `hard` raised by 10 for as many of the `aces` as fit under 21.
pub open spec fn soft(hard: nat, aces: nat) -> nat
    decreases aces,
{
    if aces > 0 && hard + 10 <= 21 {
        soft(hard + 10, (aces - 1) as nat)
    } else {
        hard
    }
}

/// In blackjack, the value of the hand is the sum of the values of the cards.
/// 10, Jack, Queen, and King are all worth 10.
/// The Ace is worth 1 or 11.
/// The score is the highest that is not over 21 (trying both 1 and 11 for
/// each ace), and the lowest where none is.
pub open spec fn score(cards: Seq<Card>) -> nat {
    soft(hard_total(cards), aces(cards))
}

/// The dealer's hand after the dealer has drawn from the end of the talon
/// until the score is 17 or more.
pub open spec fn dealer_draws(dealer: Seq<Card>, talon: Seq<Card>) -> Seq<Card>
    decreases talon.len(),
{
    if score(dealer) < 17 && talon.len() > 0 {
        dealer_draws(dealer.push(talon.last()), talon.drop_last())
    } else {
        dealer
    }
}

/// What follows when the action is taken in the state and the cards come
/// from the end of the talon.
pub open spec fn settled(s: BjView, action: BjAction, talon: Seq<Card>) -> Outcome {
    let n = talon.len();
    match (s.status, action) {
        (BjStatus::Wagering, BjAction::PlaceBet(bet)) => {
            let player = s.player.push(talon[n - 1]).push(talon[n - 2]);
            let dealer = s.dealer.push(talon[n - 3]);
            if score(player) == 21 {
                Outcome {
                    state: BjView { dealer, player, bet, status: BjStatus::Ended },
                    reward: clamped(1500 * bet),
                }
            } else {
                Outcome { state: BjView { dealer, player, bet, status: BjStatus::PlayerTurn }, reward: 0 }
            }
        },
        (BjStatus::PlayerTurn, BjAction::Hit) => {
            let player = s.player.push(talon[n - 1]);
            if score(player) > 21 {
                Outcome {
                    state: BjView { player, status: BjStatus::Ended, ..s },
                    reward: clamped(-1000 * s.bet),
                }
            } else {
                Outcome { state: BjView { player, ..s }, reward: 0 }
            }
        },
        (BjStatus::PlayerTurn, BjAction::Stand) => {
            let dealer = dealer_draws(s.dealer, talon);
            let state = BjView { dealer, status: BjStatus::Ended, ..s };
            if score(dealer) > 21 || score(dealer) < score(s.player) {
                Outcome { state, reward: clamped(1000 * s.bet) }
            } else if score(dealer) == score(s.player) {
                Outcome { state, reward: 0 }
            } else {
                Outcome { state, reward: clamped(-1000 * s.bet) }
            }
        },
        (BjStatus::PlayerTurn, BjAction::Surrender) => Outcome {
            state: BjView { status: BjStatus::Ended, ..s },
            reward: clamped(-500 * s.bet),
        },
        _ => Outcome { state: s, reward: 0 },
    }
}

/// The action can be taken at the stage of the game.
pub open spec fn fits(status: BjStatus, action: BjAction) -> bool {
    match (status, action) {
        (BjStatus::Wagering, BjAction::PlaceBet(_)) => true,
        (BjStatus::PlayerTurn, BjAction::Hit) => true,
        (BjStatus::PlayerTurn, BjAction::Stand) => true,
        (BjStatus::PlayerTurn, BjAction::Surrender) => true,
        _ => false,
    }
}

/// The state is one that a game can be in: the hands hold cards of the deck;
/// before the bet both are empty; during the player's turn the dealer holds
/// one card and the player is not over 21.
pub open spec fn is_state(s: BjView) -> bool {
    &&& forall|i: int| 0 <= i < s.dealer.len() ==> is_card(#[trigger] s.dealer[i])
    &&& forall|i: int| 0 <= i < s.player.len() ==> is_card(#[trigger] s.player[i])
    &&& s.dealer.len() <= 22 && s.player.len() <= 22
    &&& s.status is Wagering ==> s.dealer.len() == 0 && s.player.len() == 0
    &&& s.status is PlayerTurn ==> s.dealer.len() == 1 && score(s.player) <= 21
}

/// The cards can be dealt from in the state: they are cards of the deck, and
/// together with the hands they are at least 52.
pub open spec fn is_talon(s: BjView, talon: Seq<Card>) -> bool {
    &&& forall|i: int| 0 <= i < talon.len() ==> is_card(#[trigger] talon[i])
    &&& talon.len() + s.dealer.len() + s.player.len() >= 52
}

/// One card more.
pub proof fn totals_of_push(cards: Seq<Card>, c: Card)
    ensures
        hard_total(cards.push(c)) == hard_total(cards) + pips(c),
        aces(cards.push(c)) == aces(cards) + if c.value == 1 {
            1nat
        } else {
            0nat
        },
{
    assert(cards.push(c).drop_last() =~= cards);
}

/// The score lies between the hard total and the hard total with every ace
/// raised, and cards of the deck count at least 1 each.
pub proof fn score_bounds(cards: Seq<Card>)
    ensures
        hard_total(cards) <= score(cards) <= hard_total(cards) + 10 * aces(cards),
        aces(cards) <= cards.len(),
        hard_total(cards) <= 10 * cards.len(),
        (forall|i: int| 0 <= i < cards.len() ==> is_card(#[trigger] cards[i])) ==> cards.len() <= hard_total(
            cards,
        ),
    decreases cards.len(),
{
    soft_bounds(hard_total(cards), aces(cards));
    if cards.len() > 0 {
        score_bounds(cards.drop_last());
        if forall|i: int| 0 <= i < cards.len() ==> is_card(#[trigger] cards[i]) {
            assert forall|i: int| 0 <= i < cards.drop_last().len() implies is_card(
                #[trigger] cards.drop_last()[i],
            ) by {
                assert(is_card(cards[i]));
            }
            assert(is_card(cards[cards.len() - 1]));
        }
    }
}

/// Raising aces never lowers the total, adds at most 10 for each, and does
/// not take a total over 21 that was not over 21.
pub proof fn soft_bounds(hard: nat, aces: nat)
    ensures
        hard <= soft(hard, aces) <= hard + 10 * aces,
        hard <= 21 ==> soft(hard, aces) <= 21,
    decreases aces,
{
    if aces > 0 && hard + 10 <= 21 {
        soft_bounds(hard + 10, (aces - 1) as nat);
    }
}

/// The score is the only total that raises some of the aces, stays under 21
/// where an ace is raised, and could not raise one more.
pub proof fn soft_is_the_best(hard: nat, aces: nat, raised: nat)
    requires
        raised <= aces,
        raised > 0 ==> hard + 10 * raised <= 21,
        raised < aces ==> hard + 10 * raised + 10 > 21,
    ensures
        soft(hard, aces) == hard + 10 * raised,
    decreases aces,
{
    if aces > 0 && hard + 10 <= 21 {
        soft_is_the_best(hard + 10, (aces - 1) as nat, (raised - 1) as nat);
    }
}

impl View for Hand {
    type V = Seq<Card>;

    closed spec fn view(&self) -> Seq<Card> {
        self.cards@.take(self.len as int)
    }
}

impl Hand {
    /// The hand holds at most 22 cards, and its unused places hold the ace
    /// of spades.
    pub closed spec fn wf(&self) -> bool {
        &&& self.len <= 22
        &&& forall|i: int| self.len <= i < 22 ==> #[trigger] self.cards@[i] == (Card { value: 1, suit: Suit::Spades })
    }

    /// Two hands in order with the same cards are the same hand.
    pub proof fn cards_determine_hand(&self, other: &Hand)
        requires
            self.wf(),
            other.wf(),
            self@ == other@,
        ensures
            *self == *other,
    {
        assert(self.len == other.len) by {
            assert(self@.len() == self.len);
            assert(other@.len() == other.len);
        }
        assert forall|i: int| 0 <= i < 22 implies self.cards@[i] == other.cards@[i] by {
            if i < self.len {
                assert(self@[i] == self.cards@[i]);
                assert(other@[i] == other.cards@[i]);
            }
        }
        assert(self.cards =~= other.cards);
    }

    /// The empty hand.
    pub fn new() -> (h: Self)
        ensures
            h.wf(),
            h@ == Seq::<Card>::empty(),
    {
        let h = Hand { cards: [Card { value: 1, suit: Suit::Spades };22], len: 0 };
        assert(h@ =~= Seq::<Card>::empty());
        h
    }

    /// The number of cards.
    pub fn len(&self) -> (n: usize)
        requires
            self.wf(),
        ensures
            n == self@.len(),
    {
        self.len
    }

    /// The card at place `i`.
    pub fn card(&self, i: usize) -> (c: Card)
        requires
            self.wf(),
            i < self@.len(),
        ensures
            c == self@[i as int],
    {
        self.cards[i]
    }

    /// Takes one card more.
    pub fn push(&mut self, c: Card)
        requires
            old(self).wf(),
            old(self)@.len() < 22,
        ensures
            final(self).wf(),
            final(self)@ == old(self)@.push(c),
    {
        self.cards[self.len] = c;
        self.len = self.len + 1;
        assert(self@ =~= old(self)@.push(c));
    }

    /// Are the two hands the same?
    pub fn same(&self, other: &Hand) -> (r: bool)
        ensures
            r == (*self == *other),
    {
        if self.len != other.len {
            return false;
        }
        let mut i: usize = 0;
        while i < 22
            invariant
                i <= 22,
                forall|j: int| 0 <= j < i ==> self.cards@[j] == other.cards@[j],
            decreases 22 - i,
        {
            let a = self.cards[i];
            let b = other.cards[i];
            if a.value != b.value || !same_suit(a.suit, b.suit) {
                return false;
            }
            i += 1;
        }
        assert(self.cards =~= other.cards);
        true
    }
}

/// Are the two suits the same?
pub fn same_suit(a: Suit, b: Suit) -> (r: bool)
    ensures
        r == (a == b),
{
    match (a, b) {
        (Suit::Spades, Suit::Spades) => true,
        (Suit::Hearts, Suit::Hearts) => true,
        (Suit::Diamonds, Suit::Diamonds) => true,
        (Suit::Clubs, Suit::Clubs) => true,
        _ => false,
    }
}

/// The 52 cards of the deck, the four suits of each value side by side.
pub fn all_cards() -> (cards: Vec<Card>)
    ensures
        cards.len() == 52,
        forall|i: int| 0 <= i < 52 ==> is_card(#[trigger] cards[i]) && card_number(cards[i]) == i,
{
    let mut cards: Vec<Card> = Vec::new();
    let mut value: u8 = 1;
    while value <= 13
        invariant
            1 <= value <= 14,
            cards.len() == 4 * (value - 1),
            forall|i: int| 0 <= i < cards.len() ==> is_card(#[trigger] cards[i]) && card_number(cards[i]) == i,
        decreases 14 - value,
    {
        cards.push(Card { value, suit: Suit::Spades });
        cards.push(Card { value, suit: Suit::Hearts });
        cards.push(Card { value, suit: Suit::Diamonds });
        cards.push(Card { value, suit: Suit::Clubs });
        value += 1;
    }
    cards
}

impl View for BjState {
    type V = BjView;

    closed spec fn view(&self) -> BjView {
        BjView { dealer: self.dealer@, player: self.player@, bet: self.bet, status: self.status }
    }
}

impl BjState {
    /// The hands are in order and the state is one that a game can be in.
    pub closed spec fn wf(&self) -> bool {
        self.dealer.wf() && self.player.wf() && is_state(self@)
    }

    /// Two states in order that look the same are the same state.
    pub proof fn view_determines_state(&self, other: &BjState)
        requires
            self.wf(),
            other.wf(),
            self@ == other@,
        ensures
            *self == *other,
    {
        self.dealer.cards_determine_hand(&other.dealer);
        self.player.cards_determine_hand(&other.player);
    }

    /// The state before the bet.
    pub fn init() -> (s: Self)
        ensures
            s.wf(),
            s@ == (BjView {
                dealer: Seq::empty(),
                player: Seq::empty(),
                bet: 0,
                status: BjStatus::Wagering,
            }),
    {
        BjState { dealer: Hand::new(), player: Hand::new(), bet: 0, status: BjStatus::Wagering }
    }

    /// The score of a hand.
    pub fn score_hand(hand: &Hand) -> (s: u8)
        requires
            hand.wf(),
        ensures
            s == score(hand@),
    {
        let ghost cards = hand@;
        let mut score: u8 = 0;
        let mut aces_held: u8 = 0;
        let mut i: usize = 0;
        while i < hand.len
            invariant
                i <= hand.len <= 22,
                cards == hand@,
                aces_held == aces(cards.take(i as int)),
                aces_held <= i,
                score == hard_total(cards.take(i as int)) + 10 * aces_held,
                score <= 11 * i,
            decreases hand.len - i,
        {
            let card = hand.cards[i];
            proof {
                assert(cards.take(i + 1) =~= cards.take(i as int).push(cards[i as int]));
                totals_of_push(cards.take(i as int), cards[i as int]);
                assert(cards[i as int] == card);
            }
            if card.value == 1 {
                aces_held += 1;
                score += 11;
            } else if card.value >= 10 {
                score += 10;
            } else {
                score += card.value;
            }
            i += 1;
        }
        assert(cards.take(hand.len as int) =~= cards);
        let ghost hard = hard_total(cards);
        let ghost all = aces(cards);
        while score > 21 && aces_held > 0
            invariant
                aces_held <= all,
                score == hard + 10 * aces_held,
                aces_held < all ==> score + 10 > 21,
            decreases aces_held,
        {
            score -= 10;
            aces_held -= 1;
        }
        proof {
            soft_is_the_best(hard, all, aces_held as nat);
        }
        score
    }

    pub fn player_score(&self) -> (s: u8)
        requires
            self.wf(),
        ensures
            s == score(self@.player),
    {
        Self::score_hand(&self.player)
    }

    pub fn dealer_score(&self) -> (s: u8)
        requires
            self.wf(),
        ensures
            s == score(self@.dealer),
    {
        Self::score_hand(&self.dealer)
    }

    /// The stage of the game.
    pub fn status(&self) -> (s: BjStatus)
        ensures
            s == self@.status,
    {
        self.status
    }

    /// The bet.
    pub fn bet(&self) -> (b: i64)
        ensures
            b == self@.bet,
    {
        self.bet
    }

    /// The dealer's hand.
    pub fn dealer(&self) -> (h: Hand)
        ensures
            h@ == self@.dealer,
            self.wf() ==> h.wf(),
    {
        self.dealer
    }

    /// The player's hand.
    pub fn player(&self) -> (h: Hand)
        ensures
            h@ == self@.player,
            self.wf() ==> h.wf(),
    {
        self.player
    }

    /// Is the game over?
    pub fn is_terminal(&self) -> (t: bool)
        ensures
            t == (self@.status is Ended),
    {
        match self.status {
            BjStatus::Ended => true,
            _ => false,
        }
    }

    /// The actions that the player can take: three bets before the deal,
    /// then hit, stand or surrender, and nothing once the game is over.
    pub fn allowed_actions(&self) -> (v: Vec<BjAction>)
        ensures
            v@ == allowed(self@.status),
    {
        match self.status {
            BjStatus::Wagering => {
                let mut v = Vec::new();
                v.push(BjAction::PlaceBet(1));
                v.push(BjAction::PlaceBet(10));
                v.push(BjAction::PlaceBet(100));
                assert(v@ =~= allowed(BjStatus::Wagering));
                v
            },
            BjStatus::PlayerTurn => {
                let mut v = Vec::new();
                v.push(BjAction::Hit);
                v.push(BjAction::Stand);
                v.push(BjAction::Surrender);
                assert(v@ =~= allowed(BjStatus::PlayerTurn));
                v
            },
            BjStatus::Ended => {
                let v = Vec::new();
                assert(v@ =~= allowed(BjStatus::Ended));
                v
            },
        }
    }

    /// Are the two states the same?
    pub fn same(&self, other: &BjState) -> (r: bool)
        ensures
            r == (*self == *other),
    {
        self.dealer.same(&other.dealer) && self.player.same(&other.player) && self.bet == other.bet
            && self.status == other.status
    }

    /// The cards of the deck that neither hand holds, in the order of the
    /// deck. Shuffled, they are the talon from which the game goes on.
    pub fn remaining_cards(&self) -> (rest: Vec<Card>)
        requires
            self.wf(),
        ensures
            is_talon(self@, rest@),
            forall|i: int|
                0 <= i < rest.len() ==> !self@.dealer.contains(#[trigger] rest[i]) && !self@.player.contains(
                    rest[i],
                ),
            forall|c: Card|
                is_card(c) && !self@.dealer.contains(c) && !self@.player.contains(c) ==> rest@.contains(c),
    {
        let deck = all_cards();
        let mut held: Vec<bool> = Vec::new();
        let mut n: usize = 0;
        while n < 52
            invariant
                n <= 52,
                held.len() == n,
                forall|i: int| 0 <= i < n ==> !(#[trigger] held[i]),
            decreases 52 - n,
        {
            held.push(false);
            n += 1;
        }
        proof {
            no_flag_counts_nothing(held@, 52);
        }
        let ghost dealer = self@.dealer;
        let ghost player = self@.player;
        let mut i: usize = 0;
        while i < self.dealer.len
            invariant
                i <= self.dealer.len,
                self.wf(),
                dealer == self@.dealer,
                held.len() == 52,
                count_true(held@, 52) <= i,
                forall|k: int| 0 <= k < 52 ==> (#[trigger] held[k] <==> exists|j: int|
                    0 <= j < i && card_number(#[trigger] dealer[j]) == k),
            decreases self.dealer.len - i,
        {
            let c = self.dealer.card(i);
            assert(is_card(dealer[i as int]));
            let number = card_number_of(c);
            let ghost before = held@;
            held.set(number, true);
            proof {
                count_true_after_set(before, number as int, 52);
                assert forall|k: int| 0 <= k < 52 implies (#[trigger] held[k] <==> exists|j: int|
                    0 <= j < i + 1 && card_number(#[trigger] dealer[j]) == k) by {
                    if k == number {
                        assert(card_number(dealer[i as int]) == k);
                    } else if before[k] {
                        let j = choose|j: int| 0 <= j < i && card_number(#[trigger] dealer[j]) == k;
                        assert(0 <= j < i + 1 && card_number(dealer[j]) == k);
                    }
                }
            }
            i += 1;
        }
        let ghost marked = held@;
        let ghost dealt = self.dealer.len;
        i = 0;
        while i < self.player.len
            invariant
                i <= self.player.len,
                self.wf(),
                player == self@.player,
                dealer == self@.dealer,
                dealt == dealer.len(),
                held.len() == 52,
                count_true(held@, 52) <= dealt + i,
                forall|k: int| 0 <= k < 52 ==> (#[trigger] held[k] <==> (exists|j: int|
                    0 <= j < dealt && card_number(#[trigger] dealer[j]) == k) || (exists|j: int|
                    0 <= j < i && card_number(#[trigger] player[j]) == k)),
            decreases self.player.len - i,
        {
            let c = self.player.card(i);
            assert(is_card(player[i as int]));
            let number = card_number_of(c);
            let ghost before = held@;
            held.set(number, true);
            proof {
                count_true_after_set(before, number as int, 52);
                assert forall|k: int| 0 <= k < 52 implies (#[trigger] held[k] <==> (exists|j: int|
                    0 <= j < dealt && card_number(#[trigger] dealer[j]) == k) || (exists|j: int|
                    0 <= j < i + 1 && card_number(#[trigger] player[j]) == k)) by {
                    if k == number {
                        assert(card_number(player[i as int]) == k);
                    } else if before[k] {
                        if exists|j: int| 0 <= j < i && card_number(#[trigger] player[j]) == k {
                            let j = choose|j: int| 0 <= j < i && card_number(#[trigger] player[j]) == k;
                            assert(0 <= j < i + 1 && card_number(player[j]) == k);
                        }
                    }
                }
            }
            i += 1;
        }
        let mut rest: Vec<Card> = Vec::new();
        let mut k: usize = 0;
        while k < 52
            invariant
                k <= 52,
                self.wf(),
                player == self@.player,
                dealer == self@.dealer,
                deck.len() == 52,
                held.len() == 52,
                forall|i: int| 0 <= i < 52 ==> is_card(#[trigger] deck[i]) && card_number(deck[i]) == i,
                forall|n: int| 0 <= n < 52 ==> (#[trigger] held[n] <==> (exists|j: int|
                    0 <= j < dealer.len() && card_number(#[trigger] dealer[j]) == n) || (exists|j: int|
                    0 <= j < player.len() && card_number(#[trigger] player[j]) == n)),
                rest.len() + count_true(held@, k as nat) == k,
                forall|i: int| 0 <= i < rest.len() ==> is_card(#[trigger] rest[i]) && !held[card_number(rest[i])],
                forall|n: int| 0 <= n < k && !held[n] ==> rest@.contains(#[trigger] deck[n]),
            decreases 52 - k,
        {
            let ghost before = rest@;
            if !held[k] {
                rest.push(deck[k]);
                proof {
                    assert(rest@[before.len() as int] == deck[k as int]);
                    assert forall|n: int| 0 <= n < k + 1 && !held[n] implies rest@.contains(
                        #[trigger] deck[n],
                    ) by {
                        if n < k {
                            let j = choose|j: int| 0 <= j < before.len() && before[j] == deck[n];
                            assert(rest@[j] == deck[n]);
                        }
                    }
                }
            }
            k += 1;
        }
        proof {
            assert forall|i: int| 0 <= i < rest.len() implies !dealer.contains(#[trigger] rest[i])
                && !player.contains(rest[i]) by {
                let c = rest[i];
                if dealer.contains(c) {
                    let j = choose|j: int| 0 <= j < dealer.len() && dealer[j] == c;
                    assert(card_number(dealer[j]) == card_number(c));
                }
                if player.contains(c) {
                    let j = choose|j: int| 0 <= j < player.len() && player[j] == c;
                    assert(card_number(player[j]) == card_number(c));
                }
            }
            assert forall|c: Card| is_card(c) && !dealer.contains(c) && !player.contains(c) implies rest@.contains(
                c,
            ) by {
                let n = card_number(c);
                card_numbers_name_cards(c, deck[n]);
                if held[n] {
                    if exists|j: int| 0 <= j < dealer.len() && card_number(#[trigger] dealer[j]) == n {
                        let j = choose|j: int| 0 <= j < dealer.len() && card_number(#[trigger] dealer[j]) == n;
                        assert(is_card(dealer[j]));
                        card_numbers_name_cards(c, dealer[j]);
                    } else {
                        let j = choose|j: int| 0 <= j < player.len() && card_number(#[trigger] player[j]) == n;
                        assert(is_card(player[j]));
                        card_numbers_name_cards(c, player[j]);
                    }
                }
            }
        }
        rest
    }

    /// Takes the action with the cards dealt from the end of the talon, and
    /// tells the new state and the reward in thousandths of a unit. The
    /// player's first two cards and the dealer's first card come with the
    /// bet; a hand of 21 wins one and a half times the bet at once. A hit
    /// that takes the player over 21 loses the bet. When the player stands
    /// the dealer draws to 17 or more, and the higher hand that is not over
    /// 21 wins the bet. Surrender loses half the bet.
    pub fn act_with(self, action: &BjAction, talon: Vec<Card>) -> (r: (BjState, i64))
        requires
            self.wf(),
            fits(self@.status, *action),
            is_talon(self@, talon@),
        ensures
            r.0.wf(),
            r.0@ == settled(self@, *action, talon@).state,
            r.1 == settled(self@, *action, talon@).reward,
    {
        let mut s = self;
        let mut talon = talon;
        let ghost cards = talon@;
        let n = talon.len();
        match (s.status, *action) {
            (BjStatus::Wagering, BjAction::PlaceBet(bet)) => {
                s.bet = bet;
                s.status = BjStatus::PlayerTurn;
                let first = talon[n - 1];
                let second = talon[n - 2];
                let third = talon[n - 3];
                s.player.push(first);
                s.player.push(second);
                s.dealer.push(third);
                proof {
                    assert(is_card(cards[n - 1]) && is_card(cards[n - 2]) && is_card(cards[n - 3]));
                    assert(self@.player =~= Seq::<Card>::empty());
                    assert(self@.dealer =~= Seq::<Card>::empty());
                    totals_of_push(Seq::empty(), first);
                    totals_of_push(Seq::<Card>::empty().push(first), second);
                    soft_bounds(hard_total(s.player@), aces(s.player@));
                }
                if Self::score_hand(&s.player) == 21 {
                    s.status = BjStatus::Ended;
                    let r = scaled(1500, s.bet);
                    (s, r)
                } else {
                    (s, 0)
                }
            },
            (BjStatus::PlayerTurn, BjAction::Hit) => {
                proof {
                    score_bounds(self@.player);
                    assert(is_card(cards[n - 1]));
                }
                s.player.push(talon[n - 1]);
                if Self::score_hand(&s.player) > 21 {
                    s.status = BjStatus::Ended;
                    let r = scaled(-1000, s.bet);
                    (s, r)
                } else {
                    (s, 0)
                }
            },
            (BjStatus::PlayerTurn, BjAction::Stand) => {
                proof {
                    score_bounds(self@.player);
                }
                let player_score = Self::score_hand(&s.player);
                let mut dealer_score = Self::score_hand(&s.dealer);
                while dealer_score < 17
                    invariant
                        s.dealer.wf(),
                        s.player == self.player,
                        s.bet == self.bet,
                        dealer_score == score(s.dealer@),
                        forall|i: int| 0 <= i < s.dealer@.len() ==> is_card(#[trigger] s.dealer@[i]),
                        forall|i: int| 0 <= i < talon.len() ==> is_card(#[trigger] talon[i]),
                        talon.len() + s.dealer@.len() >= 30,
                        s.dealer@.len() <= 17,
                        dealer_draws(self@.dealer, cards) == dealer_draws(s.dealer@, talon@),
                    decreases talon.len(),
                {
                    let ghost hand = s.dealer@;
                    proof {
                        score_bounds(hand);
                        totals_of_push(hand, talon@.last());
                        assert(is_card(talon[talon.len() - 1]));
                    }
                    let ghost before = talon@;
                    let card = talon.pop().unwrap();
                    assert(talon@ =~= before.drop_last());
                    s.dealer.push(card);
                    proof {
                        assert(pips(card) >= 1);
                        assert(hard_total(s.dealer@) == hard_total(hand) + pips(card));
                    }
                    dealer_score = Self::score_hand(&s.dealer);
                }
                s.status = BjStatus::Ended;
                if dealer_score > 21 || dealer_score < player_score {
                    let r = scaled(1000, s.bet);
                    (s, r)
                } else if dealer_score == player_score {
                    (s, 0)
                } else {
                    let r = scaled(-1000, s.bet);
                    (s, r)
                }
            },
            (BjStatus::PlayerTurn, BjAction::Surrender) => {
                s.status = BjStatus::Ended;
                let r = scaled(-500, s.bet);
                (s, r)
            },
            _ => (s, 0),
        }
    }
}

/// The actions that can be taken at the stage of the game.
pub open spec fn allowed(status: BjStatus) -> Seq<BjAction> {
    match status {
        BjStatus::Wagering => seq![BjAction::PlaceBet(1), BjAction::PlaceBet(10), BjAction::PlaceBet(100)],
        BjStatus::PlayerTurn => seq![BjAction::Hit, BjAction::Stand, BjAction::Surrender],
        BjStatus::Ended => Seq::empty(),
    }
}

/// The number of set flags among the first `n`.
pub open spec fn count_true(flags: Seq<bool>, n: nat) -> nat
    decreases n,
{
    if n == 0 {
        0
    } else {
        count_true(flags, (n - 1) as nat) + if flags[n - 1] {
            1nat
        } else {
            0nat
        }
    }
}

/// Where no flag is set the count is 0.
pub proof fn no_flag_counts_nothing(flags: Seq<bool>, n: nat)
    requires
        forall|i: int| 0 <= i < n ==> !(#[trigger] flags[i]),
    ensures
        count_true(flags, n) == 0,
    decreases n,
{
    if n > 0 {
        no_flag_counts_nothing(flags, (n - 1) as nat);
    }
}

/// Setting one flag raises the count by one at most.
pub proof fn count_true_after_set(flags: Seq<bool>, i: int, n: nat)
    requires
        0 <= i < flags.len(),
        n <= flags.len(),
    ensures
        count_true(flags.update(i, true), n) <= count_true(flags, n) + 1,
        i >= n ==> count_true(flags.update(i, true), n) == count_true(flags, n),
    decreases n,
{
    if n > 0 {
        count_true_after_set(flags, i, (n - 1) as nat);
    }
}

/// Two cards of the deck with the same number are the same card.
pub proof fn card_numbers_name_cards(a: Card, b: Card)
    requires
        is_card(a),
        is_card(b),
        card_number(a) == card_number(b),
    ensures
        a == b,
{
}

/// The place of a card in the deck.
pub fn card_number_of(c: Card) -> (n: usize)
    requires
        is_card(c),
    ensures
        n == card_number(c),
        n < 52,
{
    let suit: usize = match c.suit {
        Suit::Spades => 0,
        Suit::Hearts => 1,
        Suit::Diamonds => 2,
        Suit::Clubs => 3,
    };
    4 * (c.value as usize - 1) + suit
}

/// `factor` thousandths of the bet for each unit of it, held to the range of
/// the rewards.
fn scaled(factor: i64, bet: i64) -> (r: i64)
    requires
        -1500 <= factor <= 1500,
    ensures
        r == clamped(factor * bet),
{
    assert(-1500 * 0x8000_0000_0000_0000 <= factor * bet <= 1500 * 0x8000_0000_0000_0000)
        by (nonlinear_arith)
        requires
            -1500 <= factor <= 1500,
            -0x8000_0000_0000_0000 <= bet <= 0x7fff_ffff_ffff_ffff,
    ;
    let product: i128 = (factor as i128) * (bet as i128);
    if product > i64::MAX as i128 {
        i64::MAX
    } else if product < i64::MIN as i128 {
        i64::MIN
    } else {
        product as i64
    }
}

} // verus!
