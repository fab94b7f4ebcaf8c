use xoxo::black_jack::{all_cards, BjAction, BjState, BjStatus, Card, Hand, Suit};

fn card(value: u8) -> Card {
    Card { value, suit: Suit::Hearts }
}

fn hand(values: &[u8]) -> Hand {
    let mut h = Hand::new();
    for &v in values {
        h.push(card(v));
    }
    h
}

/// A talon from which the given values come in turn, first the first.
fn talon(values: &[u8]) -> Vec<Card> {
    let mut t: Vec<Card> = all_cards();
    for &v in values.iter().rev() {
        t.push(Card { value: v, suit: Suit::Clubs });
    }
    t
}

#[test]
fn black_jack_deck() {
    let cards = all_cards();
    assert_eq!(cards.len(), 52);
    assert_eq!(cards[0], Card { value: 1, suit: Suit::Spades });
    assert_eq!(cards[51], Card { value: 13, suit: Suit::Clubs });
    for (i, a) in cards.iter().enumerate() {
        assert!(1 <= a.value && a.value <= 13);
        for b in &cards[..i] {
            assert_ne!(a, b);
        }
    }
}

#[test]
fn black_jack_scores() {
    assert_eq!(BjState::score_hand(&hand(&[])), 0);
    assert_eq!(BjState::score_hand(&hand(&[1, 13])), 21);
    assert_eq!(BjState::score_hand(&hand(&[1, 1])), 12);
    assert_eq!(BjState::score_hand(&hand(&[1, 1, 12])), 12);
    assert_eq!(BjState::score_hand(&hand(&[10, 9, 5])), 24);
    assert_eq!(BjState::score_hand(&hand(&[1, 5])), 16);
    assert_eq!(BjState::score_hand(&hand(&[1, 5, 11])), 16);
    assert_eq!(BjState::score_hand(&hand(&[2, 3, 4])), 9);
    assert_eq!(BjState::score_hand(&hand(&[1, 1, 1, 1, 7])), 21);
    assert_eq!(BjState::score_hand(&hand(&[13, 12, 1])), 21);
    assert_eq!(BjState::score_hand(&hand(&[13, 12, 1, 1])), 22);
}

#[test]
fn black_jack_before_the_bet() {
    let s = BjState::init();
    assert_eq!(s.status(), BjStatus::Wagering);
    assert_eq!(s.bet(), 0);
    assert_eq!(s.player_score(), 0);
    assert_eq!(s.dealer_score(), 0);
    assert!(!s.is_terminal());
    assert_eq!(
        s.allowed_actions(),
        vec![BjAction::PlaceBet(1), BjAction::PlaceBet(10), BjAction::PlaceBet(100)]
    );
    assert_eq!(s.remaining_cards(), all_cards());
    assert!(s.same(&BjState::init()));
}

#[test]
fn black_jack_natural_wins_one_and_a_half() {
    let (s, reward) = BjState::init().act_with(&BjAction::PlaceBet(10), talon(&[1, 13, 5]));
    assert_eq!(s.status(), BjStatus::Ended);
    assert_eq!(s.player_score(), 21);
    assert_eq!(s.dealer_score(), 5);
    assert_eq!(reward, 15_000);
    assert!(s.is_terminal());
    assert!(s.allowed_actions().is_empty());
    let (_, reward) = BjState::init().act_with(&BjAction::PlaceBet(i64::MAX), talon(&[1, 13, 5]));
    assert_eq!(reward, i64::MAX);
}

#[test]
fn black_jack_hit_stand_and_surrender() {
    let (s, reward) = BjState::init().act_with(&BjAction::PlaceBet(100), talon(&[10, 6, 9]));
    assert_eq!(s.status(), BjStatus::PlayerTurn);
    assert_eq!(reward, 0);
    assert_eq!(s.bet(), 100);
    assert_eq!(s.player_score(), 16);
    assert_eq!(s.dealer_score(), 9);
    assert_eq!(s.player().len(), 2);
    assert_eq!(s.player().card(1), Card { value: 6, suit: Suit::Clubs });
    assert_eq!(s.dealer().len(), 1);
    assert_eq!(
        s.allowed_actions(),
        vec![BjAction::Hit, BjAction::Stand, BjAction::Surrender]
    );
    // the three cards that were dealt are clubs: they are gone from the deck
    let rest = s.remaining_cards();
    assert_eq!(rest.len(), 49);
    assert!(!rest.contains(&Card { value: 10, suit: Suit::Clubs }));
    assert!(rest.contains(&Card { value: 10, suit: Suit::Hearts }));

    // a hit that stays under 21 goes on
    let (hit, reward) = s.act_with(&BjAction::Hit, talon(&[4]));
    assert_eq!((hit.status(), hit.player_score(), reward), (BjStatus::PlayerTurn, 20, 0));
    // a hit over 21 loses the bet
    let (bust, reward) = s.act_with(&BjAction::Hit, talon(&[6]));
    assert_eq!((bust.status(), bust.player_score(), reward), (BjStatus::Ended, 22, -100_000));
    // surrender loses half of it
    let (gone, reward) = s.act_with(&BjAction::Surrender, talon(&[]));
    assert_eq!((gone.status(), reward), (BjStatus::Ended, -50_000));
    // the dealer draws to 17 or more: 9 + 5 + 3 = 17 beats 16
    let (stood, reward) = s.act_with(&BjAction::Stand, talon(&[5, 3, 2]));
    assert_eq!((stood.status(), stood.dealer_score(), reward), (BjStatus::Ended, 17, -100_000));
    assert_eq!(stood.dealer().len(), 3);
    // the dealer goes over 21: 9 + 5 + 10
    let (stood, reward) = s.act_with(&BjAction::Stand, talon(&[5, 10]));
    assert_eq!((stood.dealer_score(), reward), (24, 100_000));
    // the player is ahead: 20 against 9 + 10
    let (stood, reward) = hit.act_with(&BjAction::Stand, talon(&[10]));
    assert_eq!((stood.dealer_score(), reward), (19, 100_000));
    // the same score: nothing won, nothing lost
    let (stood, reward) = hit.act_with(&BjAction::Stand, talon(&[1]));
    assert_eq!((stood.dealer_score(), reward), (20, 0));
    // the state that was acted on is as it was
    assert_eq!(s.player_score(), 16);
    assert!(!s.same(&hit));
}
