//! A round of blackjack against the dealer: the deck, card labels, the
//! dealer's drawing rule and the result of a round.
use vstd::prelude::*;
use crate::hand::{Card, hand_score, fixed_total, ace_count, add_aces_closed_form, hand_value};

verus! {

/// Suit `k` of a deck, in the order spades, hearts, diamonds, clubs.
pub open spec fn suit_of(k: int) -> char {
    if k == 0 {
        '\u{2660}'
    } else if k == 1 {
        '\u{2665}'
    } else if k == 2 {
        '\u{2666}'
    } else {
        '\u{2663}'
    }
}

fn suit_at(k: usize) -> (r: char)
    ensures
        r == suit_of(k as int),
{
    match k {
        0 => '\u{2660}',
        1 => '\u{2665}',
        2 => '\u{2666}',
        _ => '\u{2663}',
    }
}

/// A fresh deck: rank 1 to 13, each in the four suits in turn.
pub fn create_deck() -> (r: Vec<Card>)
    ensures
        r@.len() == 52,
        forall|v: int, k: int|
            1 <= v <= 13 && 0 <= k < 4 ==> #[trigger] r@[4 * (v - 1) + k] == (Card {
                value: v as u8,
                suit: suit_of(k),
            }),
{
    let mut deck: Vec<Card> = Vec::new();
    let mut value: u8 = 1;
    while value <= 13
        invariant
            1 <= value <= 14,
            deck@.len() == 4 * (value - 1),
            forall|v: int, k: int|
                1 <= v < value && 0 <= k < 4 ==> #[trigger] deck@[4 * (v - 1) + k] == (Card {
                    value: v as u8,
                    suit: suit_of(k),
                }),
        decreases 14 - value,
    {
        let mut k: usize = 0;
        while k < 4
            invariant
                1 <= value <= 13,
                k <= 4,
                deck@.len() == 4 * (value - 1) + k,
                forall|v: int, j: int|
                    1 <= v < value && 0 <= j < 4 ==> #[trigger] deck@[4 * (v - 1) + j] == (Card {
                        value: v as u8,
                        suit: suit_of(j),
                    }),
                forall|j: int|
                    0 <= j < k ==> #[trigger] deck@[4 * (value - 1) + j] == (Card {
                        value: value,
                        suit: suit_of(j),
                    }),
            decreases 4 - k,
        {
            deck.push(Card { value, suit: suit_at(k) });
            k += 1;
        }
        value += 1;
    }
    deck
}

/// Relies on rand's `SliceRandom::shuffle` with the thread-local generator:
/// it reorders the items in place and keeps every one of them.
#[verifier::external_body]
pub(crate) fn shuffle<T>(items: &mut Vec<T>)
    ensures
        final(items)@.to_multiset() == old(items)@.to_multiset(),
{
    rand::seq::SliceRandom::shuffle(items.as_mut_slice(), &mut rand::thread_rng())
}

/// A fresh deck in random order: the same 52 cards as `create_deck`.
pub fn shuffled_deck() -> (r: Vec<Card>)
    ensures
        r@.len() == 52,
        exists|d: Seq<Card>|
            d.len() == 52 && r@.to_multiset() == d.to_multiset() && forall|v: int, k: int|
                1 <= v <= 13 && 0 <= k < 4 ==> #[trigger] d[4 * (v - 1) + k] == (Card {
                    value: v as u8,
                    suit: suit_of(k),
                }),
{
    let mut deck = create_deck();
    let ghost fresh = deck@;
    shuffle(&mut deck);
    proof {
        vstd::seq_lib::to_multiset_len(deck@);
        vstd::seq_lib::to_multiset_len(fresh);
    }
    deck
}

/// The text shown for a rank: A, 2 to 10, J, Q, K.
pub open spec fn rank_text(v: u8) -> Seq<char> {
    if v == 1 {
        seq!['A']
    } else if 2 <= v <= 9 {
        seq![(v + 48) as char]
    } else if v == 10 {
        seq!['1', '0']
    } else if v == 11 {
        seq!['J']
    } else if v == 12 {
        seq!['Q']
    } else {
        seq!['K']
    }
}

/// The label of a card's rank; the suit symbol is shown after it.
pub fn rank_label(card: Card) -> (r: &'static str)
    requires
        1 <= card.value <= 13,
    ensures
        r@ == rank_text(card.value),
{
    match card.value {
        1 => {
            proof { reveal_strlit("A"); }
            "A"
        },
        2 => {
            proof { reveal_strlit("2"); }
            "2"
        },
        3 => {
            proof { reveal_strlit("3"); }
            "3"
        },
        4 => {
            proof { reveal_strlit("4"); }
            "4"
        },
        5 => {
            proof { reveal_strlit("5"); }
            "5"
        },
        6 => {
            proof { reveal_strlit("6"); }
            "6"
        },
        7 => {
            proof { reveal_strlit("7"); }
            "7"
        },
        8 => {
            proof { reveal_strlit("8"); }
            "8"
        },
        9 => {
            proof { reveal_strlit("9"); }
            "9"
        },
        10 => {
            proof { reveal_strlit("10"); }
            "10"
        },
        11 => {
            proof { reveal_strlit("J"); }
            "J"
        },
        12 => {
            proof { reveal_strlit("Q"); }
            "Q"
        },
        _ => {
            proof { reveal_strlit("K"); }
            "K"
        },
    }
}

/// The dealer's hand after drawing from `rest` in order while it scores
/// under 17 and cards remain.
pub open spec fn dealer_final(d: Seq<Card>, rest: Seq<Card>) -> Seq<Card>
    decreases rest.len(),
{
    if hand_score(d) >= 17 || rest.len() == 0 {
        d
    } else {
        dealer_final(d.push(rest[0]), rest.skip(1))
    }
}

proof fn lemma_push_score(s: Seq<Card>, c: Card)
    ensures
        hand_score(s.push(c)) <= hand_score(s) + 11,
{
    assert(s.push(c).drop_last() =~= s);
    add_aces_closed_form(fixed_total(s), ace_count(s));
    add_aces_closed_form(fixed_total(s.push(c)), ace_count(s.push(c)));
}

/// Plays the dealer's hand: draws the cards of `deck` from index `next` on
/// while the hand scores under 17, stopping early if the deck runs out.
/// Returns the index of the next undrawn card.
pub fn dealer_play(dealer: &mut Vec<Card>, deck: &[Card], next: usize) -> (r: usize)
    requires
        hand_score(old(dealer)@) <= u8::MAX,
        next <= deck@.len(),
    ensures
        final(dealer)@ == dealer_final(old(dealer)@, deck@.skip(next as int)),
        next <= r <= deck@.len(),
        final(dealer)@ == old(dealer)@ + deck@.subrange(next as int, r as int),
{
    let mut i: usize = next;
    while i < deck.len() && hand_value(dealer.as_slice()) < 17
        invariant
            next <= i <= deck@.len(),
            hand_score(dealer@) <= u8::MAX,
            dealer_final(dealer@, deck@.skip(i as int)) == dealer_final(
                old(dealer)@,
                deck@.skip(next as int),
            ),
            dealer@ == old(dealer)@ + deck@.subrange(next as int, i as int),
        decreases deck@.len() - i,
    {
        proof {
            lemma_push_score(dealer@, deck@[i as int]);
            assert(deck@.skip(i as int).skip(1) =~= deck@.skip(i + 1));
            assert(deck@.subrange(next as int, i + 1) =~= deck@.subrange(next as int, i as int).push(
                deck@[i as int],
            ));
        }
        dealer.push(deck[i]);
        i += 1;
    }
    i
}

/// How a round ends for the player.
#[derive(Clone, Copy, Debug, PartialEq, Eq, Structural)]
pub enum RoundOutcome {
    PlayerWins,
    Draw,
    DealerWins,
}

/// The result of a round that the player finished without busting: the
/// player wins if the dealer busts or scores less; equal scores draw.
pub fn round_outcome(player: u8, dealer: u8) -> (r: RoundOutcome)
    ensures
        r == (if dealer > 21 || player > dealer {
            RoundOutcome::PlayerWins
        } else if dealer == player {
            RoundOutcome::Draw
        } else {
            RoundOutcome::DealerWins
        }),
{
    if dealer > 21 || player > dealer {
        RoundOutcome::PlayerWins
    } else if dealer == player {
        RoundOutcome::Draw
    } else {
        RoundOutcome::DealerWins
    }
}

} // verus!
