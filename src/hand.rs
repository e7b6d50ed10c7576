//! Cards and blackjack hand scoring with flexible aces.
use vstd::prelude::*;

verus! {

/// A playing card: rank 1 (ace) to 13 (king) and a suit symbol.
#[derive(Clone, Copy, Debug, PartialEq, Eq, Structural)]
pub struct Card {
    pub value: u8,
    pub suit: char,
}

/// Points of a non-ace card: its rank, with face cards counted as 10.
pub open spec fn capped(v: u8) -> nat {
    if v > 10 {
        10
    } else {
        v as nat
    }
}

/// Fixed points a card adds: none for an ace, whose value is settled later.
pub open spec fn fixed_points(c: Card) -> nat {
    if c.value == 1 {
        0
    } else {
        capped(c.value)
    }
}

/// Sum of the fixed points of the cards.
pub open spec fn fixed_total(s: Seq<Card>) -> nat
    decreases s.len(),
{
    if s.len() == 0 {
        0
    } else {
        fixed_total(s.drop_last()) + fixed_points(s.last())
    }
}

/// Number of aces among the cards.
pub open spec fn ace_count(s: Seq<Card>) -> nat
    decreases s.len(),
{
    if s.len() == 0 {
        0
    } else {
        ace_count(s.drop_last()) + (if s.last().value == 1 {
            1nat
        } else {
            0nat
        })
    }
}

/// Adds `aces` aces to `total` one at a time: 11 while the running total
/// stays at or under 21, else 1.
pub open spec fn add_aces(total: nat, aces: nat) -> nat
    decreases aces,
{
    if aces == 0 {
        total
    } else if total + 11 <= 21 {
        add_aces(total + 11, (aces - 1) as nat)
    } else {
        add_aces(total + 1, (aces - 1) as nat)
    }
}

/// The score of a hand: its fixed points, then its aces added greedily.
pub open spec fn hand_score(s: Seq<Card>) -> nat {
    add_aces(fixed_total(s), ace_count(s))
}

/// Since an 11 lifts any total above 10, at most the first ace counts 11.
pub proof fn add_aces_closed_form(total: nat, aces: nat)
    ensures
        add_aces(total, aces) == if aces > 0 && total <= 10 {
            total + 10 + aces
        } else {
            total + aces
        },
    decreases aces,
{
    if aces > 0 {
        if total <= 10 {
            add_aces_closed_form(total + 11, (aces - 1) as nat);
        } else {
            add_aces_closed_form(total + 1, (aces - 1) as nat);
        }
    }
}

proof fn lemma_prefix_totals(s: Seq<Card>, i: int)
    requires
        0 <= i <= s.len(),
    ensures
        fixed_total(s.take(i)) <= fixed_total(s),
        ace_count(s.take(i)) <= ace_count(s),
    decreases s.len() - i,
{
    if i < s.len() {
        lemma_prefix_totals(s, i + 1);
        assert(s.take(i + 1).drop_last() =~= s.take(i));
    } else {
        assert(s.take(i) =~= s);
    }
}

/// Points of a card counted at face value, aces as 1 and face cards as 10.
pub fn card_value(card: Card) -> (r: u8)
    ensures
        r as nat == capped(card.value),
{
    if card.value > 10 {
        10
    } else {
        card.value
    }
}

/// The score of a hand: non-aces summed with face cards at 10, then each
/// ace adds 11 if the total stays at or under 21, else 1. The result must
/// fit in a byte.
pub fn hand_value(hand: &[Card]) -> (r: u8)
    requires
        hand_score(hand@) <= u8::MAX,
    ensures
        r as nat == hand_score(hand@),
{
    proof {
        add_aces_closed_form(fixed_total(hand@), ace_count(hand@));
    }
    let mut total: u8 = 0;
    let mut aces: u8 = 0;
    let mut i: usize = 0;
    while i < hand.len()
        invariant
            i <= hand@.len(),
            total as nat == fixed_total(hand@.take(i as int)),
            aces as nat == ace_count(hand@.take(i as int)),
            fixed_total(hand@) + ace_count(hand@) <= u8::MAX,
        decreases hand@.len() - i,
    {
        let c = hand[i];
        proof {
            assert(hand@.take(i + 1).drop_last() =~= hand@.take(i as int));
            lemma_prefix_totals(hand@, i + 1);
        }
        if c.value == 1 {
            aces += 1;
        } else {
            total += card_value(c);
        }
        i += 1;
    }
    assert(hand@.take(hand@.len() as int) =~= hand@);
    let mut j: u8 = 0;
    while j < aces
        invariant
            j <= aces,
            add_aces(total as nat, (aces - j) as nat) == hand_score(hand@),
            hand_score(hand@) <= u8::MAX,
        decreases aces - j,
    {
        proof {
            add_aces_closed_form(total as nat, (aces - j) as nat);
        }
        if total <= 10 {
            total += 11;
        } else {
            total += 1;
        }
        j += 1;
    }
    total
}

proof fn lemma_totals_remove(s: Seq<Card>, i: int)
    requires
        0 <= i < s.len(),
    ensures
        fixed_total(s) == fixed_total(s.remove(i)) + fixed_points(s[i]),
        ace_count(s) == ace_count(s.remove(i)) + (if s[i].value == 1 {
            1nat
        } else {
            0nat
        }),
    decreases s.len(),
{
    if i == s.len() - 1 {
        assert(s.remove(i) =~= s.drop_last());
    } else {
        lemma_totals_remove(s.drop_last(), i);
        assert(s.remove(i).drop_last() =~= s.drop_last().remove(i));
        assert(s.remove(i).last() == s.last());
    }
}

/// A hand's score does not depend on the order of its cards: two hands
/// holding the same cards, counted with multiplicity, score the same.
pub proof fn score_ignores_order(s1: Seq<Card>, s2: Seq<Card>)
    requires
        s1.to_multiset() == s2.to_multiset(),
    ensures
        fixed_total(s1) == fixed_total(s2),
        ace_count(s1) == ace_count(s2),
        hand_score(s1) == hand_score(s2),
    decreases s1.len(),
{
    broadcast use vstd::seq_lib::group_to_multiset_ensures;

    vstd::seq_lib::to_multiset_len(s1);
    vstd::seq_lib::to_multiset_len(s2);
    if s1.len() == 0 {
    } else {
        let n = s1.len() - 1;
        let x = s1[n];
        assert(s1.contains(x));
        vstd::seq_lib::to_multiset_contains(s1, x);
        vstd::seq_lib::to_multiset_contains(s2, x);
        let j = choose|j: int| 0 <= j < s2.len() && s2[j] == x;
        assert(s1.remove(n) =~= s1.drop_last());
        assert(s1.drop_last().to_multiset() == s2.remove(j).to_multiset());
        score_ignores_order(s1.drop_last(), s2.remove(j));
        lemma_totals_remove(s2, j);
    }
}

} // verus!
