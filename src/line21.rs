//! The line-sum variant: players put numbered cards on the grid, and a
//! line of three cards of one player summing to exactly 21 wins.
use vstd::prelude::*;
use crate::grid::{GameError, NUM_LINES, line_of, on_line};
use crate::blackjack::shuffle;

verus! {

/// A cell of the variant's board: empty, or a player's number and the card
/// value placed there.
pub type Slot = Option<(u8, u8)>;

/// Line `k` holds three cards of one player whose values sum to 21.
pub open spec fn line_hits_21(b: Seq<Slot>, k: int) -> bool {
    let (i, j, l) = line_of(k);
    &&& b[i] is Some && b[j] is Some && b[l] is Some
    &&& b[i].unwrap().0 == b[j].unwrap().0 && b[j].unwrap().0 == b[l].unwrap().0
    &&& b[i].unwrap().1 + b[j].unwrap().1 + b[l].unwrap().1 == 21
}

/// Some line through cell `last` holds one player's cards summing to 21.
pub open spec fn wins_at(b: Seq<Slot>, last: int) -> bool {
    exists|k: int| 0 <= k < NUM_LINES && on_line(k, last) && #[trigger] line_hits_21(b, k)
}

fn line_hits(board: &[Slot], k: usize) -> (r: bool)
    requires
        board@.len() == 9,
        k < NUM_LINES,
    ensures
        r == line_hits_21(board@, k as int),
{
    let (a, b, c) = crate::grid::line_cells(k);
    match (board[a], board[b], board[c]) {
        (Some((p1, v1)), Some((p2, v2)), Some((p3, v3))) => {
            p1 == p2 && p2 == p3 && (v1 as u16) + (v2 as u16) + (v3 as u16) == 21
        },
        _ => false,
    }
}

/// Whether the card just placed at `last` completes a winning line: three
/// cards of one player whose raw values sum to exactly 21.
pub fn check_win(board: &[Slot], last: usize) -> (r: bool)
    requires
        board@.len() == 9,
    ensures
        r == wins_at(board@, last as int),
{
    let mut k: usize = 0;
    while k < NUM_LINES
        invariant
            k <= NUM_LINES,
            board@.len() == 9,
            forall|j: int| 0 <= j < k && on_line(j, last as int) ==> !#[trigger] line_hits_21(board@, j),
        decreases NUM_LINES - k,
    {
        let (a, b, c) = crate::grid::line_cells(k);
        if (a == last || b == last || c == last) && line_hits(board, k) {
            return true;
        }
        k += 1;
    }
    false
}

/// The deck of the variant: values 1 to 11, four cards of each.
pub fn tactic_deck() -> (r: Vec<u8>)
    ensures
        r@.len() == 44,
        forall|v: int, k: int| 1 <= v <= 11 && 0 <= k < 4 ==> #[trigger] r@[4 * (v - 1) + k] == v,
{
    let mut deck: Vec<u8> = Vec::new();
    let mut value: u8 = 1;
    while value <= 11
        invariant
            1 <= value <= 12,
            deck@.len() == 4 * (value - 1),
            forall|v: int, k: int| 1 <= v < value && 0 <= k < 4 ==> #[trigger] deck@[4 * (v - 1) + k] == v,
        decreases 12 - value,
    {
        let mut k: usize = 0;
        while k < 4
            invariant
                1 <= value <= 11,
                k <= 4,
                deck@.len() == 4 * (value - 1) + k,
                forall|v: int, j: int| 1 <= v < value && 0 <= j < 4 ==> #[trigger] deck@[4 * (v - 1) + j] == v,
                forall|j: int| 0 <= j < k ==> #[trigger] deck@[4 * (value - 1) + j] == value,
            decreases 4 - k,
        {
            deck.push(value);
            k += 1;
        }
        value += 1;
    }
    deck
}

/// The variant's deck in random order: the same 44 cards as `tactic_deck`.
pub fn shuffled_tactic_deck() -> (r: Vec<u8>)
    ensures
        r@.len() == 44,
        exists|d: Seq<u8>|
            d.len() == 44 && r@.to_multiset() == d.to_multiset() && forall|v: int, k: int|
                1 <= v <= 11 && 0 <= k < 4 ==> #[trigger] d[4 * (v - 1) + k] == v,
{
    let mut deck = tactic_deck();
    let ghost fresh = deck@;
    shuffle(&mut deck);
    proof {
        vstd::seq_lib::to_multiset_len(deck@);
        vstd::seq_lib::to_multiset_len(fresh);
    }
    deck
}

/// The empty cells of the board, in increasing order.
pub fn empty_positions(board: &[Slot]) -> (r: Vec<usize>)
    ensures
        forall|x: usize| r@.contains(x) <==> x < board@.len() && board@[x as int] is None,
        forall|i: int, j: int| 0 <= i < j < r@.len() ==> r@[i] < r@[j],
{
    let mut out: Vec<usize> = Vec::new();
    let mut i: usize = 0;
    while i < board.len()
        invariant
            i <= board@.len(),
            forall|x: usize| out@.contains(x) <==> x < i && board@[x as int] is None,
            forall|a: int, b: int| 0 <= a < b < out@.len() ==> out@[a] < out@[b],
            forall|a: int| 0 <= a < out@.len() ==> out@[a] < i,
        decreases board@.len() - i,
    {
        if board[i].is_none() {
            proof {
                assert forall|x: usize| out@.push(i).contains(x) <==> x < i + 1 && board@[x as int] is None by {
                    if x == i {
                        assert(out@.push(i)[out@.len() as int] == i);
                    }
                    if out@.push(i).contains(x) && x != i {
                        let a = choose|a: int| 0 <= a < out@.push(i).len() && out@.push(i)[a] == x;
                        assert(out@.contains(x));
                    }
                    if out@.contains(x) {
                        let a = choose|a: int| 0 <= a < out@.len() && out@[a] == x;
                        assert(out@.push(i)[a] == x);
                    }
                }
            }
            out.push(i);
        }
        i += 1;
    }
    out
}

/// Relies on rand's `SliceRandom::choose` with the thread-local generator:
/// `None` for an empty slice, else one of its items.
#[verifier::external_body]
fn choose_one(items: &[usize]) -> (r: Option<usize>)
    ensures
        r is None <==> items@.len() == 0,
        r is Some ==> items@.contains(r.unwrap()),
{
    rand::seq::SliceRandom::choose(items, &mut rand::thread_rng()).copied()
}

/// The simple opponent's cell: an empty cell picked at random, or `None`
/// on a full board.
pub fn random_empty_position(board: &[Slot]) -> (r: Option<usize>)
    ensures
        r is None <==> forall|i: int| 0 <= i < board@.len() ==> (#[trigger] board@[i]) is Some,
        r is Some ==> r.unwrap() < board@.len() && board@[r.unwrap() as int] is None,
{
    let n = board.len();
    let empty = empty_positions(board);
    let r = choose_one(empty.as_slice());
    proof {
        if r is None {
            assert forall|i: int| 0 <= i < board@.len() implies (#[trigger] board@[i]) is Some by {
                if board@[i] is None {
                    assert(empty@.contains(i as usize));
                }
            }
        } else {
            let w = choose|i: int| 0 <= i < board@.len() && board@[i] is None;
            assert(empty@.contains(w as usize));
        }
    }
    r
}

/// Plays card `card_index` of `hand` for `player` on cell `position`.
/// A card index outside the hand, a cell off the board or an occupied cell
/// is an `InvalidMove` and changes nothing; otherwise the card leaves the
/// hand, lands on the cell, and the result tells whether it wins.
pub fn play_card(
    board: &mut Vec<Slot>,
    hand: &mut Vec<u8>,
    player: u8,
    card_index: usize,
    position: usize,
) -> (r: Result<bool, GameError>)
    requires
        old(board)@.len() == 9,
    ensures
        final(board)@.len() == 9,
        card_index >= old(hand)@.len() || position >= 9 || old(board)@[position as int] is Some
            ==> {
            &&& r == Err::<bool, GameError>(GameError::InvalidMove)
            &&& final(board)@ == old(board)@
            &&& final(hand)@ == old(hand)@
        },
        card_index < old(hand)@.len() && position < 9 && old(board)@[position as int] is None
            ==> {
            &&& final(hand)@ == old(hand)@.remove(card_index as int)
            &&& final(board)@ == old(board)@.update(
                position as int,
                Some((player, old(hand)@[card_index as int])),
            )
            &&& r == Ok::<bool, GameError>(wins_at(final(board)@, position as int))
        },
{
    if card_index >= hand.len() || position >= 9 || board[position].is_some() {
        return Err(GameError::InvalidMove);
    }
    let card = hand.remove(card_index);
    board.set(position, Some((player, card)));
    Ok(check_win(board.as_slice(), position))
}

} // verus!
