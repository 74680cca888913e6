//! Matching the cards of a note before and after an edit, by the orders written on them.

use crate::clozes::parse::push_str;
use crate::error::{CardErrorKind, LibraryError};
use crate::text::{chars_to_string, join, join_parts};
use crate::text_num::{decimal, usize_to_decimal};
use vstd::prelude::*;

verus! {

/// How the cards of a note changed: the cards moved (to the order written on them, from
/// their new position), the cards deleted, and the positions of new cards. All are 1-based.
#[derive(Debug)]
pub struct MatchCardsResult {
    pub move_card_indices: Vec<(usize, usize)>,
    pub delete_card_indices: Vec<usize>,
    pub create_card_indices: Vec<usize>,
}

/// The orders present in `s`, in order.
pub open spec fn somes(s: Seq<Option<usize>>) -> Seq<usize>
    decreases s.len(),
{
    if s.len() == 0 {
        Seq::empty()
    } else {
        let r = somes(s.drop_last());
        match s.last() {
            Some(x) => r.push(x),
            None => r,
        }
    }
}

/// The numbers in decimal, joined by `sep`.
pub open spec fn numbers_text(s: Seq<usize>, sep: Seq<char>) -> Seq<char> {
    join(s.map_values(|n: usize| decimal(n as nat)), sep)
}

/// The numbers `1..=n`.
pub open spec fn one_to(n: nat) -> Seq<usize> {
    Seq::new(n, |i: int| (i + 1) as usize)
}

/// Every old card has an order.
pub open spec fn all_ordered(old_cards: Seq<Option<usize>>) -> bool {
    forall|j: int| 0 <= j < old_cards.len() ==> (#[trigger] old_cards[j]) is Some
}

/// The old cards are numbered `1, 2, 3, ...` in order.
pub open spec fn sequential(old_cards: Seq<Option<usize>>) -> bool {
    forall|j: int| 0 <= j < old_cards.len() ==> #[trigger] old_cards[j] == Some((j + 1) as usize)
}

/// Every order on a new card names an old card.
pub open spec fn orders_in_range(new_cards: Seq<Option<usize>>, m: int) -> bool {
    forall|j: int| 0 <= j < new_cards.len() ==> (#[trigger] new_cards[j] matches Some(n) ==> 1 <= n <= m)
}

pub open spec fn unordered_message(old_cards: Seq<Option<usize>>) -> Seq<char> {
    "Current cards do not all contain order. Current data is incorrect. Found `"@ + numbers_text(
        somes(old_cards),
        ", "@,
    ) + "`"@
}

pub open spec fn unsequential_message(old_cards: Seq<Option<usize>>) -> Seq<char> {
    "Current cards do not all contain their expected order. Current data is incorrect. Found orders `"@
        + numbers_text(somes(old_cards), ", "@) + "` when expecting sequential orders `"@ + numbers_text(
        one_to(somes(old_cards).len()),
        ", "@,
    ) + "`"@
}

pub open spec fn out_of_range_message(old_cards: Seq<Option<usize>>, new_cards: Seq<Option<usize>>) -> Seq<char> {
    "New cards do not all contain a valid order. They must all be within the range [1, "@ + decimal(
        old_cards.len(),
    ) + "] (inclusive), but the new cards have order `"@ + numbers_text(somes(new_cards), ", "@) + "`."@
}

/// The moves found in the first `i` new cards: a card with order `n` at 1-based position
/// `p != n` moves to `n` from `p`.
pub open spec fn moves_upto(new_cards: Seq<Option<usize>>, i: int) -> Seq<(usize, usize)>
    decreases i,
{
    if i <= 0 {
        Seq::empty()
    } else {
        let r = moves_upto(new_cards, i - 1);
        match new_cards[i - 1] {
            Some(n) => if n != i {
                r.push((n, i as usize))
            } else {
                r
            },
            None => r,
        }
    }
}

/// The 1-based positions of the new cards without an order, among the first `i`.
pub open spec fn creates_upto(new_cards: Seq<Option<usize>>, i: int) -> Seq<usize>
    decreases i,
{
    if i <= 0 {
        Seq::empty()
    } else {
        let r = creates_upto(new_cards, i - 1);
        match new_cards[i - 1] {
            Some(_) => r,
            None => r.push(i as usize),
        }
    }
}

/// The orders `1..=k` that no new card carries, ascending.
pub open spec fn deletes_upto(new_cards: Seq<Option<usize>>, k: int) -> Seq<usize>
    decreases k,
{
    if k <= 0 {
        Seq::empty()
    } else {
        let r = deletes_upto(new_cards, k - 1);
        if new_cards.contains(Some(k as usize)) {
            r
        } else {
            r.push(k as usize)
        }
    }
}

/// The invalid-input error with the given message.
pub open spec fn invalid_input(e: LibraryError, message: Seq<char>) -> bool {
    e matches LibraryError::Card(CardErrorKind::InvalidInput(s)) && s@ == message
}

/// A card is deleted exactly when no new card carries its order.
pub proof fn lemma_deleted_iff_absent(new_cards: Seq<Option<usize>>, m: int, k: int)
    requires
        0 <= m <= usize::MAX,
        0 <= k <= usize::MAX,
    ensures
        deletes_upto(new_cards, m).contains(k as usize) <==> (1 <= k <= m && !new_cards.contains(Some(k as usize))),
    decreases m,
{
    if m > 0 {
        lemma_deleted_iff_absent(new_cards, m - 1, k);
        let r = deletes_upto(new_cards, m - 1);
        if !new_cards.contains(Some(m as usize)) {
            let rp = r.push(m as usize);
            if rp.contains(k as usize) {
                let j = choose|j: int| 0 <= j < rp.len() && rp[j] == k as usize;
                if j < r.len() {
                    assert(r[j] == k as usize);
                }
            }
            if r.contains(k as usize) {
                let j = choose|j: int| 0 <= j < r.len() && r[j] == k as usize;
                assert(rp[j] == k as usize);
            }
            if k == m {
                assert(rp[r.len() as int] == m as usize);
            }
        }
    }
}

proof fn lemma_deletes_ascending(new_cards: Seq<Option<usize>>, m: int)
    requires
        0 <= m <= usize::MAX,
    ensures
        forall|i: int| 0 <= i < deletes_upto(new_cards, m).len() ==> 1 <= #[trigger] deletes_upto(new_cards, m)[i] <= m,
        forall|i: int, j: int|
            0 <= i < j < deletes_upto(new_cards, m).len() ==> #[trigger] deletes_upto(new_cards, m)[i] < #[trigger] deletes_upto(
                new_cards,
                m,
            )[j],
    decreases m,
{
    if m > 0 {
        lemma_deletes_ascending(new_cards, m - 1);
        let r = deletes_upto(new_cards, m - 1);
        let d = deletes_upto(new_cards, m);
        if new_cards.contains(Some(m as usize)) {
            assert(d == r);
        } else {
            assert(d == r.push(m as usize));
            assert forall|i: int| 0 <= i < d.len() implies 1 <= #[trigger] d[i] <= m by {
                if i < r.len() {
                    assert(d[i] == r[i]);
                }
            }
            assert forall|i: int, j: int| 0 <= i < j < d.len() implies #[trigger] d[i] < #[trigger] d[j] by {
                assert(d[i] == r[i]);
                if j < r.len() {
                    assert(d[j] == r[j]);
                } else {
                    assert(r[i] <= m - 1);
                }
            }
        }
    }
}

/// The cards deleted are each order `1..=m` that no new card carries, once each: as a set,
/// the old orders missing from the new cards, with no order twice.
pub proof fn lemma_deletes_are_the_missing_orders(new_cards: Seq<Option<usize>>, m: int)
    requires
        0 <= m <= usize::MAX,
    ensures
        deletes_upto(new_cards, m).no_duplicates(),
        deletes_upto(new_cards, m).to_set() == Set::new(|k: usize| 1 <= k <= m && !new_cards.contains(Some(k))),
{
    let d = deletes_upto(new_cards, m);
    lemma_deletes_ascending(new_cards, m);
    assert forall|i: int, j: int| 0 <= i < d.len() && 0 <= j < d.len() && i != j implies d[i] != d[j] by {
        if i < j {
            assert(d[i] < d[j]);
        } else {
            assert(d[j] < d[i]);
        }
    }
    assert forall|k: usize| #[trigger] d.to_set().contains(k) == (1 <= k <= m && !new_cards.contains(Some(k))) by {
        lemma_deleted_iff_absent(new_cards, m, k as int);
    }
    assert(d.to_set() =~= Set::new(|k: usize| 1 <= k <= m && !new_cards.contains(Some(k))));
}

/// The orders of the cards of a note that was just numbered: `1, 2, ..., m`.
pub open spec fn numbered_cards(m: nat) -> Seq<Option<usize>> {
    Seq::new(m, |i: int| Some((i + 1) as usize))
}

proof fn lemma_unchanged_prefix(m: nat, i: int)
    requires
        m <= usize::MAX,
        0 <= i <= m,
    ensures
        moves_upto(numbered_cards(m), i) == Seq::<(usize, usize)>::empty(),
        creates_upto(numbered_cards(m), i) == Seq::<usize>::empty(),
        deletes_upto(numbered_cards(m), i) == Seq::<usize>::empty(),
    decreases i,
{
    if i > 0 {
        lemma_unchanged_prefix(m, i - 1);
        assert(numbered_cards(m)[i - 1] == Some(i as usize));
        assert(numbered_cards(m).contains(Some(i as usize)));
    }
}

/// Matching the cards of a note against themselves changes nothing: no card moves, none
/// is created and none is deleted.
pub proof fn lemma_match_unchanged(m: nat)
    requires
        m <= usize::MAX,
    ensures
        all_ordered(numbered_cards(m)),
        sequential(numbered_cards(m)),
        orders_in_range(numbered_cards(m), m as int),
        moves_upto(numbered_cards(m), m as int) == Seq::<(usize, usize)>::empty(),
        creates_upto(numbered_cards(m), m as int) == Seq::<usize>::empty(),
        deletes_upto(numbered_cards(m), m as int) == Seq::<usize>::empty(),
{
    lemma_unchanged_prefix(m, m as int);
}

/// The numbers `s` in decimal, joined by `sep`.
pub fn numbers_joined(s: &Vec<usize>, sep: &Vec<char>) -> (r: Vec<char>)
    ensures
        r@ == numbers_text(s@, sep@),
{
    let mut parts: Vec<Vec<char>> = Vec::new();
    let mut i: usize = 0;
    while i < s.len()
        invariant
            0 <= i <= s.len(),
            parts@.map_values(|p: Vec<char>| p@) == s@.take(i as int).map_values(|n: usize| decimal(n as nat)),
        decreases s.len() - i,
    {
        let ghost before = parts@;
        parts.push(usize_to_decimal(s[i]));
        proof {
            assert(s@.take(i + 1) =~= s@.take(i as int).push(s@[i as int]));
            assert(parts@ =~= before.push(parts@.last()));
            assert(parts@.map_values(|p: Vec<char>| p@) =~= before.map_values(|p: Vec<char>| p@).push(decimal(s@[i as int] as nat)));
            assert(s@.take(i + 1).map_values(|n: usize| decimal(n as nat)) =~= s@.take(i as int).map_values(
                |n: usize| decimal(n as nat),
            ).push(decimal(s@[i as int] as nat)));
        }
        i += 1;
    }
    proof {
        assert(s@.take(s.len() as int) =~= s@);
    }
    join_parts(parts, sep)
}

fn somes_exec(s: &[Option<usize>]) -> (r: Vec<usize>)
    ensures
        r@ == somes(s@),
{
    let mut r: Vec<usize> = Vec::new();
    let mut i: usize = 0;
    while i < s.len()
        invariant
            0 <= i <= s.len(),
            r@ == somes(s@.take(i as int)),
        decreases s.len() - i,
    {
        proof {
            assert(s@.take(i + 1).drop_last() =~= s@.take(i as int));
        }
        match s[i] {
            Some(x) => r.push(x),
            None => {},
        }
        i += 1;
    }
    proof {
        assert(s@.take(s.len() as int) =~= s@);
    }
    r
}

fn comma_space() -> (r: Vec<char>)
    ensures
        r@ == ", "@,
{
    let mut r: Vec<char> = Vec::new();
    push_str(&mut r, ", ");
    proof {
        assert(r@ =~= ", "@);
    }
    r
}

fn invalid_input_error(msg: &Vec<char>) -> (e: LibraryError)
    ensures
        invalid_input(e, msg@),
{
    LibraryError::Card(CardErrorKind::InvalidInput(chars_to_string(msg.as_slice())))
}

/// How the cards of a note changed, given the orders of the cards before (`old_cards`,
/// which must be `1, 2, 3, ...`) and the orders written on the cards after (`new_cards`,
/// `None` for a new card). A card whose order differs from its new position moves; a card
/// without an order is created at its position; an old card whose order no new card
/// carries is deleted.
pub fn match_cards(old_cards: &[Option<usize>], new_cards: &[Option<usize>]) -> (r: Result<MatchCardsResult, LibraryError>)
    ensures
        if !all_ordered(old_cards@) {
            r matches Err(e) && invalid_input(e, unordered_message(old_cards@))
        } else if !sequential(old_cards@) {
            r matches Err(e) && invalid_input(e, unsequential_message(old_cards@))
        } else if !orders_in_range(new_cards@, old_cards@.len() as int) {
            r matches Err(e) && invalid_input(e, out_of_range_message(old_cards@, new_cards@))
        } else {
            r matches Ok(res) && res.move_card_indices@ == moves_upto(new_cards@, new_cards@.len() as int)
                && res.create_card_indices@ == creates_upto(new_cards@, new_cards@.len() as int)
                && res.delete_card_indices@ == deletes_upto(new_cards@, old_cards@.len() as int)
        },
{
    let m = old_cards.len();
    let mut i: usize = 0;
    while i < m
        invariant
            0 <= i <= m,
            m == old_cards@.len(),
            forall|j: int| 0 <= j < i ==> (#[trigger] old_cards@[j]) is Some,
        decreases m - i,
    {
        if old_cards[i].is_none() {
            let found = somes_exec(old_cards);
            let mut msg: Vec<char> = Vec::new();
            push_str(&mut msg, "Current cards do not all contain order. Current data is incorrect. Found `");
            let mut nums = numbers_joined(&found, &comma_space());
            msg.append(&mut nums);
            push_str(&mut msg, "`");
            return Err(invalid_input_error(&msg));
        }
        i += 1;
    }
    let mut i: usize = 0;
    while i < m
        invariant
            0 <= i <= m,
            m == old_cards@.len(),
            all_ordered(old_cards@),
            forall|j: int| 0 <= j < i ==> #[trigger] old_cards@[j] == Some((j + 1) as usize),
        decreases m - i,
    {
        if old_cards[i] != Some(i + 1) {
            let found = somes_exec(old_cards);
            let mut expected: Vec<usize> = Vec::new();
            let mut k: usize = 0;
            while k < found.len()
                invariant
                    0 <= k <= found.len(),
                    expected@ == one_to(k as nat),
                decreases found.len() - k,
            {
                expected.push(k + 1);
                proof {
                    assert(expected@ =~= one_to((k + 1) as nat));
                }
                k += 1;
            }
            let mut msg: Vec<char> = Vec::new();
            push_str(
                &mut msg,
                "Current cards do not all contain their expected order. Current data is incorrect. Found orders `",
            );
            let mut nums = numbers_joined(&found, &comma_space());
            msg.append(&mut nums);
            push_str(&mut msg, "` when expecting sequential orders `");
            let mut nums2 = numbers_joined(&expected, &comma_space());
            msg.append(&mut nums2);
            push_str(&mut msg, "`");
            return Err(invalid_input_error(&msg));
        }
        i += 1;
    }
    let n = new_cards.len();
    let mut i: usize = 0;
    while i < n
        invariant
            0 <= i <= n,
            n == new_cards@.len(),
            m == old_cards@.len(),
            all_ordered(old_cards@),
            sequential(old_cards@),
            forall|j: int| 0 <= j < i ==> (#[trigger] new_cards@[j] matches Some(x) ==> 1 <= x <= m),
        decreases n - i,
    {
        match new_cards[i] {
            Some(x) => {
                if x < 1 || x > m {
                    let found = somes_exec(new_cards);
                    let mut msg: Vec<char> = Vec::new();
                    push_str(&mut msg, "New cards do not all contain a valid order. They must all be within the range [1, ");
                    let mut len_text = usize_to_decimal(m);
                    msg.append(&mut len_text);
                    push_str(&mut msg, "] (inclusive), but the new cards have order `");
                    let mut nums = numbers_joined(&found, &comma_space());
                    msg.append(&mut nums);
                    push_str(&mut msg, "`.");
                    return Err(invalid_input_error(&msg));
                }
            },
            None => {},
        }
        i += 1;
    }
    let mut present: Vec<bool> = Vec::new();
    let mut k: usize = 0;
    while k < m
        invariant
            0 <= k <= m,
            present.len() == k,
            forall|j: int| 0 <= j < k ==> !(#[trigger] present@[j]),
        decreases m - k,
    {
        present.push(false);
        k += 1;
    }
    let mut move_card_indices: Vec<(usize, usize)> = Vec::new();
    let mut create_card_indices: Vec<usize> = Vec::new();
    let mut i: usize = 0;
    while i < n
        invariant
            0 <= i <= n,
            n == new_cards@.len(),
            m == old_cards@.len(),
            present.len() == m,
            orders_in_range(new_cards@, m as int),
            move_card_indices@ == moves_upto(new_cards@, i as int),
            create_card_indices@ == creates_upto(new_cards@, i as int),
            forall|j: int| 0 <= j < m ==> (#[trigger] present@[j] <==> new_cards@.take(i as int).contains(Some((j + 1) as usize))),
        decreases n - i,
    {
        let ghost before = present@;
        proof {
            assert(new_cards@.take(i + 1) =~= new_cards@.take(i as int).push(new_cards@[i as int]));
        }
        match new_cards[i] {
            Some(x) => {
                if x != i + 1 {
                    move_card_indices.push((x, i + 1));
                }
                present.set(x - 1, true);
                proof {
                    assert forall|j: int| 0 <= j < m implies (#[trigger] present@[j] <==> new_cards@.take(i + 1).contains(
                        Some((j + 1) as usize),
                    )) by {
                        let t = new_cards@.take(i as int);
                        let t1 = new_cards@.take(i + 1);
                        if t.contains(Some((j + 1) as usize)) {
                            let w = choose|w: int| 0 <= w < t.len() && t[w] == Some((j + 1) as usize);
                            assert(t1[w] == Some((j + 1) as usize));
                        }
                        if t1.contains(Some((j + 1) as usize)) && j != x - 1 {
                            let w = choose|w: int| 0 <= w < t1.len() && t1[w] == Some((j + 1) as usize);
                            assert(w < t.len());
                            assert(t[w] == Some((j + 1) as usize));
                        }
                        if j == x - 1 {
                            assert(t1[i as int] == Some((j + 1) as usize));
                        }
                    }
                }
            },
            None => {
                create_card_indices.push(i + 1);
                proof {
                    assert forall|j: int| 0 <= j < m implies (#[trigger] present@[j] <==> new_cards@.take(i + 1).contains(
                        Some((j + 1) as usize),
                    )) by {
                        let t = new_cards@.take(i as int);
                        let t1 = new_cards@.take(i + 1);
                        if t.contains(Some((j + 1) as usize)) {
                            let w = choose|w: int| 0 <= w < t.len() && t[w] == Some((j + 1) as usize);
                            assert(t1[w] == Some((j + 1) as usize));
                        }
                        if t1.contains(Some((j + 1) as usize)) {
                            let w = choose|w: int| 0 <= w < t1.len() && t1[w] == Some((j + 1) as usize);
                            assert(w < t.len());
                            assert(t[w] == Some((j + 1) as usize));
                        }
                    }
                }
            },
        }
        i += 1;
    }
    proof {
        assert(new_cards@.take(n as int) =~= new_cards@);
    }
    let mut delete_card_indices: Vec<usize> = Vec::new();
    let mut k: usize = 0;
    while k < m
        invariant
            0 <= k <= m,
            present.len() == m,
            forall|j: int| 0 <= j < m ==> (#[trigger] present@[j] <==> new_cards@.contains(Some((j + 1) as usize))),
            delete_card_indices@ == deletes_upto(new_cards@, k as int),
        decreases m - k,
    {
        if !present[k] {
            delete_card_indices.push(k + 1);
        }
        k += 1;
    }
    Ok(MatchCardsResult { move_card_indices, delete_card_indices, create_card_indices })
}

} // verus!
