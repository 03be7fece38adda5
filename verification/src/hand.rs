//! Hands: what makes a valid deal, and how a hand gives up its cards.

use vstd::prelude::*;
use vstd::seq_lib::{to_multiset_build, to_multiset_insert};
use crate::deck::{Card, Suit};
use crate::error::Error;
use crate::shuffle::lemma_same_items;

verus! {

/// The cards that one seat holds in one round.
#[derive(Debug, Clone)]
pub struct Hand(Vec<Card>);

impl Default for Hand {
    fn default() -> (hand: Self)
        ensures
            hand@ == Seq::<Card>::empty(),
    {
        Hand::new()
    }
}

impl View for Hand {
    type V = Seq<Card>;

    closed spec fn view(&self) -> Seq<Card> {
        self.0@
    }
}

/// Some card among these is a Jack, a Queen, a King or an Ace.
pub open spec fn has_face(cards: Seq<Card>) -> bool {
    exists|i: int| 0 <= i < cards.len() && (#[trigger] cards[i]).rank().is_face()
}

/// Some card among these is a Spade.
pub open spec fn has_spade(cards: Seq<Card>) -> bool {
    exists|i: int| 0 <= i < cards.len() && (#[trigger] cards[i]).suit() == Suit::Spades
}

/// The cards stand suit by suit, and within a suit from the highest rank down.
pub open spec fn laid_out(cards: Seq<Card>) -> bool {
    forall|i: int, j: int|
        0 <= i < j < cards.len() ==> (#[trigger] cards[i]).sort_key() <= (#[trigger] cards[j]).sort_key()
}

/// What makes thirteen cards a hand that may be dealt: thirteen different
/// cards, a Spade among them, and a face card among them.
pub open spec fn valid_deal(cards: Seq<Card>) -> bool {
    &&& cards.len() == 13
    &&& cards.no_duplicates()
    &&& has_spade(cards)
    &&& has_face(cards)
}

/// Why some cards cannot be dealt as a hand, if they cannot. The tests are
/// made in this order: a face card, a Spade, the count, the duplicates.
pub open spec fn deal_error(cards: Seq<Card>) -> Option<Error> {
    if !has_face(cards) {
        Some(Error::RequiresFaceCard)
    } else if !has_spade(cards) {
        Some(Error::RequiresSpades)
    } else if cards.len() != 13 {
        Some(Error::Not13Cards)
    } else if !cards.no_duplicates() {
        Some(Error::HasDuplicateCards)
    } else {
        None
    }
}

/// The cards that a deal is validated on are as good in any order.
pub proof fn lemma_same_cards_same_deal(a: Seq<Card>, b: Seq<Card>)
    requires
        a.to_multiset() == b.to_multiset(),
    ensures
        has_face(a) <==> has_face(b),
        has_spade(a) <==> has_spade(b),
        valid_deal(a) <==> valid_deal(b),
        deal_error(a) == deal_error(b),
{
    lemma_same_items(a, b);
    lemma_members_decide(a, b);
    lemma_members_decide(b, a);
}

proof fn lemma_members_decide(a: Seq<Card>, b: Seq<Card>)
    requires
        forall|x: Card| a.contains(x) ==> b.contains(x),
    ensures
        has_face(a) ==> has_face(b),
        has_spade(a) ==> has_spade(b),
{
    if has_face(a) {
        let i = choose|i: int| 0 <= i < a.len() && (#[trigger] a[i]).rank().is_face();
        assert(a.contains(a[i]));
        let j = choose|j: int| 0 <= j < b.len() && b[j] == a[i];
        assert(b[j].rank().is_face());
    }
    if has_spade(a) {
        let i = choose|i: int| 0 <= i < a.len() && (#[trigger] a[i]).suit() == Suit::Spades;
        assert(a.contains(a[i]));
        let j = choose|j: int| 0 <= j < b.len() && b[j] == a[i];
        assert(b[j].suit() == Suit::Spades);
    }
}

/// The same cards, laid out suit by suit and from the highest rank down.
pub fn lay_out(cards: &[Card]) -> (out: Vec<Card>)
    ensures
        out@.to_multiset() == cards@.to_multiset(),
        laid_out(out@),
{
    let mut out: Vec<Card> = Vec::new();
    let mut i: usize = 0;
    assert(cards@.take(0) =~= Seq::<Card>::empty());
    while i < cards.len()
        invariant
            i <= cards.len(),
            out@.to_multiset() == cards@.take(i as int).to_multiset(),
            laid_out(out@),
        decreases cards.len() - i,
    {
        let card = cards[i];
        let key: u8 = card.key();
        let mut at: usize = 0;
        while at < out.len() && out[at].key() <= key
            invariant
                at <= out.len(),
                key == card.sort_key(),
                forall|k: int| 0 <= k < at ==> (#[trigger] out@[k]).sort_key() <= card.sort_key(),
            decreases out.len() - at,
        {
            at += 1;
        }
        let ghost before = out@;
        out.insert(at, card);
        proof {
            to_multiset_insert(before, at as int, card);
            to_multiset_build(cards@.take(i as int), card);
            assert(cards@.take(i as int + 1) =~= cards@.take(i as int).push(card));
            assert forall|a: int, b: int| 0 <= a < b < out@.len() implies (#[trigger] out@[a]).sort_key()
                <= (#[trigger] out@[b]).sort_key() by {
                if a < at && b > at {
                    assert(out@[a] == before[a]);
                    assert(out@[b] == before[b - 1]);
                } else if a < at && b < at {
                    assert(out@[a] == before[a]);
                    assert(out@[b] == before[b]);
                } else if a > at {
                    assert(out@[a] == before[a - 1]);
                    assert(out@[b] == before[b - 1]);
                } else if a == at {
                    assert(out@[b] == before[b - 1]);
                    assert(before[at as int].sort_key() > card.sort_key());
                    assert(before[at as int].sort_key() <= before[b - 1].sort_key()) by {
                        if b - 1 > at {
                        }
                    }
                } else {
                    assert(b == at);
                    assert(out@[a] == before[a]);
                }
            }
        }
        i += 1;
    }
    assert(cards@.take(cards@.len() as int) =~= cards@);
    out
}

/// Whether no card stands twice among these.
pub fn all_different(cards: &[Card]) -> (different: bool)
    ensures
        different == cards@.no_duplicates(),
{
    let mut i: usize = 0;
    while i < cards.len()
        invariant
            i <= cards.len(),
            forall|a: int, b: int| 0 <= a < b < cards@.len() && b < i ==> cards@[a] != cards@[b],
        decreases cards.len() - i,
    {
        let mut j: usize = 0;
        while j < i
            invariant
                j <= i < cards.len(),
                forall|a: int| 0 <= a < j ==> cards@[a] != cards@[i as int],
            decreases i - j,
        {
            if cards[j] == cards[i] {
                return false;
            }
            j += 1;
        }
        i += 1;
    }
    assert forall|a: int, b: int| 0 <= a < cards@.len() && 0 <= b < cards@.len() && a != b implies cards@[a]
        != cards@[b] by {
        if a < b {
        } else {
            assert(cards@[b] != cards@[a]);
        }
    }
    true
}

/// Those of the cards for which the predicate answers yes, in their order.
pub fn select<P: Fn(&Card) -> bool>(from: &[Card], predicate: P) -> (cards: Vec<Card>)
    requires
        forall|i: int| 0 <= i < from@.len() ==> call_requires(predicate, (&from@[i],)),
    ensures
        exists|keep: Seq<bool>| #[trigger]
            picks(from@, keep, cards@) && forall|i: int|
                0 <= i < from@.len() ==> call_ensures(predicate, (&from@[i],), #[trigger] keep[i]),
        forall|f: spec_fn(Card) -> bool|
            (forall|c: Card, b: bool| call_ensures(predicate, (&c,), b) ==> b == f(c)) ==> cards@
                == #[trigger] from@.filter(f),
{
    let mut cards: Vec<Card> = Vec::new();
    let ghost mut keep: Seq<bool> = Seq::empty();
    let mut i: usize = 0;
    assert(from@.take(0) =~= Seq::<Card>::empty());
    while i < from.len()
        invariant
            i <= from@.len(),
            forall|i: int| 0 <= i < from@.len() ==> call_requires(predicate, (&from@[i],)),
            keep.len() == i,
            picked(from@.take(i as int), keep) == cards@,
            forall|k: int| 0 <= k < i ==> call_ensures(predicate, (&from@[k],), #[trigger] keep[k]),
            forall|f: spec_fn(Card) -> bool|
                (forall|c: Card, b: bool| call_ensures(predicate, (&c,), b) ==> b == f(c)) ==> cards@
                    == #[trigger] from@.take(i as int).filter(f),
        decreases from@.len() - i,
    {
        let card = from[i];
        let yes = predicate(&card);
        let ghost before = cards@;
        if yes {
            cards.push(card);
        }
        proof {
            let seen = from@.take(i as int);
            let more = from@.take(i as int + 1);
            assert(more =~= seen.push(card));
            assert(more.drop_last() =~= seen);
            assert(keep.push(yes).drop_last() =~= keep);
            keep = keep.push(yes);
            assert forall|f: spec_fn(Card) -> bool|
                (forall|c: Card, b: bool| call_ensures(predicate, (&c,), b) ==> b == f(c)) implies cards@
                == #[trigger] more.filter(f) by {
                seen.lemma_filter_push(card, f);
                assert(before == seen.filter(f));
            }
        }
        i += 1;
    }
    assert(from@.take(from@.len() as int) =~= from@);
    assert(picks(from@, keep, cards@));
    cards
}

/// A copy of the cards, in their order.
pub fn copy_of(from: &[Card]) -> (cards: Vec<Card>)
    ensures
        cards@ == from@,
{
    let mut cards: Vec<Card> = Vec::new();
    let mut i: usize = 0;
    while i < from.len()
        invariant
            i <= from@.len(),
            cards@ == from@.take(i as int),
        decreases from@.len() - i,
    {
        cards.push(from[i]);
        assert(from@.take(i as int + 1) =~= from@.take(i as int).push(from@[i as int]));
        i += 1;
    }
    assert(from@.take(from@.len() as int) =~= from@);
    cards
}

/// Whether a card is among these.
pub fn holds(cards: &[Card], card: Card) -> (found: bool)
    ensures
        found == cards@.contains(card),
{
    let mut i: usize = 0;
    while i < cards.len()
        invariant
            i <= cards@.len(),
            forall|k: int| 0 <= k < i ==> cards@[k] != card,
        decreases cards@.len() - i,
    {
        if cards[i] == card {
            return true;
        }
        i += 1;
    }
    false
}

impl Hand {
    /// A hand holds no card twice, and thirteen cards at most.
    pub open spec fn wf(&self) -> bool {
        &&& self@.no_duplicates()
        &&& self@.len() <= 13
    }

    /// An empty hand.
    pub fn new() -> (hand: Self)
        ensures
            hand@ == Seq::<Card>::empty(),
            hand.wf(),
    {
        Hand(Vec::new())
    }

    /// Validates thirteen cards as a deal and lays them out as a hand.
    pub fn try_from(cards: &[Card]) -> (result: Result<Hand, Error>)
        ensures
            match result {
                Ok(hand) => {
                    &&& deal_error(cards@) is None
                    &&& hand@.to_multiset() == cards@.to_multiset()
                    &&& laid_out(hand@)
                    &&& valid_deal(hand@)
                    &&& hand.wf()
                },
                Err(e) => deal_error(cards@) == Some(e),
            },
    {
        let mut spade = false;
        let mut face = false;
        let mut i: usize = 0;
        while i < cards.len()
            invariant
                i <= cards.len(),
                face == has_face(cards@.take(i as int)),
                spade == has_spade(cards@.take(i as int)),
            decreases cards.len() - i,
        {
            let card = cards[i];
            proof {
                lemma_flags_step(cards@, i as int);
            }
            face = face || card.get_rank().face();
            spade = spade || card.get_suit().is_trump();
            i += 1;
        }
        assert(cards@.take(cards@.len() as int) =~= cards@);
        if !face {
            Err(Error::RequiresFaceCard)
        } else if !spade {
            Err(Error::RequiresSpades)
        } else if cards.len() != 13 {
            Err(Error::Not13Cards)
        } else if !all_different(cards) {
            Err(Error::HasDuplicateCards)
        } else {
            let sorted = lay_out(cards);
            proof {
                lemma_same_cards_same_deal(sorted@, cards@);
                lemma_same_items(sorted@, cards@);
            }
            Ok(Hand(sorted))
        }
    }

    /// The cards of the hand for which the predicate answers yes, in the
    /// order of the hand. The hand stays as it is.
    pub fn filter<P: Fn(&Card) -> bool>(&self, predicate: P) -> (cards: Vec<Card>)
        requires
            forall|i: int| 0 <= i < self@.len() ==> call_requires(predicate, (&self@[i],)),
        ensures
            exists|keep: Seq<bool>| #[trigger]
                picks(self@, keep, cards@) && forall|i: int|
                    0 <= i < self@.len() ==> call_ensures(predicate, (&self@[i],), #[trigger] keep[i]),
            forall|f: spec_fn(Card) -> bool|
                (forall|c: Card, b: bool| call_ensures(predicate, (&c,), b) ==> b == f(c)) ==> cards@
                    == #[trigger] self@.filter(f),
    {
        let from = self.0.as_slice();
        assert(from@ == self@);
        select(from, predicate)
    }

    /// Takes a card out of the hand.
    pub fn play(&mut self, card: Card) -> (result: Result<(), Error>)
        ensures
            result == if old(self)@.contains(card) {
                Ok::<(), Error>(())
            } else {
                Err::<(), Error>(Error::HandDoesNotHaveThisCard)
            },
            final(self)@ == old(self)@.remove_value(card),
            final(self)@.len() == if old(self)@.contains(card) {
                old(self)@.len() - 1
            } else {
                old(self)@.len() as int
            },
            !old(self)@.contains(card) ==> final(self)@ == old(self)@,
            old(self).wf() ==> final(self).wf() && !final(self)@.contains(card),
            forall|c: Card| final(self)@.contains(c) ==> old(self)@.contains(c),
            forall|c: Card| c != card && old(self)@.contains(c) ==> final(self)@.contains(c),
    {
        let mut i: usize = 0;
        while i < self.0.len()
            invariant
                i <= self.0@.len(),
                self.0@ == old(self).0@,
                forall|k: int| 0 <= k < i ==> self.0@[k] != card,
            decreases self.0@.len() - i,
        {
            if self.0[i] == card {
                proof {
                    old(self)@.index_of_first_ensures(card);
                    lemma_remove_keeps_wf(old(self)@, i as int);
                }
                self.0.remove(i);
                return Ok(());
            }
            i += 1;
        }
        proof {
            old(self)@.index_of_first_ensures(card);
        }
        Err(Error::HandDoesNotHaveThisCard)
    }

    /// Adds a card to a hand that is being put together.
    pub fn add_card(&mut self, card: Card) -> (result: Result<(), Error>)
        ensures
            result == if old(self)@.contains(card) {
                Err::<(), Error>(Error::HandHasCardAlready)
            } else if old(self)@.len() < 13 {
                Ok::<(), Error>(())
            } else {
                Err::<(), Error>(Error::HandIsFull)
            },
            final(self)@ == if result is Ok {
                old(self)@.push(card)
            } else {
                old(self)@
            },
            old(self).wf() ==> final(self).wf(),
    {
        if self.contains(card) {
            return Err(Error::HandHasCardAlready);
        }
        if self.0.len() < 13 {
            self.0.push(card);
            Ok(())
        } else {
            Err(Error::HandIsFull)
        }
    }

    pub fn get_cards(&self) -> (cards: &[Card])
        ensures
            cards@ == self@,
    {
        self.0.as_slice()
    }

    /// The number of cards in the hand.
    pub fn len(&self) -> (len: usize)
        ensures
            len == self@.len(),
    {
        self.0.len()
    }

    pub fn is_empty(&self) -> (empty: bool)
        ensures
            empty == (self@.len() == 0),
    {
        self.0.len() == 0
    }

    pub fn contains(&self, card: Card) -> (found: bool)
        ensures
            found == self@.contains(card),
    {
        holds(self.0.as_slice(), card)
    }

    /// Takes a card out of the hand wherever it stands in it.
    pub fn remove(&mut self, card: Card)
        ensures
            final(self)@ == old(self)@.filter(|c: Card| c != card),
            !final(self)@.contains(card),
            old(self).wf() ==> final(self).wf(),
    {
        let ghost differs = |c: Card| c != card;
        let mut kept: Vec<Card> = Vec::new();
        let mut i: usize = 0;
        assert(self@.take(0) =~= Seq::<Card>::empty());
        while i < self.0.len()
            invariant
                i <= self.0@.len(),
                self.0@ == old(self).0@,
                differs == |c: Card| c != card,
                kept@ == self@.take(i as int).filter(differs),
            decreases self.0@.len() - i,
        {
            let c = self.0[i];
            proof {
                self@.take(i as int).lemma_filter_push(c, differs);
                assert(self@.take(i as int + 1) =~= self@.take(i as int).push(c));
            }
            if c != card {
                kept.push(c);
            }
            i += 1;
        }
        proof {
            assert(self@.take(self@.len() as int) =~= self@);
            lemma_filter_keeps_wf(old(self)@, differs);
            if kept@.contains(card) {
                old(self)@.lemma_filter_contains_rev(differs, card);
            }
        }
        self.0 = kept;
    }

    /// Whether the hand is one that may be dealt: thirteen cards, a Spade and a
    /// face card among them.
    pub fn is_valid(&self) -> (valid: bool)
        ensures
            valid == (has_face(self@) && has_spade(self@) && self@.len() == 13),
            self.wf() ==> valid == valid_deal(self@),
    {
        let mut spade = false;
        let mut face = false;
        let mut i: usize = 0;
        while i < self.0.len()
            invariant
                i <= self.0@.len(),
                face == has_face(self.0@.take(i as int)),
                spade == has_spade(self.0@.take(i as int)),
            decreases self.0@.len() - i,
        {
            let card = self.0[i];
            proof {
                lemma_flags_step(self.0@, i as int);
            }
            face = face || card.get_rank().face();
            spade = spade || card.get_suit().is_trump();
            i += 1;
        }
        assert(self.0@.take(self.0@.len() as int) =~= self.0@);
        face && spade && self.0.len() == 13
    }

    /// The cards of the hand, in its order.
    pub fn to_vec(&self) -> (cards: Vec<Card>)
        ensures
            cards@ == self@,
    {
        copy_of(self.0.as_slice())
    }

    /// A copy of the hand.
    pub fn copy(&self) -> (hand: Hand)
        ensures
            hand@ == self@,
    {
        Hand(self.to_vec())
    }
}

/// The cards of `cards` at the places where `keep` says yes, in their order.
pub open spec fn picked(cards: Seq<Card>, keep: Seq<bool>) -> Seq<Card>
    decreases cards.len(),
{
    if cards.len() == 0 || keep.len() != cards.len() {
        Seq::empty()
    } else if keep.last() {
        picked(cards.drop_last(), keep.drop_last()).push(cards.last())
    } else {
        picked(cards.drop_last(), keep.drop_last())
    }
}

/// `chosen` is what `keep` picks from `cards`, one answer for each card.
pub open spec fn picks(cards: Seq<Card>, keep: Seq<bool>, chosen: Seq<Card>) -> bool {
    keep.len() == cards.len() && chosen == picked(cards, keep)
}

proof fn lemma_flags_step(cards: Seq<Card>, i: int)
    requires
        0 <= i < cards.len(),
    ensures
        has_face(cards.take(i + 1)) == (has_face(cards.take(i)) || cards[i].rank().is_face()),
        has_spade(cards.take(i + 1)) == (has_spade(cards.take(i)) || cards[i].suit() == Suit::Spades),
{
    let card = cards[i];
    let seen = cards.take(i);
    let more = cards.take(i + 1);
    assert(more =~= seen.push(card));
    if has_face(seen) {
        let k = choose|k: int| 0 <= k < seen.len() && (#[trigger] seen[k]).rank().is_face();
        assert(more[k].rank().is_face());
    }
    if has_spade(seen) {
        let k = choose|k: int| 0 <= k < seen.len() && (#[trigger] seen[k]).suit() == Suit::Spades;
        assert(more[k].suit() == Suit::Spades);
    }
    if card.rank().is_face() {
        assert(more[i].rank().is_face());
    }
    if card.suit() == Suit::Spades {
        assert(more[i].suit() == Suit::Spades);
    }
    if has_face(more) && !card.rank().is_face() {
        let k = choose|k: int| 0 <= k < more.len() && (#[trigger] more[k]).rank().is_face();
        assert(seen[k].rank().is_face());
    }
    if has_spade(more) && card.suit() != Suit::Spades {
        let k = choose|k: int| 0 <= k < more.len() && (#[trigger] more[k]).suit() == Suit::Spades;
        assert(seen[k].suit() == Suit::Spades);
    }
}

/// Taking one card out of cards that are all different leaves cards that are
/// all different.
pub proof fn lemma_remove_keeps_wf(cards: Seq<Card>, i: int)
    requires
        0 <= i < cards.len(),
    ensures
        cards.no_duplicates() ==> cards.remove(i).no_duplicates(),
        cards.remove(i).len() == cards.len() - 1,
        cards.no_duplicates() ==> !cards.remove(i).contains(cards[i]),
        forall|c: Card| c != cards[i] ==> (cards.remove(i).contains(c) <==> cards.contains(c)),
        forall|c: Card| cards.remove(i).contains(c) ==> cards.contains(c),
{
    let rest = cards.remove(i);
    assert forall|c: Card| rest.contains(c) implies cards.contains(c) by {
        let k = choose|k: int| 0 <= k < rest.len() && rest[k] == c;
        if k < i {
            assert(cards[k] == c);
        } else {
            assert(cards[k + 1] == c);
        }
    }
    assert forall|c: Card| c != cards[i] && cards.contains(c) implies rest.contains(c) by {
        let k = choose|k: int| 0 <= k < cards.len() && cards[k] == c;
        if k < i {
            assert(rest[k] == c);
        } else {
            assert(rest[k - 1] == c);
        }
    }
    if cards.no_duplicates() {
        if rest.contains(cards[i]) {
            let k = choose|k: int| 0 <= k < rest.len() && rest[k] == cards[i];
            if k < i {
                assert(cards[k] == cards[i]);
            } else {
                assert(cards[k + 1] == cards[i]);
            }
        }
    }
}

proof fn lemma_filter_keeps_wf(cards: Seq<Card>, f: spec_fn(Card) -> bool)
    ensures
        cards.filter(f).len() <= cards.len(),
        cards.no_duplicates() ==> cards.filter(f).no_duplicates(),
    decreases cards.len(),
{
    reveal(Seq::filter);
    cards.lemma_filter_len(f);
    if cards.len() > 0 && cards.no_duplicates() {
        let front = cards.drop_last();
        lemma_filter_keeps_wf(front, f);
        if f(cards.last()) {
            let out = front.filter(f);
            if out.contains(cards.last()) {
                front.lemma_filter_contains_rev(f, cards.last());
                let k = choose|k: int| 0 <= k < front.len() && front[k] == cards.last();
                assert(cards[k] == cards[cards.len() - 1]);
            }
            assert(cards.filter(f) == out.push(cards.last()));
            assert forall|a: int, b: int|
                0 <= a < out.len() + 1 && 0 <= b < out.len() + 1 && a != b implies out.push(cards.last())[a]
                != out.push(cards.last())[b] by {
                if a == out.len() {
                    assert(out.contains(out[b]));
                } else if b == out.len() {
                    assert(out.contains(out[a]));
                }
            }
        }
    }
}

} // verus!
