//! Cards, the deck, and the toast (the hand of three cards under attack).
use vstd::prelude::*;
use rand::rngs::StdRng;

verus! {

/// A playing card carrying one face value in 1..=6.
pub struct Card(pub u32);

/// A card's face value lies on a six-sided die.
pub open spec fn valid_card(c: Card) -> bool {
    1 <= c.0 <= 6
}

/// Every card in the sequence carries a face value in 1..=6.
pub open spec fn all_valid(s: Seq<Card>) -> bool {
    forall|i: int| 0 <= i < s.len() ==> valid_card(#[trigger] s[i])
}

/// The sum of the face values of a sequence of cards.
pub open spec fn sum_values(s: Seq<Card>) -> int
    decreases s.len(),
{
    if s.len() == 0 {
        0
    } else {
        sum_values(s.drop_last()) + s.last().0 as int
    }
}

/// How many cards of the sequence carry the face value `v`.
pub open spec fn count_value(s: Seq<Card>, v: u32) -> int
    decreases s.len(),
{
    if s.len() == 0 {
        0
    } else {
        count_value(s.drop_last(), v) + if s.last().0 == v {
            1int
        } else {
            0int
        }
    }
}

/// Appending a card raises the count of its face value by one and no other.
pub proof fn lemma_count_push(s: Seq<Card>, c: Card, v: u32)
    ensures
        count_value(s.push(c), v) == count_value(s, v) + if c.0 == v {
            1int
        } else {
            0int
        },
{
    assert(s.push(c).drop_last() =~= s);
    assert(s.push(c).last() == c);
}

/// The count of a face value in a sequence is its card's multiplicity in the
/// sequence's multiset.
pub proof fn lemma_count_value_multiset(s: Seq<Card>, v: u32)
    ensures
        count_value(s, v) == s.to_multiset().count(Card(v)),
    decreases s.len(),
{
    broadcast use vstd::seq_lib::group_to_multiset_ensures;

    if s.len() == 0 {
        assert(!s.contains(Card(v)));
        assert(s.to_multiset().count(Card(v)) == 0);
    } else {
        let dl = s.drop_last();
        lemma_count_value_multiset(dl, v);
        assert(s =~= dl.push(s.last()));
        assert(dl.push(s.last()).to_multiset() =~= dl.to_multiset().insert(s.last()));
        if s.last().0 == v {
            assert(s.last() == Card(v));
            vstd::multiset::lemma_insert_increases_count_by_1(dl.to_multiset(), s.last());
        } else {
            vstd::multiset::lemma_insert_other_elements_unchanged(
                dl.to_multiset(),
                s.last(),
                Card(v),
            );
        }
    }
}

/// Two sequences holding the same cards (as a multiset) have the same length.
pub proof fn lemma_multiset_eq_len(s1: Seq<Card>, s2: Seq<Card>)
    requires
        s1.to_multiset() == s2.to_multiset(),
    ensures
        s1.len() == s2.len(),
{
    broadcast use vstd::seq_lib::group_to_multiset_ensures;

    assert(s1.to_multiset().len() == s1.len());
    assert(s2.to_multiset().len() == s2.len());
}

/// Reordering a sequence of valid cards leaves every card valid.
pub proof fn lemma_multiset_eq_valid(s1: Seq<Card>, s2: Seq<Card>)
    requires
        s1.to_multiset() == s2.to_multiset(),
        all_valid(s1),
    ensures
        all_valid(s2),
{
    broadcast use vstd::seq_lib::group_to_multiset_ensures;

    assert forall|i: int| 0 <= i < s2.len() implies valid_card(#[trigger] s2[i]) by {
        assert(s2.contains(s2[i]));
        assert(s2.to_multiset().count(s2[i]) > 0);
        assert(s1.contains(s2[i]));
        let j = choose|j: int| 0 <= j < s1.len() && s1[j] == s2[i];
        assert(valid_card(s1[j]));
    }
}

/// The sum of a sequence of valid cards is determined by how many cards carry
/// each face value.
pub proof fn lemma_sum_from_counts(s: Seq<Card>)
    requires
        all_valid(s),
    ensures
        sum_values(s) == 1 * count_value(s, 1) + 2 * count_value(s, 2) + 3 * count_value(s, 3) + 4
            * count_value(s, 4) + 5 * count_value(s, 5) + 6 * count_value(s, 6),
    decreases s.len(),
{
    if s.len() == 0 {
    } else {
        let dl = s.drop_last();
        assert(all_valid(dl)) by {
            assert forall|i: int| 0 <= i < dl.len() implies valid_card(#[trigger] dl[i]) by {
                assert(dl[i] == s[i]);
            }
        }
        lemma_sum_from_counts(dl);
        assert(valid_card(s[s.len() - 1]));
        assert(s.last() == s[s.len() - 1]);
    }
}

/// Reordering a sequence of valid cards keeps its sum of face values.
pub proof fn lemma_multiset_eq_sum(s1: Seq<Card>, s2: Seq<Card>)
    requires
        s1.to_multiset() == s2.to_multiset(),
        all_valid(s1),
    ensures
        sum_values(s2) == sum_values(s1),
{
    lemma_multiset_eq_valid(s1, s2);
    lemma_sum_from_counts(s1);
    lemma_sum_from_counts(s2);
    assert forall|v: u32| 1 <= v <= 6 implies count_value(s1, v) == count_value(s2, v) by {
        lemma_count_value_multiset(s1, v);
        lemma_count_value_multiset(s2, v);
    }
}

/// The sum of a three-card hand, spelt out card by card.
pub proof fn lemma_sum_three(s: Seq<Card>)
    requires
        s.len() == 3,
    ensures
        sum_values(s) == s[0].0 + s[1].0 + s[2].0,
{
    let d1 = s.drop_last();
    let d2 = d1.drop_last();
    let d3 = d2.drop_last();
    assert(sum_values(s) == sum_values(d1) + s[2].0 as int);
    assert(d1.last() == s[1]);
    assert(sum_values(d1) == sum_values(d2) + s[1].0 as int);
    assert(d2.last() == s[0]);
    assert(sum_values(d2) == sum_values(d3) + s[0].0 as int);
    assert(sum_values(d3) == 0);
}

impl Card {
    pub fn new(value: u32) -> (c: Card)
        requires
            1 <= value <= 6,
        ensures
            c.0 == value,
    {
        Card(value)
    }

    pub fn value(&self) -> (r: u32)
        ensures
            r == self.0,
    {
        self.0
    }
}

/// The deck: an ordered, shuffled run of cards, four of each face value at
/// construction, shrinking three cards at a time as toasts are drawn.
pub struct Deck {
    pub cards: Vec<Card>,
}

impl View for Deck {
    type V = Seq<Card>;

    open spec fn view(&self) -> Seq<Card> {
        self.cards@
    }
}

impl Deck {
    /// Every card is valid and the deck never outgrows its initial 24 cards.
    pub open spec fn wf(&self) -> bool {
        all_valid(self@) && self@.len() <= 24
    }

    /// Builds the 24 cards — four of each face value 1..=6 — and shuffles them.
    #[verifier::loop_isolation(false)]
    pub fn new(rng: &mut StdRng) -> (d: Deck)
        ensures
            d.wf(),
            d@.len() == 24,
            forall|v: u32| 1 <= v <= 6 ==> count_value(d@, v) == 4,
            sum_values(d@) == 84,
    {
        let mut v: Vec<Card> = Vec::new();
        let mut value: u32 = 1;
        while value < 7
            invariant
                1 <= value <= 7,
                v@.len() == 4 * (value - 1),
                all_valid(v@),
                forall|w: u32|
                    1 <= w <= 6 ==> count_value(v@, w) == (if w < value {
                        4int
                    } else {
                        0int
                    }),
            decreases 7 - value,
        {
            let mut suit: u32 = 1;
            while suit < 5
                invariant
                    1 <= suit <= 5,
                    1 <= value <= 6,
                    v@.len() == 4 * (value - 1) + (suit - 1),
                    all_valid(v@),
                    forall|w: u32|
                        1 <= w <= 6 ==> count_value(v@, w) == (if w < value {
                            4int
                        } else if w == value {
                            suit - 1
                        } else {
                            0int
                        }),
                decreases 5 - suit,
            {
                let ghost pre = v@;
                let c = Card::new(value);
                v.push(c);
                proof {
                    assert(all_valid(v@)) by {
                        assert forall|i: int| 0 <= i < v@.len() implies valid_card(
                            #[trigger] v@[i],
                        ) by {
                            if i < pre.len() {
                                assert(v@[i] == pre[i]);
                            }
                        }
                    }
                    assert forall|w: u32| 1 <= w <= 6 implies count_value(v@, w) == (if w
                        < value {
                        4int
                    } else if w == value {
                        suit as int
                    } else {
                        0int
                    }) by {
                        lemma_count_push(pre, c, w);
                    }
                }
                suit = suit + 1;
            }
            value = value + 1;
        }
        proof {
            lemma_sum_from_counts(v@);
        }
        let ghost pre = v@;
        crate::rng::shuffle_cards(&mut v, rng);
        proof {
            lemma_multiset_eq_len(pre, v@);
            lemma_multiset_eq_valid(pre, v@);
            lemma_multiset_eq_sum(pre, v@);
            assert forall|w: u32| 1 <= w <= 6 implies count_value(v@, w) == 4 by {
                lemma_count_value_multiset(pre, w);
                lemma_count_value_multiset(v@, w);
            }
        }
        Deck { cards: v }
    }

    /// The sum of the face values of every card still in the deck.
    #[verifier::loop_isolation(false)]
    pub fn total_value(&self) -> (r: u32)
        requires
            self.wf(),
        ensures
            r as int == sum_values(self@),
    {
        let mut acc: u32 = 0;
        let mut i: usize = 0;
        while i < self.cards.len()
            invariant
                i <= self@.len(),
                acc as int == sum_values(self@.take(i as int)),
                acc <= 6 * i,
            decreases self@.len() - i,
        {
            proof {
                assert(self@.take(i + 1).drop_last() =~= self@.take(i as int));
                assert(self@.take(i + 1).last() == self@[i as int]);
                assert(valid_card(self@[i as int]));
            }
            acc = acc + self.cards[i].value();
            i = i + 1;
        }
        proof {
            assert(self@.take(self@.len() as int) =~= self@);
        }
        acc
    }

    /// A toast pulls the three cards at the tail of the deck, in draw order.
    pub fn toast(&mut self) -> (t: Toast)
        requires
            old(self).wf(),
            old(self)@.len() >= 3,
        ensures
            final(self).wf(),
            final(self)@ == old(self)@.take(old(self)@.len() - 3),
            t.wf(),
            t@.len() == 3,
            t@[0] == old(self)@[old(self)@.len() - 1],
            t@[1] == old(self)@[old(self)@.len() - 2],
            t@[2] == old(self)@[old(self)@.len() - 3],
            sum_values(final(self)@) + sum_values(t@) == sum_values(old(self)@),
    {
        let ghost s = self@;
        let ghost n = self@.len() as int;
        let c0 = self.cards.pop().unwrap();
        let c1 = self.cards.pop().unwrap();
        let c2 = self.cards.pop().unwrap();
        let mut hand: Vec<Card> = Vec::new();
        hand.push(c0);
        hand.push(c1);
        hand.push(c2);
        proof {
            assert(self@ =~= s.take(n - 3));
            assert(all_valid(self@)) by {
                assert forall|i: int| 0 <= i < self@.len() implies valid_card(
                    #[trigger] self@[i],
                ) by {
                    assert(self@[i] == s[i]);
                }
            }
            assert(s.take(n) =~= s);
            assert(s.take(n).drop_last() =~= s.take(n - 1));
            assert(s.take(n - 1).drop_last() =~= s.take(n - 2));
            assert(s.take(n - 2).drop_last() =~= s.take(n - 3));
            assert(sum_values(s) == sum_values(s.take(n - 1)) + s[n - 1].0 as int);
            assert(sum_values(s.take(n - 1)) == sum_values(s.take(n - 2)) + s[n - 2].0 as int);
            assert(sum_values(s.take(n - 2)) == sum_values(s.take(n - 3)) + s[n - 3].0 as int);
            lemma_sum_three(hand@);
        }
        Toast { cards: hand }
    }

    /// True once every card has been drawn.
    pub fn is_empty(&self) -> (r: bool)
        ensures
            r == (self@.len() == 0),
    {
        self.cards.is_empty()
    }
}

/// The toast: the hand of at most three cards under attack, front first.
pub struct Toast {
    pub cards: Vec<Card>,
}

impl View for Toast {
    type V = Seq<Card>;

    open spec fn view(&self) -> Seq<Card> {
        self.cards@
    }
}

impl Toast {
    /// Every card is valid and the hand never outgrows its drawn three cards.
    pub open spec fn wf(&self) -> bool {
        all_valid(self@) && self@.len() <= 3
    }

    /// The face values of the cards still in the hand, front first.
    #[verifier::loop_isolation(false)]
    pub fn to_values(&self) -> (r: Vec<u32>)
        ensures
            r@.len() == self@.len(),
            forall|i: int| 0 <= i < self@.len() ==> r@[i] == self@[i].0,
    {
        let mut r: Vec<u32> = Vec::new();
        let mut i: usize = 0;
        while i < self.cards.len()
            invariant
                i <= self@.len(),
                r@.len() == i,
                forall|j: int| 0 <= j < i ==> r@[j] == self@[j].0,
            decreases self@.len() - i,
        {
            r.push(self.cards[i].value());
            i = i + 1;
        }
        r
    }

    /// The sum of the face values of the cards still in the hand.
    #[verifier::loop_isolation(false)]
    pub fn sum(&self) -> (r: u32)
        requires
            self.wf(),
        ensures
            r as int == sum_values(self@),
    {
        let mut acc: u32 = 0;
        let mut i: usize = 0;
        while i < self.cards.len()
            invariant
                i <= self@.len(),
                acc as int == sum_values(self@.take(i as int)),
                acc <= 6 * i,
            decreases self@.len() - i,
        {
            proof {
                assert(self@.take(i + 1).drop_last() =~= self@.take(i as int));
                assert(self@.take(i + 1).last() == self@[i as int]);
                assert(valid_card(self@[i as int]));
            }
            acc = acc + self.cards[i].value();
            i = i + 1;
        }
        proof {
            assert(self@.take(self@.len() as int) =~= self@);
        }
        acc
    }

    /// True once every card of the hand has been cleared.
    pub fn is_empty(&self) -> (r: bool)
        ensures
            r == (self@.len() == 0),
    {
        self.cards.is_empty()
    }

    /// Given two die results, removes the front card when either die shows its
    /// face value; mismatched dice leave the hand untouched. Only the front
    /// card is ever eligible, whatever the dice would match further back.
    pub fn try_clear_first(&mut self, r0: u32, r1: u32)
        requires
            old(self).wf(),
            old(self)@.len() > 0,
        ensures
            final(self).wf(),
            (r0 == old(self)@[0].0 || r1 == old(self)@[0].0) ==> final(self)@ == old(
                self,
            )@.drop_first(),
            !(r0 == old(self)@[0].0 || r1 == old(self)@[0].0) ==> final(self)@ == old(self)@,
    {
        let front = self.cards[0].value();
        if r0 == front || r1 == front {
            let ghost s = self@;
            self.cards.remove(0);
            proof {
                assert(self@ =~= s.drop_first());
                assert(all_valid(self@)) by {
                    assert forall|i: int| 0 <= i < self@.len() implies valid_card(
                        #[trigger] self@[i],
                    ) by {
                        assert(self@[i] == s[i + 1]);
                    }
                }
            }
        }
    }
}

} // verus!
