//! The quiz session: a deck of cards, a cursor into it, and the transitions
//! that answer the current card, step back, and report the known characters.
use vstd::prelude::*;

use crate::classify::is_cjk_ideograph;
use crate::deck::{build_deck, deck_source};

verus! {

/// What the learner said about a character.
#[derive(Debug, Clone, Copy, PartialEq, Eq, Structural)]
pub enum Recalled {
    /// Not answered yet, or answered "I don't know".
    Unknown,
    /// Answered "I know it".
    Known,
}

/// One position of the deck: a character and what was said about it.
#[derive(Debug, Clone, Copy, PartialEq, Eq, Structural)]
pub struct Card {
    pub character: char,
    pub recalled: Recalled,
}

/// Why a transition was refused.
#[derive(Debug, Clone, Copy, PartialEq, Eq, Structural)]
pub enum SessionError {
    /// Going back from the first card: there is no earlier one.
    NoPreviousCharacter,
}

/// The events a session accepts.
#[derive(Debug, Clone, PartialEq, Eq)]
pub enum Message {
    /// Start a new quiz on the characters of a text.
    StartTest(Vec<char>),
    /// End the quiz now and report what is known so far.
    Finish,
    /// Record the answer for the current card and move on.
    Answer(Recalled),
    /// Return to the previous card, keeping its answer.
    GoBack,
}

/// The events a session emits.
#[derive(Debug, Clone, PartialEq, Eq)]
pub enum OutputMessage {
    /// The quiz is over; these are the known characters, in deck order.
    Finish(Vec<char>),
}

/// The abstract state of a session: the deck and the cursor.
pub struct SessionState {
    pub deck: Seq<Card>,
    pub current: int,
}

/// A quiz session. It alone owns the deck and the cursor.
#[derive(Debug)]
pub struct TestingScreen {
    chars: Vec<Card>,
    current_char: usize,
}

impl View for TestingScreen {
    type V = SessionState;

    closed spec fn view(&self) -> SessionState {
        SessionState { deck: self.chars@, current: self.current_char as int }
    }
}

/// A card for `c` that has not been answered.
pub open spec fn unanswered(c: char) -> Card {
    Card { character: c, recalled: Recalled::Unknown }
}

/// A fresh card for each character of `chars`, none answered.
pub open spec fn fresh_deck(chars: Seq<char>) -> Seq<Card> {
    chars.map_values(|c: char| unanswered(c))
}

/// The characters of the deck, in deck order.
pub open spec fn deck_chars(deck: Seq<Card>) -> Seq<char> {
    deck.map_values(|t: Card| t.character)
}

/// The characters of the cards marked known, in deck order.
pub open spec fn known_chars(deck: Seq<Card>) -> Seq<char>
    decreases deck.len(),
{
    if deck.len() == 0 {
        Seq::empty()
    } else if deck.last().recalled == Recalled::Known {
        known_chars(deck.drop_last()).push(deck.last().character)
    } else {
        known_chars(deck.drop_last())
    }
}

/// The positions of the cards marked known, in increasing order.
pub open spec fn known_positions(deck: Seq<Card>) -> Seq<int>
    decreases deck.len(),
{
    if deck.len() == 0 {
        Seq::empty()
    } else if deck.last().recalled == Recalled::Known {
        known_positions(deck.drop_last()).push(deck.len() - 1)
    } else {
        known_positions(deck.drop_last())
    }
}

/// Every card has been answered: the cursor stands past the last card.
pub open spec fn is_complete(s: SessionState) -> bool {
    s.current == s.deck.len()
}

/// The state after answering `recalled` for the current card. Past the end
/// there is no card to answer and nothing changes.
pub open spec fn after_answer(s: SessionState, recalled: Recalled) -> SessionState {
    if 0 <= s.current < s.deck.len() {
        SessionState {
            deck: s.deck.update(
                s.current,
                Card { character: s.deck[s.current].character, recalled },
            ),
            current: s.current + 1,
        }
    } else {
        s
    }
}

/// The state after stepping back one card; answers are kept.
pub open spec fn after_go_back(s: SessionState) -> SessionState {
    SessionState { deck: s.deck, current: s.current - 1 }
}

/// The known characters are exactly the characters of the known cards, in
/// deck order: `known_positions` lists those cards, strictly increasing, and
/// misses none of them.
pub proof fn lemma_known_chars_exact(deck: Seq<Card>)
    ensures
        known_positions(deck).len() == known_chars(deck).len(),
        known_chars(deck).len() <= deck.len(),
        forall|i: int|
            0 <= i < known_positions(deck).len() ==> {
                let k = #[trigger] known_positions(deck)[i];
                &&& 0 <= k < deck.len()
                &&& deck[k].recalled == Recalled::Known
                &&& deck[k].character == known_chars(deck)[i]
            },
        forall|i: int, j: int|
            0 <= i < j < known_positions(deck).len() ==> known_positions(deck)[i]
                < known_positions(deck)[j],
        forall|k: int|
            0 <= k < deck.len() && deck[k].recalled == Recalled::Known ==> exists|i: int|
                0 <= i < known_positions(deck).len() && #[trigger] known_positions(deck)[i] == k,
    decreases deck.len(),
{
    if deck.len() > 0 {
        let d = deck.drop_last();
        lemma_known_chars_exact(d);
        let p = known_positions(d);
        assert forall|k: int|
            0 <= k < deck.len() && deck[k].recalled == Recalled::Known implies exists|i: int|
                0 <= i < known_positions(deck).len() && #[trigger] known_positions(deck)[i] == k by {
            if k < deck.len() - 1 {
                assert(d[k] == deck[k]);
                let i = choose|i: int| 0 <= i < p.len() && #[trigger] p[i] == k;
                assert(known_positions(deck)[i] == k);
            } else {
                assert(known_positions(deck)[p.len() as int] == k);
            }
        }
        assert forall|i: int| 0 <= i < known_positions(deck).len() implies {
            let k = #[trigger] known_positions(deck)[i];
            &&& 0 <= k < deck.len()
            &&& deck[k].recalled == Recalled::Known
            &&& deck[k].character == known_chars(deck)[i]
        } by {
            if i < p.len() {
                assert(d[p[i]] == deck[p[i]]);
            }
        }
    }
}

/// Every known character is a character of the deck.
pub proof fn lemma_known_chars_in_deck(deck: Seq<Card>)
    ensures
        forall|i: int|
            0 <= i < known_chars(deck).len() ==> deck_chars(deck).contains(
                #[trigger] known_chars(deck)[i],
            ),
{
    lemma_known_chars_exact(deck);
    assert forall|i: int| 0 <= i < known_chars(deck).len() implies deck_chars(deck).contains(
        #[trigger] known_chars(deck)[i],
    ) by {
        let k = known_positions(deck)[i];
        assert(deck_chars(deck)[k] == known_chars(deck)[i]);
    }
}

/// Answering a card, going back and answering it again leaves the state that
/// the second answer alone would have left: the first answer is overwritten
/// and the deck keeps its length.
pub proof fn lemma_answer_again_after_go_back(
    s: SessionState,
    first: Recalled,
    second: Recalled,
)
    requires
        0 <= s.current < s.deck.len(),
    ensures
        after_answer(after_go_back(after_answer(s, first)), second) == after_answer(s, second),
        after_answer(after_go_back(after_answer(s, first)), second).deck.len() == s.deck.len(),
        after_answer(after_go_back(after_answer(s, first)), second).deck[s.current].recalled
            == second,
{
    let a = after_answer(after_go_back(after_answer(s, first)), second);
    let b = after_answer(s, second);
    assert(a.deck =~= b.deck);
}

/// Extending the characters by one extends their fresh deck by one card.
proof fn lemma_fresh_deck_push(s: Seq<char>, c: char)
    ensures
        fresh_deck(s.push(c)) == fresh_deck(s).push(unanswered(c)),
{
    assert(fresh_deck(s.push(c)) =~= fresh_deck(s).push(unanswered(c)));
}

/// An unanswered card for each character of `order`, in that order.
fn fresh_cards(order: &Vec<char>) -> (r: Vec<Card>)
    ensures
        r@ == fresh_deck(order@),
{
    let mut out: Vec<Card> = Vec::new();
    let mut i: usize = 0;
    assert(fresh_deck(order@.take(0)) =~= Seq::<Card>::empty());
    while i < order.len()
        invariant
            i <= order.len(),
            out@ == fresh_deck(order@.take(i as int)),
        decreases order.len() - i,
    {
        let c = order[i];
        proof {
            assert(order@.take(i + 1) == order@.take(i as int).push(c));
            lemma_fresh_deck_push(order@.take(i as int), c);
        }
        out.push(Card { character: c, recalled: Recalled::Unknown });
        i = i + 1;
    }
    assert(order@.take(order.len() as int) == order@);
    out
}

impl TestingScreen {
    /// The cursor lies within the deck or just past its end.
    pub open spec fn wf(&self) -> bool {
        0 <= self@.current <= self@.deck.len()
    }

    /// A session with no deck loaded.
    pub fn new() -> (r: TestingScreen)
        ensures
            r.wf(),
            r@.deck.len() == 0,
            r@.current == 0,
    {
        TestingScreen { chars: Vec::new(), current_char: 0 }
    }

    /// Replaces the deck with unanswered cards for `order`, in that order,
    /// and puts the cursor on the first card.
    pub fn load_deck(&mut self, order: Vec<char>)
        ensures
            final(self).wf(),
            final(self)@.deck == fresh_deck(order@),
            final(self)@.current == 0,
    {
        self.chars = fresh_cards(&order);
        self.current_char = 0;
    }

    /// Starts a new quiz on the characters of a text: the deck holds its CJK
    /// ideographs, with runs of equal neighbours collapsed, in random order,
    /// all unanswered, and the cursor is on the first card.
    pub fn start_test(&mut self, text: &Vec<char>)
        ensures
            final(self).wf(),
            final(self)@.current == 0,
            final(self)@.deck.len() == deck_source(text@).len(),
            deck_chars(final(self)@.deck).to_multiset() == deck_source(text@).to_multiset(),
            final(self)@.deck == fresh_deck(deck_chars(final(self)@.deck)),
            forall|i: int|
                0 <= i < final(self)@.deck.len() ==> is_cjk_ideograph(
                    (#[trigger] final(self)@.deck[i]).character,
                ),
    {
        let order = build_deck(text);
        let ghost o = order@;
        self.load_deck(order);
        proof {
            let d = self@.deck;
            assert forall|j: int| 0 <= j < d.len() implies #[trigger] deck_chars(d)[j] == o[j] by {
                assert(d[j] == fresh_deck(o)[j]);
            }
            assert(deck_chars(d) =~= o);
            assert(d =~= fresh_deck(deck_chars(d)));
            assert forall|i: int| 0 <= i < d.len() implies is_cjk_ideograph(
                (#[trigger] d[i]).character,
            ) by {
                assert(d[i].character == o[i]);
            }
        }
    }

    /// The characters of the cards marked known, in deck order.
    pub fn known(&self) -> (r: Vec<char>)
        requires
            self.wf(),
        ensures
            r@ == known_chars(self@.deck),
    {
        let mut r: Vec<char> = Vec::new();
        let mut i: usize = 0;
        while i < self.chars.len()
            invariant
                i <= self.chars.len(),
                r@ == known_chars(self.chars@.take(i as int)),
            decreases self.chars.len() - i,
        {
            assert(self.chars@.take(i + 1).drop_last() == self.chars@.take(i as int));
            let card = self.chars[i];
            if card.recalled == Recalled::Known {
                r.push(card.character);
            }
            i = i + 1;
        }
        assert(self.chars@.take(self.chars.len() as int) == self.chars@);
        r
    }

    /// Records `recalled` for the current card and moves on. When that was
    /// the last card, or when no card is left to answer, the quiz is over and
    /// the known characters are returned.
    pub fn answer(&mut self, recalled: Recalled) -> (r: Option<Vec<char>>)
        requires
            old(self).wf(),
        ensures
            final(self).wf(),
            final(self)@ == after_answer(old(self)@, recalled),
            r is Some <==> is_complete(final(self)@),
            r matches Some(v) ==> v@ == known_chars(final(self)@.deck),
    {
        if self.current_char < self.chars.len() {
            let i = self.current_char;
            let character = self.chars[i].character;
            self.chars.set(i, Card { character, recalled });
            self.current_char = i + 1;
            if self.current_char == self.chars.len() {
                Some(self.known())
            } else {
                None
            }
        } else {
            Some(self.known())
        }
    }

    /// Steps back to the previous card, keeping every answer. On the first
    /// card there is none, and the session is left as it was.
    pub fn go_back(&mut self) -> (r: Result<(), SessionError>)
        requires
            old(self).wf(),
        ensures
            final(self).wf(),
            old(self)@.current == 0 ==> r == Err::<(), SessionError>(
                SessionError::NoPreviousCharacter,
            ) && final(self)@ == old(self)@,
            old(self)@.current > 0 ==> r is Ok && final(self)@ == after_go_back(old(self)@),
    {
        if self.current_char == 0 {
            Err(SessionError::NoPreviousCharacter)
        } else {
            self.current_char = self.current_char - 1;
            Ok(())
        }
    }

    /// Handles one event. Answering the last card, or a finish requested at
    /// any time, emits the known characters in deck order; going back from
    /// the first card is refused and changes nothing.
    pub fn update(&mut self, message: Message) -> (r: Result<
        Option<OutputMessage>,
        SessionError,
    >)
        requires
            old(self).wf(),
        ensures
            final(self).wf(),
            match message {
                Message::StartTest(text) => {
                    &&& r == Ok::<Option<OutputMessage>, SessionError>(None)
                    &&& final(self)@.current == 0
                    &&& final(self)@.deck.len() == deck_source(text@).len()
                    &&& deck_chars(final(self)@.deck).to_multiset() == deck_source(
                        text@,
                    ).to_multiset()
                    &&& final(self)@.deck == fresh_deck(deck_chars(final(self)@.deck))
                },
                Message::Finish => {
                    &&& final(self)@ == old(self)@
                    &&& r matches Ok(Some(OutputMessage::Finish(v)))
                    &&& v@ == known_chars(old(self)@.deck)
                },
                Message::Answer(recalled) => {
                    &&& final(self)@ == after_answer(old(self)@, recalled)
                    &&& r matches Ok(out)
                    &&& (out is Some <==> is_complete(final(self)@))
                    &&& (out matches Some(OutputMessage::Finish(v)) ==> v@ == known_chars(
                        final(self)@.deck,
                    ))
                },
                Message::GoBack => {
                    &&& old(self)@.current == 0 ==> r == Err::<Option<OutputMessage>, SessionError>(
                        SessionError::NoPreviousCharacter,
                    ) && final(self)@ == old(self)@
                    &&& old(self)@.current > 0 ==> r == Ok::<Option<OutputMessage>, SessionError>(
                        None,
                    ) && final(self)@ == after_go_back(old(self)@)
                },
            },
    {
        match message {
            Message::StartTest(text) => {
                self.start_test(&text);
                Ok(None)
            },
            Message::Finish => Ok(Some(OutputMessage::Finish(self.known()))),
            Message::Answer(recalled) => match self.answer(recalled) {
                Some(known) => Ok(Some(OutputMessage::Finish(known))),
                None => Ok(None),
            },
            Message::GoBack => match self.go_back() {
                Ok(()) => Ok(None),
                Err(e) => Err(e),
            },
        }
    }

    /// The position of the current card; the deck's length once every card
    /// has been answered.
    pub fn current_index(&self) -> (r: usize)
        ensures
            r == self@.current,
    {
        self.current_char
    }

    /// The number of cards in the deck.
    pub fn deck_len(&self) -> (r: usize)
        ensures
            r == self@.deck.len(),
    {
        self.chars.len()
    }

    /// Every card has been answered.
    pub fn is_finished(&self) -> (r: bool)
        ensures
            r == is_complete(self@),
    {
        self.current_char == self.chars.len()
    }

    /// The character on the current card, if the cursor is on one.
    pub fn current_character(&self) -> (r: Option<char>)
        ensures
            0 <= self@.current < self@.deck.len() ==> r == Some(
                self@.deck[self@.current].character,
            ),
            !(0 <= self@.current < self@.deck.len()) ==> r is None,
    {
        if self.current_char < self.chars.len() {
            Some(self.chars[self.current_char].character)
        } else {
            None
        }
    }

    /// The character on the card before the current one, if there is one.
    pub fn previous_character(&self) -> (r: Option<char>)
        ensures
            0 < self@.current <= self@.deck.len() ==> r == Some(
                self@.deck[self@.current - 1].character,
            ),
            !(0 < self@.current <= self@.deck.len()) ==> r is None,
    {
        if 0 < self.current_char && self.current_char <= self.chars.len() {
            Some(self.chars[self.current_char - 1].character)
        } else {
            None
        }
    }

    /// The cards of the deck, in deck order.
    pub fn cards(&self) -> (r: Vec<Card>)
        ensures
            r@ == self@.deck,
    {
        let mut out: Vec<Card> = Vec::new();
        let mut i: usize = 0;
        while i < self.chars.len()
            invariant
                i <= self.chars.len(),
                out@ == self.chars@.take(i as int),
            decreases self.chars.len() - i,
        {
            proof {
                assert(self.chars@.take(i + 1) == self.chars@.take(i as int).push(self.chars@[i as int]));
            }
            out.push(self.chars[i]);
            i = i + 1;
        }
        assert(self.chars@.take(self.chars.len() as int) == self.chars@);
        out
    }

    /// The characters of the deck, in deck order.
    pub fn characters(&self) -> (r: Vec<char>)
        ensures
            r@ == deck_chars(self@.deck),
    {
        let mut out: Vec<char> = Vec::new();
        let mut i: usize = 0;
        while i < self.chars.len()
            invariant
                i <= self.chars.len(),
                out@ == deck_chars(self.chars@.take(i as int)),
            decreases self.chars.len() - i,
        {
            proof {
                assert(self.chars@.take(i + 1) == self.chars@.take(i as int).push(self.chars@[i as int]));
                assert(deck_chars(self.chars@.take(i + 1)) =~= deck_chars(self.chars@.take(i as int)).push(self.chars@[i as int].character));
            }
            out.push(self.chars[i].character);
            i = i + 1;
        }
        assert(self.chars@.take(self.chars.len() as int) == self.chars@);
        out
    }
}

} // verus!
