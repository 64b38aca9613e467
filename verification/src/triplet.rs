//! Triplet patterns: a subject, a relation and an object, each one a bound
//! term or a free variable, and the whole pattern possibly negated.
use crate::grammar::CharClass;
use crate::text::{has_prefix_at, starts_with_at, to_chars};
use vstd::prelude::*;
use vstd::string::*;

verus! {

/// Whether a text is a word: letters, digits and underscores, at least one.
pub open spec fn is_word(t: Seq<char>) -> bool {
    t.len() > 0 && forall|i: int| 0 <= i < t.len() ==> CharClass::Word.holds(#[trigger] t[i])
}

/// Whether a term can be written as it is: it is a word, and does not begin
/// with `not`, which behind a space is read as a negation.
pub open spec fn is_plain(t: Seq<char>) -> bool {
    is_word(t) && !has_prefix_at(t, 0, "not"@)
}

/// A term as it is written in a text: as it is if it is plain, else
/// between single quotes.
pub open spec fn written(t: Seq<char>) -> Seq<char> {
    if is_plain(t) {
        t
    } else {
        "\'"@ + t + "\'"@
    }
}

/// Whether a term can be read back from what is written for it: it is not
/// empty and holds no single quote.
pub open spec fn writable(t: Seq<char>) -> bool {
    t.len() > 0 && forall|i: int| 0 <= i < t.len() ==> #[trigger] t[i] != '\''
}

/// Decides whether a term can be written as it is.
pub fn is_plain_word(t: &str) -> (r: bool)
    ensures
        r == is_plain(t@),
{
    let chars = to_chars(t);
    if chars.len() == 0 {
        return false;
    }
    let mut i: usize = 0;
    while i < chars.len()
        invariant
            i <= chars.len(),
            chars@ == t@,
            forall|k: int| 0 <= k < i ==> CharClass::Word.holds(#[trigger] chars@[k]),
        decreases chars.len() - i,
    {
        if !CharClass::Word.test(chars[i]) {
            return false;
        }
        i = i + 1;
    }
    !starts_with_at(chars.as_slice(), 0, to_chars("not").as_slice())
}

/// A term as it is written in a text: see [`written`].
pub fn write_term(t: &str) -> (r: String)
    ensures
        r@ == written(t@),
{
    if is_plain_word(t) {
        String::from_str(t)
    } else {
        String::from_str("\'").concat(t).concat("\'")
    }
}

/// One position of a pattern, as a mathematical value.
pub enum SlotView {
    /// A term: an opaque value.
    Bound(Seq<char>),
    /// A variable, by its name without the `$` marker.
    Free(Seq<char>),
}

impl SlotView {
    /// The term or the variable's name.
    pub open spec fn text(self) -> Seq<char> {
        match self {
            SlotView::Bound(t) => t,
            SlotView::Free(n) => n,
        }
    }

    /// The term, or the variable's name behind a `$`.
    pub open spec fn marked(self) -> Seq<char> {
        match self {
            SlotView::Bound(t) => t,
            SlotView::Free(n) => seq!['$'] + n,
        }
    }

    /// The slot as it is written in a text: the term as [`written`] has it,
    /// or the variable's name behind a `$`.
    pub open spec fn written(self) -> Seq<char> {
        match self {
            SlotView::Bound(t) => written(t),
            SlotView::Free(n) => seq!['$'] + n,
        }
    }
}

/// A triplet pattern as a mathematical value: the model of [`Triplet`].
pub enum TripletView {
    /// The pattern that stands for "all the facts".
    Empty,
    /// Three slots and a polarity.
    Pattern { negated: bool, subject: SlotView, relation: SlotView, object: SlotView },
}

impl TripletView {
    /// A pattern that is no negation.
    pub open spec fn positive(subject: SlotView, relation: SlotView, object: SlotView) -> TripletView {
        TripletView::Pattern { negated: false, subject, relation, object }
    }

    /// A negated pattern.
    pub open spec fn negative(subject: SlotView, relation: SlotView, object: SlotView) -> TripletView {
        TripletView::Pattern { negated: true, subject, relation, object }
    }

    /// The same slots without the negation.
    pub open spec fn inverted(self) -> TripletView {
        match self {
            TripletView::Empty => TripletView::Empty,
            TripletView::Pattern { negated, subject, relation, object } => TripletView::positive(
                subject,
                relation,
                object,
            ),
        }
    }

    /// The same slots with the given polarity.
    pub open spec fn with_polarity(self, polarity: bool) -> TripletView {
        match self {
            TripletView::Empty => TripletView::Empty,
            TripletView::Pattern { negated, subject, relation, object } => TripletView::Pattern {
                negated: polarity,
                subject,
                relation,
                object,
            },
        }
    }

    /// Whether this is a negated pattern.
    pub open spec fn is_negated(self) -> bool {
        match self {
            TripletView::Empty => false,
            TripletView::Pattern { negated, subject, relation, object } => negated,
        }
    }

    /// Whether every slot is bound: a fact.
    pub open spec fn is_ground(self) -> bool {
        match self {
            TripletView::Empty => false,
            TripletView::Pattern { negated, subject, relation, object } => subject is Bound
                && relation is Bound && object is Bound,
        }
    }

    /// The three texts, variables without their marker.
    pub open spec fn texts(self) -> (Seq<char>, Seq<char>, Seq<char>) {
        match self {
            TripletView::Empty => (Seq::empty(), Seq::empty(), Seq::empty()),
            TripletView::Pattern { negated, subject, relation, object } => (
                subject.text(),
                relation.text(),
                object.text(),
            ),
        }
    }

    /// The three texts, variables behind their marker.
    pub open spec fn marked_texts(self) -> (Seq<char>, Seq<char>, Seq<char>) {
        match self {
            TripletView::Empty => (Seq::empty(), Seq::empty(), Seq::empty()),
            TripletView::Pattern { negated, subject, relation, object } => (
                subject.marked(),
                relation.marked(),
                object.marked(),
            ),
        }
    }

    /// The pattern as three texts: variables without their marker, and
    /// `not_` joined to the front of the subject of a negation. These are
    /// labels; the text from which a pattern is read back is
    /// [`TripletView::rendered`].
    pub open spec fn canonical_texts(self) -> (Seq<char>, Seq<char>, Seq<char>) {
        if self.is_negated() {
            ("not_"@ + self.texts().0, self.texts().1, self.texts().2)
        } else {
            self.texts()
        }
    }

    /// The three slots as they are written in a text, one space between
    /// them; two spaces for the empty pattern.
    pub open spec fn body(self) -> Seq<char> {
        match self {
            TripletView::Empty => "  "@,
            TripletView::Pattern { negated, subject, relation, object } => subject.written()
                + " "@ + relation.written() + " "@ + object.written(),
        }
    }

    /// The pattern as it stands in a command: behind one space, and behind
    /// the word `not` if it is a negation.
    pub open spec fn spaced(self) -> Seq<char> {
        if self.is_negated() {
            " not "@ + self.body()
        } else {
            " "@ + self.body()
        }
    }

    /// The canonical text of the pattern, from which it can be read back:
    /// its slots as they are written, behind ` not ` if it is a negation.
    pub open spec fn rendered(self) -> Seq<char> {
        if self.is_negated() {
            " not "@ + self.body()
        } else {
            self.body()
        }
    }

    /// The text shown to a reader.
    pub open spec fn displayed(self) -> Seq<char> {
        match self {
            TripletView::Empty => "Empty triplet"@,
            TripletView::Pattern { negated, subject, relation, object } => {
                let inner = subject.marked() + ","@ + relation.marked() + ","@ + object.marked();
                if negated {
                    "Not("@ + inner + ")"@
                } else {
                    inner
                }
            },
        }
    }
}

/// One position of a pattern.
#[derive(Debug, PartialEq)]
pub enum Slot {
    /// A term.
    Bound(String),
    /// A variable, by its name without the `$` marker.
    Free(String),
}

impl DeepView for Slot {
    type V = SlotView;

    open spec fn deep_view(&self) -> SlotView {
        match *self {
            Slot::Bound(t) => SlotView::Bound(t@),
            Slot::Free(n) => SlotView::Free(n@),
        }
    }
}

impl Clone for Slot {
    fn clone(&self) -> (r: Self)
        ensures
            r == *self,
    {
        match self {
            Slot::Bound(t) => Slot::Bound(t.clone()),
            Slot::Free(n) => Slot::Free(n.clone()),
        }
    }
}

impl Slot {
    /// Whether the slot is a variable.
    pub fn is_free(&self) -> (r: bool)
        ensures
            r == (self.deep_view() is Free),
    {
        match self {
            Slot::Bound(_) => false,
            Slot::Free(_) => true,
        }
    }

    /// The term or the variable's name.
    pub fn text(&self) -> (r: &String)
        ensures
            r@ == self.deep_view().text(),
    {
        match self {
            Slot::Bound(t) => t,
            Slot::Free(n) => n,
        }
    }

    /// The term or the variable's name, taken out of the slot.
    pub fn into_text(self) -> (r: String)
        ensures
            r@ == self.deep_view().text(),
    {
        match self {
            Slot::Bound(t) => t,
            Slot::Free(n) => n,
        }
    }

    /// The slot as it is written in a text: see [`SlotView::written`].
    pub fn written(&self) -> (r: String)
        ensures
            r@ == self.deep_view().written(),
    {
        match self {
            Slot::Bound(t) => write_term(t.as_str()),
            Slot::Free(n) => to_var(n.as_str()),
        }
    }

    /// The term, or the variable's name behind a `$`.
    pub fn marked(&self) -> (r: String)
        ensures
            r@ == self.deep_view().marked(),
    {
        match self {
            Slot::Bound(t) => t.clone(),
            Slot::Free(n) => to_var(n.as_str()),
        }
    }
}

/// A variable's name behind its marker.
pub fn to_var(s: &str) -> (r: String)
    ensures
        r@ == seq!['$'] + s@,
{
    proof {
        reveal_strlit("$");
    }
    let r = String::from_str("$").concat(s);
    assert(r@ =~= seq!['$'] + s@);
    r
}

/// Copies three strings into a tuple.
pub fn format_tuple_of_three(t: (&String, &String, &String)) -> (r: (String, String, String))
    ensures
        r.0@ == t.0@,
        r.1@ == t.1@,
        r.2@ == t.2@,
{
    (t.0.clone(), t.1.clone(), t.2.clone())
}

/// A triplet pattern. The letters of a variant's name tell, slot by slot,
/// whether it holds a term (`e`) or a variable (`v`); an `N` marks a negation.
/// A variable is held by its name without the `$` marker.
#[derive(Debug, PartialEq)]
pub enum Triplet {
    Teee(String, String, String),
    Tvee(String, String, String),
    Teve(String, String, String),
    Teev(String, String, String),
    Tvve(String, String, String),
    Tvev(String, String, String),
    Tevv(String, String, String),
    Tvvv(String, String, String),
    TNeee(String, String, String),
    TNvee(String, String, String),
    TNeve(String, String, String),
    TNeev(String, String, String),
    TNvve(String, String, String),
    TNvev(String, String, String),
    TNevv(String, String, String),
    TNvvv(String, String, String),
    Empty,
}

impl DeepView for Triplet {
    type V = TripletView;

    open spec fn deep_view(&self) -> TripletView {
        match *self {
            Triplet::Teee(a, b, c) => TripletView::positive(
                SlotView::Bound(a@),
                SlotView::Bound(b@),
                SlotView::Bound(c@),
            ),
            Triplet::Tvee(a, b, c) => TripletView::positive(
                SlotView::Free(a@),
                SlotView::Bound(b@),
                SlotView::Bound(c@),
            ),
            Triplet::Teve(a, b, c) => TripletView::positive(
                SlotView::Bound(a@),
                SlotView::Free(b@),
                SlotView::Bound(c@),
            ),
            Triplet::Teev(a, b, c) => TripletView::positive(
                SlotView::Bound(a@),
                SlotView::Bound(b@),
                SlotView::Free(c@),
            ),
            Triplet::Tvve(a, b, c) => TripletView::positive(
                SlotView::Free(a@),
                SlotView::Free(b@),
                SlotView::Bound(c@),
            ),
            Triplet::Tvev(a, b, c) => TripletView::positive(
                SlotView::Free(a@),
                SlotView::Bound(b@),
                SlotView::Free(c@),
            ),
            Triplet::Tevv(a, b, c) => TripletView::positive(
                SlotView::Bound(a@),
                SlotView::Free(b@),
                SlotView::Free(c@),
            ),
            Triplet::Tvvv(a, b, c) => TripletView::positive(
                SlotView::Free(a@),
                SlotView::Free(b@),
                SlotView::Free(c@),
            ),
            Triplet::TNeee(a, b, c) => TripletView::negative(
                SlotView::Bound(a@),
                SlotView::Bound(b@),
                SlotView::Bound(c@),
            ),
            Triplet::TNvee(a, b, c) => TripletView::negative(
                SlotView::Free(a@),
                SlotView::Bound(b@),
                SlotView::Bound(c@),
            ),
            Triplet::TNeve(a, b, c) => TripletView::negative(
                SlotView::Bound(a@),
                SlotView::Free(b@),
                SlotView::Bound(c@),
            ),
            Triplet::TNeev(a, b, c) => TripletView::negative(
                SlotView::Bound(a@),
                SlotView::Bound(b@),
                SlotView::Free(c@),
            ),
            Triplet::TNvve(a, b, c) => TripletView::negative(
                SlotView::Free(a@),
                SlotView::Free(b@),
                SlotView::Bound(c@),
            ),
            Triplet::TNvev(a, b, c) => TripletView::negative(
                SlotView::Free(a@),
                SlotView::Bound(b@),
                SlotView::Free(c@),
            ),
            Triplet::TNevv(a, b, c) => TripletView::negative(
                SlotView::Bound(a@),
                SlotView::Free(b@),
                SlotView::Free(c@),
            ),
            Triplet::TNvvv(a, b, c) => TripletView::negative(
                SlotView::Free(a@),
                SlotView::Free(b@),
                SlotView::Free(c@),
            ),
            Triplet::Empty => TripletView::Empty,
        }
    }
}

impl Clone for Triplet {
    fn clone(&self) -> (r: Self)
        ensures
            r == *self,
    {
        match self {
            Triplet::Teee(a, b, c) => Triplet::Teee(a.clone(), b.clone(), c.clone()),
            Triplet::Tvee(a, b, c) => Triplet::Tvee(a.clone(), b.clone(), c.clone()),
            Triplet::Teve(a, b, c) => Triplet::Teve(a.clone(), b.clone(), c.clone()),
            Triplet::Teev(a, b, c) => Triplet::Teev(a.clone(), b.clone(), c.clone()),
            Triplet::Tvve(a, b, c) => Triplet::Tvve(a.clone(), b.clone(), c.clone()),
            Triplet::Tvev(a, b, c) => Triplet::Tvev(a.clone(), b.clone(), c.clone()),
            Triplet::Tevv(a, b, c) => Triplet::Tevv(a.clone(), b.clone(), c.clone()),
            Triplet::Tvvv(a, b, c) => Triplet::Tvvv(a.clone(), b.clone(), c.clone()),
            Triplet::TNeee(a, b, c) => Triplet::TNeee(a.clone(), b.clone(), c.clone()),
            Triplet::TNvee(a, b, c) => Triplet::TNvee(a.clone(), b.clone(), c.clone()),
            Triplet::TNeve(a, b, c) => Triplet::TNeve(a.clone(), b.clone(), c.clone()),
            Triplet::TNeev(a, b, c) => Triplet::TNeev(a.clone(), b.clone(), c.clone()),
            Triplet::TNvve(a, b, c) => Triplet::TNvve(a.clone(), b.clone(), c.clone()),
            Triplet::TNvev(a, b, c) => Triplet::TNvev(a.clone(), b.clone(), c.clone()),
            Triplet::TNevv(a, b, c) => Triplet::TNevv(a.clone(), b.clone(), c.clone()),
            Triplet::TNvvv(a, b, c) => Triplet::TNvvv(a.clone(), b.clone(), c.clone()),
            Triplet::Empty => Triplet::Empty,
        }
    }
}

impl Triplet {
    /// Takes the pattern apart: its polarity and its three slots, or `None`
    /// for the empty pattern.
    pub fn into_slots(self) -> (r: Option<(bool, Slot, Slot, Slot)>)
        ensures
            match r {
                None => self.deep_view() is Empty,
                Some((negated, subject, relation, object)) => self.deep_view()
                    == (TripletView::Pattern {
                    negated,
                    subject: subject.deep_view(),
                    relation: relation.deep_view(),
                    object: object.deep_view(),
                }),
            },
    {
        match self {
            Triplet::Teee(a, b, c) => Some((false, Slot::Bound(a), Slot::Bound(b), Slot::Bound(c))),
            Triplet::Tvee(a, b, c) => Some((false, Slot::Free(a), Slot::Bound(b), Slot::Bound(c))),
            Triplet::Teve(a, b, c) => Some((false, Slot::Bound(a), Slot::Free(b), Slot::Bound(c))),
            Triplet::Teev(a, b, c) => Some((false, Slot::Bound(a), Slot::Bound(b), Slot::Free(c))),
            Triplet::Tvve(a, b, c) => Some((false, Slot::Free(a), Slot::Free(b), Slot::Bound(c))),
            Triplet::Tvev(a, b, c) => Some((false, Slot::Free(a), Slot::Bound(b), Slot::Free(c))),
            Triplet::Tevv(a, b, c) => Some((false, Slot::Bound(a), Slot::Free(b), Slot::Free(c))),
            Triplet::Tvvv(a, b, c) => Some((false, Slot::Free(a), Slot::Free(b), Slot::Free(c))),
            Triplet::TNeee(a, b, c) => Some((true, Slot::Bound(a), Slot::Bound(b), Slot::Bound(c))),
            Triplet::TNvee(a, b, c) => Some((true, Slot::Free(a), Slot::Bound(b), Slot::Bound(c))),
            Triplet::TNeve(a, b, c) => Some((true, Slot::Bound(a), Slot::Free(b), Slot::Bound(c))),
            Triplet::TNeev(a, b, c) => Some((true, Slot::Bound(a), Slot::Bound(b), Slot::Free(c))),
            Triplet::TNvve(a, b, c) => Some((true, Slot::Free(a), Slot::Free(b), Slot::Bound(c))),
            Triplet::TNvev(a, b, c) => Some((true, Slot::Free(a), Slot::Bound(b), Slot::Free(c))),
            Triplet::TNevv(a, b, c) => Some((true, Slot::Bound(a), Slot::Free(b), Slot::Free(c))),
            Triplet::TNvvv(a, b, c) => Some((true, Slot::Free(a), Slot::Free(b), Slot::Free(c))),
            Triplet::Empty => None,
        }
    }

    /// A copy of the pattern's parts: see [`Triplet::into_slots`].
    pub fn slots(&self) -> (r: Option<(bool, Slot, Slot, Slot)>)
        ensures
            match r {
                None => self.deep_view() is Empty,
                Some((negated, subject, relation, object)) => self.deep_view()
                    == (TripletView::Pattern {
                    negated,
                    subject: subject.deep_view(),
                    relation: relation.deep_view(),
                    object: object.deep_view(),
                }),
            },
    {
        self.clone().into_slots()
    }

    /// The pattern with the given polarity and slots.
    pub fn from_slots(negated: bool, subject: Slot, relation: Slot, object: Slot) -> (r: Triplet)
        ensures
            r.deep_view() == (TripletView::Pattern {
                negated,
                subject: subject.deep_view(),
                relation: relation.deep_view(),
                object: object.deep_view(),
            }),
    {
        match (negated, subject, relation, object) {
            (false, Slot::Bound(a), Slot::Bound(b), Slot::Bound(c)) => Triplet::Teee(a, b, c),
            (false, Slot::Free(a), Slot::Bound(b), Slot::Bound(c)) => Triplet::Tvee(a, b, c),
            (false, Slot::Bound(a), Slot::Free(b), Slot::Bound(c)) => Triplet::Teve(a, b, c),
            (false, Slot::Bound(a), Slot::Bound(b), Slot::Free(c)) => Triplet::Teev(a, b, c),
            (false, Slot::Free(a), Slot::Free(b), Slot::Bound(c)) => Triplet::Tvve(a, b, c),
            (false, Slot::Free(a), Slot::Bound(b), Slot::Free(c)) => Triplet::Tvev(a, b, c),
            (false, Slot::Bound(a), Slot::Free(b), Slot::Free(c)) => Triplet::Tevv(a, b, c),
            (false, Slot::Free(a), Slot::Free(b), Slot::Free(c)) => Triplet::Tvvv(a, b, c),
            (true, Slot::Bound(a), Slot::Bound(b), Slot::Bound(c)) => Triplet::TNeee(a, b, c),
            (true, Slot::Free(a), Slot::Bound(b), Slot::Bound(c)) => Triplet::TNvee(a, b, c),
            (true, Slot::Bound(a), Slot::Free(b), Slot::Bound(c)) => Triplet::TNeve(a, b, c),
            (true, Slot::Bound(a), Slot::Bound(b), Slot::Free(c)) => Triplet::TNeev(a, b, c),
            (true, Slot::Free(a), Slot::Free(b), Slot::Bound(c)) => Triplet::TNvve(a, b, c),
            (true, Slot::Free(a), Slot::Bound(b), Slot::Free(c)) => Triplet::TNvev(a, b, c),
            (true, Slot::Bound(a), Slot::Free(b), Slot::Free(c)) => Triplet::TNevv(a, b, c),
            (true, Slot::Free(a), Slot::Free(b), Slot::Free(c)) => Triplet::TNvvv(a, b, c),
        }
    }

    /// The pattern without its negation.
    pub fn invert(self) -> (r: Triplet)
        ensures
            r.deep_view() == self.deep_view().inverted(),
    {
        match self.into_slots() {
            None => Triplet::Empty,
            Some((_, subject, relation, object)) => Triplet::from_slots(
                false,
                subject,
                relation,
                object,
            ),
        }
    }

    /// The three texts of the pattern, variables without their marker; three
    /// empty strings for the empty pattern.
    pub fn to_tuple(&self) -> (r: (String, String, String))
        ensures
            (r.0@, r.1@, r.2@) == self.deep_view().texts(),
    {
        match self.slots() {
            None => (String::new(), String::new(), String::new()),
            Some((_, subject, relation, object)) => (
                subject.into_text(),
                relation.into_text(),
                object.into_text(),
            ),
        }
    }

    /// The three texts of the pattern, each variable behind a `$`; three
    /// empty strings for the empty pattern.
    pub fn to_tuple_with_variable(&self) -> (r: (String, String, String))
        ensures
            (r.0@, r.1@, r.2@) == self.deep_view().marked_texts(),
    {
        match self.slots() {
            None => (String::new(), String::new(), String::new()),
            Some((_, subject, relation, object)) => (
                subject.marked(),
                relation.marked(),
                object.marked(),
            ),
        }
    }

    /// The pattern for a reader: the marked texts between commas, inside
    /// `Not(..)` for a negation.
    pub fn display(&self) -> (r: String)
        ensures
            r@ == self.deep_view().displayed(),
    {
        match self.slots() {
            None => String::from_str("Empty triplet"),
            Some((negated, subject, relation, object)) => {
                let inner = subject.marked().concat(",").concat(relation.marked().as_str()).concat(
                    ",",
                ).concat(object.marked().as_str());
                if negated {
                    String::from_str("Not(").concat(inner.as_str()).concat(")")
                } else {
                    inner
                }
            },
        }
    }

    /// The pattern as three texts: see [`TripletView::canonical_texts`].
    pub fn canonical_tuple(self) -> (r: (String, String, String))
        ensures
            (r.0@, r.1@, r.2@) == self.deep_view().canonical_texts(),
    {
        match self.into_slots() {
            None => (String::new(), String::new(), String::new()),
            Some((negated, subject, relation, object)) => {
                if negated {
                    (
                        String::from_str("not_").concat(subject.text().as_str()),
                        relation.into_text(),
                        object.into_text(),
                    )
                } else {
                    (subject.into_text(), relation.into_text(), object.into_text())
                }
            },
        }
    }

    /// The three slots as they are written in a text: see
    /// [`TripletView::body`].
    pub fn body(&self) -> (r: String)
        ensures
            r@ == self.deep_view().body(),
    {
        match self.slots() {
            None => String::from_str("  "),
            Some((_, subject, relation, object)) => subject.written().concat(" ").concat(
                relation.written().as_str(),
            ).concat(" ").concat(object.written().as_str()),
        }
    }

    /// Whether the pattern is a negation.
    pub fn is_negated(&self) -> (r: bool)
        ensures
            r == self.deep_view().is_negated(),
    {
        match self.slots() {
            None => false,
            Some((negated, _, _, _)) => negated,
        }
    }

    /// The pattern as it stands in a command: see [`TripletView::spaced`].
    pub fn spaced(&self) -> (r: String)
        ensures
            r@ == self.deep_view().spaced(),
    {
        if self.is_negated() {
            String::from_str(" not ").concat(self.body().as_str())
        } else {
            String::from_str(" ").concat(self.body().as_str())
        }
    }

    /// The canonical text of the pattern: see [`TripletView::rendered`].
    pub fn render(self) -> (r: String)
        ensures
            r@ == self.deep_view().rendered(),
    {
        if self.is_negated() {
            String::from_str(" not ").concat(self.body().as_str())
        } else {
            self.body()
        }
    }
}

impl From<Triplet> for (String, String, String) {
    fn from(t: Triplet) -> (r: (String, String, String))
        ensures
            (r.0@, r.1@, r.2@) == t.deep_view().canonical_texts(),
    {
        t.canonical_tuple()
    }
}

impl vstd::std_specs::convert::FromSpecImpl<Triplet> for (String, String, String) {
    /// The conversion is specified by the `ensures` of `from` alone.
    open spec fn obeys_from_spec() -> bool {
        false
    }

    open spec fn from_spec(t: Triplet) -> (String, String, String) {
        arbitrary()
    }
}

impl vstd::std_specs::convert::FromSpecImpl<Triplet> for String {
    /// The conversion is specified by the `ensures` of `from` alone.
    open spec fn obeys_from_spec() -> bool {
        false
    }

    open spec fn from_spec(t: Triplet) -> String {
        arbitrary()
    }
}

impl From<Triplet> for String {
    fn from(t: Triplet) -> (r: String)
        ensures
            r@ == t.deep_view().rendered(),
    {
        t.render()
    }
}

} // verus!
