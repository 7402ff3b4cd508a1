//! A singly-linked list whose cells own their tails.

use std::fmt::Display;
use vstd::prelude::*;
use vstd::string::*;
use vstd::std_specs::cmp::{PartialEqSpec, PartialEqSpecImpl};
use vstd::std_specs::convert::FromSpecImpl;

verus! {

/// A list is either empty or a cell that holds a value and owns the rest.
#[derive(Debug)]
pub enum ListNode<T> {
    Nil,
    Cons(T, Box<ListNode<T>>),
}

impl<T> View for ListNode<T> {
    type V = Seq<T>;

    /// The values of the list from head to tail.
    open spec fn view(&self) -> Seq<T> {
        self.elements()
    }
}

impl<T> ListNode<T> {
    /// The values of the list from head to tail.
    pub open spec fn elements(self) -> Seq<T>
        decreases self,
    {
        match self {
            ListNode::Nil => Seq::empty(),
            ListNode::Cons(value, next) => seq![value] + next.elements(),
        }
    }

    /// The list that holds the values of `values`, in the same order.
    pub open spec fn of(values: Seq<T>) -> Self
        decreases values.len(),
    {
        if values.len() == 0 {
            ListNode::Nil
        } else {
            ListNode::Cons(values[0], Box::new(Self::of(values.drop_first())))
        }
    }

    /// Creates an empty list.
    pub fn new() -> (list: Self)
        ensures
            list == ListNode::<T>::Nil,
            list@ == Seq::<T>::empty(),
    {
        ListNode::Nil
    }

    /// Removes the head cell; an empty list stays empty.
    pub fn delete(&mut self)
        ensures
            old(self)@.len() == 0 ==> *final(self) == *old(self),
            old(self)@.len() > 0 ==> final(self)@ == old(self)@.drop_first(),
            old(self)@.len() > 0 ==> final(self)@.len() == old(self)@.len() - 1,
    {
        let mut owned = ListNode::Nil;
        std::mem::swap(self, &mut owned);
        match owned {
            ListNode::Nil => {},
            ListNode::Cons(_, next) => {
                *self = *next;
            },
        }
    }

    /// Appends `value` behind the last cell and hands the list back.
    pub fn insert(&mut self, value: T) -> (head: &mut Self)
        ensures
            head@ == old(self)@.push(value),
            *final(self) == *final(head),
    {
        let mut owned = ListNode::Nil;
        std::mem::swap(self, &mut owned);
        let ghost whole = owned@;
        let ghost walked: Seq<T> = Seq::empty();
        let mut cursor = &mut owned;
        loop
            invariant
                whole == walked + cursor@,
                after_borrow(owned)@ == walked + final(cursor)@,
            ensures
                cursor@ == Seq::<T>::empty(),
            decreases cursor@.len(),
        {
            match cursor {
                ListNode::Cons(value, next) => {
                    proof {
                        walked = walked.push(*value);
                    }
                    cursor = &mut **next;
                },
                ListNode::Nil => {
                    break;
                },
            }
        }
        *cursor = ListNode::Cons(value, Box::new(ListNode::Nil));
        *self = owned;
        self
    }

    /// Reverses the list in place, relinking the existing cells.
    pub fn reverse(&mut self)
        ensures
            final(self)@ == old(self)@.reverse(),
    {
        let mut done = ListNode::Nil;
        let mut rest = ListNode::Nil;
        std::mem::swap(self, &mut rest);
        let ghost whole = rest@;
        loop
            invariant
                whole.reverse() == rest@.reverse() + done@,
            ensures
                whole.reverse() == done@,
            decreases rest@.len(),
        {
            match rest {
                ListNode::Cons(value, mut tail) => {
                    std::mem::swap(&mut *tail, &mut done);
                    rest = done;
                    done = ListNode::Cons(value, tail);
                },
                ListNode::Nil => {
                    break;
                },
            }
        }
        *self = done;
    }

    /// Builds the list whose values are those of `seq`, in the same order.
    pub fn from_sequence(seq: Vec<T>) -> (list: Self)
        ensures
            list@ == seq@,
            list == Self::of(seq@),
    {
        let mut list = ListNode::Nil;
        for value in it: seq
            invariant
                list@ == seq@.take(it.index() as int),
        {
            list.insert(value);
        }
        proof {
            list.lemma_list_round_trip();
        }
        list
    }

    /// Takes the list apart into its values, head first.
    pub fn to_sequence(self) -> (seq: Vec<T>)
        ensures
            seq@ == self@,
    {
        let ghost whole = self@;
        let mut seq: Vec<T> = Vec::new();
        let mut rest = self;
        loop
            invariant
                whole == seq@ + rest@,
            ensures
                whole == seq@,
            decreases rest@.len(),
        {
            match rest {
                ListNode::Cons(value, tail) => {
                    seq.push(value);
                    rest = *tail;
                },
                ListNode::Nil => {
                    break;
                },
            }
        }
        seq
    }
}

/// Whether `Display` can write `value` as `text`.
pub open spec fn displays_as<T: Display>(value: T, text: Seq<char>) -> bool {
    exists|written: String| written@ == text && to_string_from_display_ensures::<T>(&value, written)
}

/// The texts of `parts`, each followed by an arrow, and `Nil` at the end.
pub open spec fn rendering(parts: Seq<Seq<char>>) -> Seq<char>
    decreases parts.len(),
{
    if parts.len() == 0 {
        "Nil"@
    } else {
        parts[0] + " -> "@ + rendering(parts.drop_first())
    }
}

/// The views of the strings of `texts`.
pub open spec fn views_of(texts: Seq<String>) -> Seq<Seq<char>> {
    texts.map_values(|text: String| text@)
}

/// Joins the texts of a list's values into the rendering of the list.
pub fn render_texts(texts: &Vec<String>) -> (text: String)
    ensures
        text@ == rendering(views_of(texts@)),
{
    let ghost parts = views_of(texts@);
    let mut text = String::new();
    let mut at: usize = 0;
    assert(text@ + rendering(parts.skip(0)) == rendering(parts)) by {
        assert(parts.skip(0) == parts);
    }
    while at < texts.len()
        invariant
            at <= texts.len(),
            parts == views_of(texts@),
            text@ + rendering(parts.skip(at as int)) == rendering(parts),
        decreases texts.len() - at,
    {
        proof {
            let rest = parts.skip(at as int);
            assert(rest[0] == texts@[at as int]@);
            assert(rest.drop_first() == parts.skip(at + 1));
            assert((text@ + rest[0] + " -> "@) + rendering(rest.drop_first()) == text@ + rendering(
                rest,
            ));
        }
        text.append(texts[at].as_str());
        text.append(" -> ");
        at = at + 1;
    }
    text.append("Nil");
    text
}

impl<T: Display> ListNode<T> {
    /// Renders the list as its values in order, each followed by ` -> `,
    /// and `Nil` at the end.
    pub fn to_string(&self) -> (text: String)
        ensures
            exists|parts: Seq<Seq<char>>|
                {
                    &&& parts.len() == self@.len()
                    &&& forall|i: int| 0 <= i < parts.len() ==> displays_as(self@[i], #[trigger] parts[i])
                    &&& text@ == rendering(parts)
                },
    {
        let mut texts: Vec<String> = Vec::new();
        let mut rest = self;
        loop
            invariant
                texts@.len() + rest@.len() == self@.len(),
                rest@ == self@.skip(texts@.len() as int),
                forall|i: int|
                    0 <= i < texts@.len() ==> displays_as(self@[i], #[trigger] views_of(texts@)[i]),
            ensures
                texts@.len() == self@.len(),
                forall|i: int|
                    0 <= i < texts@.len() ==> displays_as(self@[i], #[trigger] views_of(texts@)[i]),
            decreases rest@.len(),
        {
            match rest {
                ListNode::Cons(value, tail) => {
                    assert(rest@[0] == *value);
                    assert(rest@.skip(1) == tail@);
                    let written = value.to_string();
                    let ghost before = texts@;
                    texts.push(written);
                    assert forall|i: int| 0 <= i < texts@.len() implies displays_as(
                        self@[i],
                        #[trigger] views_of(texts@)[i],
                    ) by {
                        if i < before.len() {
                            assert(views_of(texts@)[i] == views_of(before)[i]);
                        } else {
                            assert(self@[i] == *value);
                            assert(views_of(texts@)[i] == written@);
                        }
                    }
                    rest = &**tail;
                },
                ListNode::Nil => {
                    break;
                },
            }
        }
        render_texts(&texts)
    }
}

impl<T> ListNode<T> {
    /// The list of the values of a list is that list: the view loses nothing.
    pub proof fn lemma_list_round_trip(self)
        ensures
            Self::of(self@) == self,
        decreases self,
    {
        match self {
            ListNode::Nil => {},
            ListNode::Cons(value, next) => {
                next.lemma_list_round_trip();
                assert(self@.drop_first() == next@);
            },
        }
    }

    /// The list built from `values` holds `values`: taking it apart gives
    /// them back.
    pub proof fn lemma_sequence_round_trip(values: Seq<T>)
        ensures
            Self::of(values)@ == values,
        decreases values.len(),
    {
        if values.len() > 0 {
            Self::lemma_sequence_round_trip(values.drop_first());
        }
    }

    /// Reversing a list twice gives the list back.
    pub proof fn lemma_reverse_twice(self)
        ensures
            self@.reverse().reverse() == self@,
    {
    }
}

impl<T> From<Vec<T>> for ListNode<T> {
    /// Builds the list whose values are those of `seq`, in the same order.
    fn from(seq: Vec<T>) -> (list: Self)
        ensures
            list@ == seq@,
    {
        ListNode::from_sequence(seq)
    }
}

impl<T> FromSpecImpl<Vec<T>> for ListNode<T> {
    open spec fn obeys_from_spec() -> bool {
        true
    }

    open spec fn from_spec(seq: Vec<T>) -> Self {
        ListNode::of(seq@)
    }
}

impl<T> From<ListNode<T>> for Vec<T> {
    /// Takes the list apart into its values, head first.
    fn from(list: ListNode<T>) -> (seq: Self)
        ensures
            seq@ == list@,
    {
        list.to_sequence()
    }
}

/// No spec function builds a `Vec`, so this conversion is stated by the
/// `ensures` of `from` alone, over the views.
impl<T> FromSpecImpl<ListNode<T>> for Vec<T> {
    open spec fn obeys_from_spec() -> bool {
        false
    }

    open spec fn from_spec(list: ListNode<T>) -> Self {
        arbitrary()
    }
}

impl<T> Default for ListNode<T> {
    /// The default list is the empty one.
    fn default() -> (list: Self)
        ensures
            list == ListNode::<T>::Nil,
    {
        ListNode::Nil
    }
}

impl<T: PartialEq> PartialEq for ListNode<T> {
    /// Compares two lists value by value, from the heads down.
    fn eq(&self, other: &Self) -> (equal: bool) {
        let mut left = self;
        let mut right = other;
        let ghost mut at: int = 0;
        loop
            invariant
                0 <= at <= self@.len(),
                at <= other@.len(),
                left@ == self@.skip(at),
                right@ == other@.skip(at),
                forall|i: int| 0 <= i < at ==> T::obeys_eq_spec() ==> self@[i].eq_spec(&other@[i]),
            decreases left@.len(),
        {
            match (left, right) {
                (ListNode::Nil, ListNode::Nil) => {
                    return true;
                },
                (ListNode::Cons(a, rest_a), ListNode::Cons(b, rest_b)) => {
                    assert(left@[0] == *a && right@[0] == *b);
                    assert(left@.skip(1) == rest_a@);
                    assert(right@.skip(1) == rest_b@);
                    if !(a == b) {
                        assert(self@[at] == *a && other@[at] == *b);
                        return false;
                    }
                    left = &**rest_a;
                    right = &**rest_b;
                    proof {
                        at = at + 1;
                    }
                },
                _ => {
                    assert(left@.len() != right@.len());
                    return false;
                },
            }
        }
    }
}

impl<T: PartialEq> PartialEqSpecImpl for ListNode<T> {
    open spec fn obeys_eq_spec() -> bool {
        T::obeys_eq_spec()
    }

    /// Two lists are equal when they are as long as each other and hold
    /// equal values at every position.
    open spec fn eq_spec(&self, other: &Self) -> bool {
        &&& self@.len() == other@.len()
        &&& forall|i: int| 0 <= i < self@.len() ==> (#[trigger] self@[i]).eq_spec(&other@[i])
    }
}

impl<T: Eq> Eq for ListNode<T> {
}

} // verus!
