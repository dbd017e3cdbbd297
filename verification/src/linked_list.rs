//! A singly linked list that owns its items.

use crate::text::texts;
use vstd::pervasive::cloned;
use vstd::prelude::*;
use vstd::std_specs::cmp::{PartialEqSpec, PartialEqSpecImpl};
use vstd::string::StringExecFns;

verus! {

/// A list of items, the first one at the head. Its view is the sequence of
/// its items from the head on.
pub struct LinkedList<T> {
    head: Option<Box<Node<T>>>,
    size: usize,
}

/// One cell of a list: an item and the rest of the list behind it.
pub struct Node<T> {
    value: T,
    next: Option<Box<Node<T>>>,
}

impl<T> Node<T> {
    /// A node that holds `value` and is followed by `next`.
    pub fn new(value: T, next: Option<Box<Node<T>>>) -> (node: Self)
        ensures
            node.items() == seq![value] + Node::chain(next),
    {
        Node { value: value, next: next }
    }

    /// The items from this node on.
    pub closed spec fn items(self) -> Seq<T>
        decreases self,
    {
        seq![self.value] + Node::chain(self.next)
    }

    /// The items that a link leads to.
    pub closed spec fn chain(link: Option<Box<Node<T>>>) -> Seq<T>
        decreases link,
    {
        match link {
            None => Seq::empty(),
            Some(node) => node.items(),
        }
    }
}

impl<T> View for LinkedList<T> {
    type V = Seq<T>;

    closed spec fn view(&self) -> Seq<T> {
        Node::chain(self.head)
    }
}

impl<T> LinkedList<T> {
    #[verifier::type_invariant]
    spec fn counted(self) -> bool {
        self.size == Node::chain(self.head).len()
    }

    /// The empty list.
    pub fn new() -> (list: Self)
        ensures
            list@ == Seq::<T>::empty(),
    {
        LinkedList { head: None, size: 0 }
    }

    /// The number of items.
    pub fn get_size(&self) -> (size: usize)
        ensures
            size == self@.len(),
    {
        proof {
            use_type_invariant(self);
        }
        self.size
    }

    /// Whether the list has no item.
    pub fn is_empty(&self) -> (empty: bool)
        ensures
            empty == (self@.len() == 0),
    {
        self.get_size() == 0
    }

    /// Puts `value` in front of the others.
    pub fn push_front(&mut self, value: T)
        requires
            old(self)@.len() < usize::MAX,
        ensures
            final(self)@ == seq![value] + old(self)@,
    {
        let mut taken: LinkedList<T> = LinkedList::new();
        core::mem::swap(self, &mut taken);
        proof {
            use_type_invariant(&taken);
        }
        let LinkedList { head, size } = taken;
        let new_node: Box<Node<T>> = Box::new(Node::new(value, head));
        *self = LinkedList { head: Some(new_node), size: size + 1 };
    }

    /// Takes the first item off the list, if there is one.
    pub fn pop_front(&mut self) -> (front: Option<T>)
        ensures
            old(self)@.len() == 0 ==> front is None && final(self)@ == old(self)@,
            old(self)@.len() > 0 ==> front == Some(old(self)@[0]) && final(self)@ == old(self)@.skip(
                1,
            ),
    {
        let mut taken: LinkedList<T> = LinkedList::new();
        core::mem::swap(self, &mut taken);
        proof {
            use_type_invariant(&taken);
        }
        let LinkedList { head, size } = taken;
        match head {
            None => None,
            Some(node) => {
                let node: Node<T> = *node;
                assert((seq![node.value] + Node::chain(node.next)).skip(1) =~= Node::chain(
                    node.next,
                ));
                *self = LinkedList { head: node.next, size: size - 1 };
                Some(node.value)
            },
        }
    }
}

/// Whether two sequences have the same length and, place by place, items that
/// `==` takes for equal.
pub open spec fn pairwise_equal<T: PartialEq>(left: Seq<T>, right: Seq<T>) -> bool {
    left.len() == right.len() && forall|i: int|
        0 <= i < left.len() ==> (#[trigger] left[i]).eq_spec(&right[i])
}

/// Whether `copy` has the length of `source` and, place by place, an item that
/// `clone` may give for the item of `source`.
pub open spec fn pairwise_cloned<T: Clone>(source: Seq<T>, copy: Seq<T>) -> bool {
    source.len() == copy.len() && forall|i: int|
        0 <= i < source.len() ==> cloned(#[trigger] source[i], copy[i])
}

impl<T: Clone> Clone for Node<T> {
    fn clone(&self) -> (copy: Self)
        ensures
            pairwise_cloned(self.items(), copy.items()),
        decreases self,
    {
        let copy = Node {
            value: self.value.clone(),
            next: (match &self.next {
                Some(node) => Some(Box::new((&**node).clone())),
                None => None,
            }),
        };
        assert forall|i: int| 0 <= i < self.items().len() implies cloned(
            #[trigger] self.items()[i],
            copy.items()[i],
        ) by {
            if i > 0 {
                assert(self.items()[i] == Node::chain(self.next)[i - 1]);
                assert(copy.items()[i] == Node::chain(copy.next)[i - 1]);
            }
        }
        copy
    }
}

impl<T: Clone> Clone for LinkedList<T> {
    fn clone(&self) -> (copy: Self)
        ensures
            pairwise_cloned(self@, copy@),
    {
        proof {
            use_type_invariant(self);
        }
        LinkedList {
            head: (match &self.head {
                Some(node) => Some(Box::new((&**node).clone())),
                None => None,
            }),
            size: self.size,
        }
    }
}

impl<T: PartialEq> PartialEq for Node<T> {
    fn eq(&self, other: &Self) -> (equal: bool)
        decreases self,
    {
        let heads = self.value == other.value;
        let tails = match (&self.next, &other.next) {
            (None, None) => true,
            (Some(mine), Some(theirs)) => (&**mine).eq(&**theirs),
            _ => false,
        };
        proof {
            if T::obeys_eq_spec() {
                let left = self.items();
                let right = other.items();
                let left_tail = Node::chain(self.next);
                let right_tail = Node::chain(other.next);
                assert(left.skip(1) =~= left_tail);
                assert(right.skip(1) =~= right_tail);
                assert(left[0] == self.value && right[0] == other.value);
                assert(left.len() == 1 + left_tail.len() && right.len() == 1 + right_tail.len());
                assert(tails == pairwise_equal(left_tail, right_tail)) by {
                    match (self.next, other.next) {
                        (Some(mine), Some(theirs)) => {},
                        (None, None) => {},
                        (Some(mine), None) => {
                            assert(mine.items().len() >= 1);
                        },
                        (None, Some(theirs)) => {
                            assert(theirs.items().len() >= 1);
                        },
                    }
                }
                if heads && tails {
                    assert forall|i: int| 0 <= i < left.len() implies (#[trigger] left[i]).eq_spec(
                        &right[i],
                    ) by {
                        if i > 0 {
                            assert(left[i] == left_tail[i - 1]);
                            assert(right[i] == right_tail[i - 1]);
                        }
                    }
                } else if heads && pairwise_equal(left, right) {
                    assert forall|i: int| 0 <= i < left_tail.len() implies (
                    #[trigger] left_tail[i]).eq_spec(&right_tail[i]) by {
                        assert(left_tail[i] == left[i + 1]);
                        assert(right_tail[i] == right[i + 1]);
                    }
                }
            }
        }
        heads && tails
    }
}

impl<T: PartialEq> PartialEqSpecImpl for Node<T> {
    open spec fn obeys_eq_spec() -> bool {
        T::obeys_eq_spec()
    }

    open spec fn eq_spec(&self, other: &Self) -> bool {
        pairwise_equal(self.items(), other.items())
    }
}

impl<T: PartialEq> PartialEq for LinkedList<T> {
    fn eq(&self, other: &Self) -> (equal: bool) {
        proof {
            use_type_invariant(self);
            use_type_invariant(other);
        }
        self.size == other.size && match (&self.head, &other.head) {
            (None, None) => true,
            (Some(mine), Some(theirs)) => (&**mine).eq(&**theirs),
            _ => false,
        }
    }
}

impl<T: PartialEq> PartialEqSpecImpl for LinkedList<T> {
    open spec fn obeys_eq_spec() -> bool {
        T::obeys_eq_spec()
    }

    open spec fn eq_spec(&self, other: &Self) -> bool {
        pairwise_equal(self@, other@)
    }
}

/// A walk along a list from some item on. It hands out copies of the items.
pub struct LinkedListIterator<'a, T> {
    current: &'a Option<Box<Node<T>>>,
}

impl<'a, T> LinkedListIterator<'a, T> {
    /// The items still to come.
    pub closed spec fn remaining(&self) -> Seq<T> {
        Node::chain(*self.current)
    }

    /// A copy of the next item, if there is one, and a step past it.
    pub fn next(&mut self) -> (item: Option<T>) where T: Clone
        ensures
            old(self).remaining().len() == 0 ==> item is None && final(self).remaining() == old(
                self,
            ).remaining(),
            old(self).remaining().len() > 0 ==> item is Some && cloned(
                old(self).remaining()[0],
                item->0,
            ) && final(self).remaining() == old(self).remaining().skip(1),
    {
        match self.current {
            Some(node) => {
                assert((seq![node.value] + Node::chain(node.next)).skip(1) =~= Node::chain(
                    node.next,
                ));
                self.current = &node.next;
                Some(node.value.clone())
            },
            None => None,
        }
    }
}

impl<T> LinkedList<T> {
    /// A walk along the list from its head.
    pub fn into_iter(&self) -> (walk: LinkedListIterator<'_, T>)
        ensures
            walk.remaining() == self@,
    {
        LinkedListIterator { current: &self.head }
    }
}

/// The text of a list whose items are written out already: every item with
/// one blank in front of it, in order.
pub open spec fn spaced(items: Seq<Seq<char>>) -> Seq<char>
    decreases items.len(),
{
    if items.len() == 0 {
        Seq::empty()
    } else {
        spaced(items.drop_last()) + seq![' '] + items.last()
    }
}

/// Writes a list out as one line, from the texts of its items.
pub fn fmt(items: &Vec<String>) -> (line: String)
    ensures
        line@ == spaced(texts(items@)),
{
    let mut line = String::new();
    let mut n: usize = 0;
    assert(texts(items@).take(0) =~= Seq::<Seq<char>>::empty());
    while n < items.len()
        invariant
            n <= items.len(),
            line@ == spaced(texts(items@).take(n as int)),
        decreases items.len() - n,
    {
        proof {
            reveal_strlit(" ");
            let longer = texts(items@).take(n + 1);
            assert(longer.drop_last() =~= texts(items@).take(n as int));
            assert(longer.last() == items@[n as int]@);
            assert(" "@ =~= seq![' ']);
        }
        line.append(" ");
        line.append(items[n].as_str());
        n += 1;
    }
    assert(texts(items@).take(n as int) =~= texts(items@));
    line
}

} // verus!
