//! A singly linked list that owns its nodes.

use crate::text::{decimal, push_decimal};
use vstd::prelude::*;
use vstd::std_specs::cmp::{PartialEqSpec, PartialEqSpecImpl};

verus! {

/// One cell of the list: a value and the rest of the chain.
pub struct Node<T> {
    value: T,
    next: Option<Box<Node<T>>>,
}

/// A singly linked list with constant-time insertion and removal at the
/// front. Its view is the sequence of its values, front first.
pub struct LinkedList<T> {
    head: Option<Box<Node<T>>>,
    size: usize,
}

impl<T> Node<T> {
    /// The values held by this node and by every node after it.
    pub closed spec fn values(self) -> Seq<T>
        decreases self,
    {
        match self.next {
            None => seq![self.value],
            Some(rest) => seq![self.value] + rest.values(),
        }
    }

    /// The values reachable through a link, none for an empty link.
    pub closed spec fn chain(link: Option<Box<Node<T>>>) -> Seq<T> {
        match link {
            None => Seq::empty(),
            Some(node) => node.values(),
        }
    }

    /// Builds a node in front of the chain `next`.
    pub fn new(value: T, next: Option<Box<Node<T>>>) -> (node: Node<T>)
        ensures
            node.values() == seq![value] + Self::chain(next),
    {
        Node { value, next }
    }
}

/// A node holds its own value, then the values of the chain behind it.
proof fn lemma_values<T>(node: Node<T>)
    ensures
        node.values() == seq![node.value] + Node::chain(node.next),
        node.values().len() > 0,
{
    assert(node.values() =~= seq![node.value] + Node::chain(node.next));
}

impl<T> View for LinkedList<T> {
    type V = Seq<T>;

    closed spec fn view(&self) -> Seq<T> {
        Node::chain(self.head)
    }
}

impl<T> LinkedList<T> {
    /// Whether the list knows its own length. Every list that this module
    /// hands out does, and every operation keeps it so.
    pub closed spec fn well_formed(&self) -> bool {
        self.size == Node::chain(self.head).len()
    }

    /// The empty list.
    pub fn new() -> (list: LinkedList<T>)
        ensures
            list.well_formed(),
            list@ == Seq::<T>::empty(),
    {
        LinkedList { head: None, size: 0 }
    }

    /// The number of values in the list.
    pub fn get_size(&self) -> (size: usize)
        requires
            self.well_formed(),
        ensures
            size == self@.len(),
    {
        self.size
    }

    /// Whether the list holds no value.
    pub fn is_empty(&self) -> (empty: bool)
        requires
            self.well_formed(),
        ensures
            empty == (self@.len() == 0),
    {
        self.get_size() == 0
    }

    /// Puts `value` in front of every value already in the list.
    pub fn push_front(&mut self, value: T)
        requires
            old(self).well_formed(),
            old(self)@.len() < usize::MAX,
        ensures
            final(self).well_formed(),
            final(self)@ == seq![value] + old(self)@,
    {
        let new_node = Node::new(value, self.head.take());
        self.head = Some(Box::new(new_node));
        self.size += 1;
    }

    /// Removes the front value and returns it, or returns `None` and leaves
    /// the list empty when there is none.
    pub fn pop_front(&mut self) -> (front: Option<T>)
        requires
            old(self).well_formed(),
        ensures
            final(self).well_formed(),
            old(self)@.len() == 0 ==> front is None && final(self)@ == old(self)@,
            old(self)@.len() > 0 ==> front == Some(old(self)@[0]) && final(self)@ == old(
                self,
            )@.subrange(1, old(self)@.len() as int),
    {
        match self.head.take() {
            None => None,
            Some(node) => {
                let Node { value, next } = *node;
                assert(old(self)@ =~= seq![value] + Node::chain(next));
                assert(Node::chain(next) =~= old(self)@.subrange(1, old(self)@.len() as int));
                self.head = next;
                self.size -= 1;
                Some(value)
            },
        }
    }
}

impl<T> Default for LinkedList<T> {
    fn default() -> (list: Self)
        ensures
            list.well_formed(),
            list@ == Seq::<T>::empty(),
    {
        Self::new()
    }
}

impl<T> LinkedList<T> {
    /// Removes every value, unlinking the nodes one after the other.
    pub fn clear(&mut self)
        ensures
            final(self).well_formed(),
            final(self)@ == Seq::<T>::empty(),
        opens_invariants none
        no_unwind
    {
        let mut current: Option<Box<Node<T>>> = None;
        core::mem::swap(&mut self.head, &mut current);
        self.size = 0;
        loop
            invariant
                self.head is None,
                self.size == 0,
            decreases Node::chain(current).len(),
        {
            match current {
                None => {
                    break ;
                },
                Some(mut node) => {
                    proof {
                        lemma_values(*node);
                    }
                    let mut next: Option<Box<Node<T>>> = None;
                    core::mem::swap(&mut node.next, &mut next);
                    current = next;
                },
            }
        }
    }
}

impl<T> Drop for LinkedList<T> {
    /// Takes the list apart node by node, so that a long list does not
    /// come down in one deep recursion.
    fn drop(&mut self)
        opens_invariants none
        no_unwind
    {
        self.clear();
    }
}

impl<T: Clone> Clone for Node<T> {
    fn clone(&self) -> (copy: Self)
        ensures
            copy.values().len() == self.values().len(),
            forall|i: int|
                0 <= i < self.values().len() ==> cloned::<T>(
                    #[trigger] self.values()[i],
                    copy.values()[i],
                ),
        decreases self,
    {
        let copy = Node {
            value: self.value.clone(),
            next: (match &self.next {
                Some(node) => Some(Box::new((&**node).clone())),
                None => None,
            }),
        };
        proof {
            assert forall|i: int| 0 <= i < self.values().len() implies cloned::<T>(
                #[trigger] self.values()[i],
                copy.values()[i],
            ) by {
                if i > 0 {
                    let rest = self.next->Some_0.values();
                    assert(self.values()[i] == rest[i - 1]);
                    assert(copy.values()[i] == copy.next->Some_0.values()[i - 1]);
                }
            }
        }
        copy
    }
}

impl<T: Clone> Clone for LinkedList<T> {
    /// A list of the same length whose values are clones of the values of
    /// this one, in the same order.
    fn clone(&self) -> (copy: Self)
        ensures
            self.well_formed() ==> copy.well_formed(),
            copy@.len() == self@.len(),
            forall|i: int| 0 <= i < self@.len() ==> cloned::<T>(#[trigger] self@[i], copy@[i]),
    {
        let head = match &self.head {
            Some(node) => Some(Box::new((&**node).clone())),
            None => None,
        };
        LinkedList { head, size: self.size }
    }
}

impl<T: PartialEq> PartialEq for LinkedList<T> {
    fn eq(&self, other: &Self) -> (same: bool) {
        let mut left = &self.head;
        let mut right = &other.head;
        let ghost mut done: int = 0;
        proof {
            assert(self@.skip(0) =~= self@);
            assert(other@.skip(0) =~= other@);
        }
        loop
            invariant
                0 <= done <= self@.len(),
                done <= other@.len(),
                Node::chain(*left) == self@.skip(done),
                Node::chain(*right) == other@.skip(done),
                T::obeys_eq_spec() ==> forall|i: int|
                    0 <= i < done ==> (#[trigger] self@[i]).eq_spec(&other@[i]),
            decreases self@.len() - done,
        {
            let a = match left {
                Some(node) => node,
                None => {
                    return right.is_none();
                },
            };
            let b = match right {
                Some(node) => node,
                None => {
                    proof {
                        lemma_values(**a);
                    }
                    return false;
                },
            };
            proof {
                lemma_values(**a);
                lemma_values(**b);
            }
            assert(self@.skip(done)[0] == a.value);
            assert(other@.skip(done)[0] == b.value);
            if a.value != b.value {
                return false;
            }
            proof {
                assert(Node::chain(*left) == a.values());
                assert(Node::chain(*right) == b.values());
                assert(Node::chain(a.next) =~= a.values().skip(1));
                assert(Node::chain(b.next) =~= b.values().skip(1));
                assert(self@.skip(done).skip(1) =~= self@.skip(done + 1));
                assert(other@.skip(done).skip(1) =~= other@.skip(done + 1));
            }
            left = &a.next;
            right = &b.next;
            proof {
                done = done + 1;
            }
        }
    }
}

impl<T: PartialEq> PartialEqSpecImpl for LinkedList<T> {
    open spec fn obeys_eq_spec() -> bool {
        T::obeys_eq_spec()
    }

    /// Two lists are equal when they have the same length and equal values
    /// at every position.
    open spec fn eq_spec(&self, other: &LinkedList<T>) -> bool {
        &&& self@.len() == other@.len()
        &&& forall|i: int| 0 <= i < self@.len() ==> (#[trigger] self@[i]).eq_spec(&other@[i])
    }
}

/// The values of `values` as text: each numeral with a space before it.
pub open spec fn spaced(values: Seq<u32>) -> Seq<char>
    decreases values.len(),
{
    if values.len() == 0 {
        Seq::empty()
    } else {
        spaced(values.drop_last()) + seq![' '] + decimal(values.last() as nat)
    }
}

impl LinkedList<u32> {
    /// The list as text: the decimal numeral of each value, front first,
    /// each with a space before it.
    pub fn to_string(&self) -> (text: String)
        ensures
            text@ == spaced(self@),
    {
        let mut text = String::new();
        let mut current = &self.head;
        let ghost mut done: int = 0;
        assert(self@.take(0) =~= Seq::<u32>::empty());
        assert(self@.skip(0) =~= self@);
        loop
            invariant
                0 <= done <= self@.len(),
                Node::chain(*current) == self@.skip(done),
                text@ == spaced(self@.take(done)),
            ensures
                text@ == spaced(self@),
            decreases self@.len() - done,
        {
            let node = match current {
                Some(node) => node,
                None => {
                    assert(self@.take(done) =~= self@);
                    break ;
                },
            };
            proof {
                reveal_strlit(" ");
                lemma_values(**node);
                assert(self@.skip(done)[0] == node.value);
                assert(self@.take(done + 1).drop_last() =~= self@.take(done));
                assert(Node::chain(*current) == node.values());
                assert(Node::chain(node.next) =~= node.values().skip(1));
                assert(self@.skip(done).skip(1) =~= self@.skip(done + 1));
            }
            text.append(" ");
            push_decimal(&mut text, node.value);
            assert(text@ =~= spaced(self@.take(done + 1)));
            current = &node.next;
            proof {
                done = done + 1;
            }
        }
        text
    }
}

} // verus!
