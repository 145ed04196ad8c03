//! An append-only singly linked sequence.
//!
//! Every operation that changes the list takes `&mut self`: exclusive access is
//! what makes an append safe, and a caller that shares a list across execution
//! contexts puts it behind a lock of its own.
use vstd::prelude::*;

verus! {

/// One link of the chain: a value and the rest of the list after it.
pub struct Node<T> {
    value: T,
    next: List<T>,
}

/// An ordered, append-only sequence of values. There is no removal.
pub struct List<T> {
    head: Option<Box<Node<T>>>,
}

impl<T> List<T> {
    /// The values of the list, head first.
    pub closed spec fn seq(&self) -> Seq<T>
        decreases self,
    {
        match self.head {
            None => Seq::empty(),
            Some(node) => seq![node.value].add(node.next.seq()),
        }
    }
}

impl<T> View for List<T> {
    type V = Seq<T>;

    open spec fn view(&self) -> Seq<T> {
        self.seq()
    }
}

impl<T> List<T> {
    /// An empty list.
    pub fn new() -> (r: Self)
        ensures
            r@ == Seq::<T>::empty(),
    {
        List { head: None }
    }

    /// Whether the list holds no value.
    pub fn is_empty(&self) -> (r: bool)
        ensures
            r == (self@.len() == 0),
    {
        match &self.head {
            None => true,
            Some(node) => {
                assert(self@[0] == node.value);
                false
            },
        }
    }

    /// Adds `value` after the last value of the list.
    pub fn append(&mut self, value: T)
        ensures
            final(self)@ == old(self)@.push(value),
    {
        let tail = List { head: Some(Box::new(Node { value, next: List::new() })) };
        assert(tail@ =~= seq![value]);
        self.append_chain(tail);
    }

    /// Splices all of `other` after the last value of the list. `other` is
    /// consumed.
    pub fn append_list(&mut self, other: List<T>)
        ensures
            final(self)@ == old(self)@ + other@,
    {
        self.append_chain(other);
    }

    /// Walks to the empty tail slot and puts the chain `other` there.
    fn append_chain(&mut self, other: List<T>)
        ensures
            final(self)@ == old(self)@ + other@,
        decreases old(self)@.len(),
    {
        let head = self.head.take();
        match head {
            None => {
                self.head = other.head;
                assert(old(self)@ + other@ =~= other@);
            },
            Some(node) => {
                let mut node = node;
                assert(old(self)@ == seq![node.value].add(node.next@));
                node.next.append_chain(other);
                self.head = Some(node);
                assert(final(self)@ =~= old(self)@ + other@) by {
                    assert(self@ == seq![node.value].add(node.next@));
                }
            },
        }
    }

    /// A cursor over the values of the list, in append order.
    pub fn iter(&self) -> (r: ListIterator<'_, T>)
        ensures
            r@ == self@,
    {
        ListIterator { rest: self }
    }
}

impl<T> Default for List<T> {
    fn default() -> (r: Self)
        ensures
            r@ == Seq::<T>::empty(),
    {
        List::new()
    }
}

/// A cursor over a list: it hands out the values in order, one per call.
pub struct ListIterator<'a, T> {
    rest: &'a List<T>,
}

impl<'a, T> View for ListIterator<'a, T> {
    type V = Seq<T>;

    /// The values not handed out yet.
    closed spec fn view(&self) -> Seq<T> {
        self.rest@
    }
}

impl<'a, T> ListIterator<'a, T> {
    /// The next value, or `None` once all have been handed out.
    pub fn next(&mut self) -> (r: Option<&'a T>)
        ensures
            old(self)@.len() == 0 ==> r is None && final(self)@ == old(self)@,
            old(self)@.len() > 0 ==> r == Some(&old(self)@[0]) && final(self)@
                == old(self)@.drop_first(),
    {
        match &self.rest.head {
            None => None,
            Some(node) => {
                assert(self@ == seq![node.value].add(node.next@));
                self.rest = &node.next;
                assert(old(self)@.drop_first() =~= self@);
                Some(&node.value)
            },
        }
    }
}

} // verus!
