//! A singly linked stack of owned nodes with a cached length.

use crate::text::texts;
use vstd::prelude::*;
use vstd::std_specs::cmp::{PartialEqSpec, PartialEqSpecImpl};
use vstd::string::*;

verus! {

/// One cell of the chain: a value and the rest of the chain.
pub struct Node<T> {
    pub value: T,
    pub next: Option<Box<Node<T>>>,
}

/// The values held by a chain, front first.
pub open spec fn chain_view<T>(link: Option<Box<Node<T>>>) -> Seq<T>
    decreases link,
{
    match link {
        None => Seq::empty(),
        Some(node) => seq![node.value] + chain_view(node.next),
    }
}

impl<T> Node<T> {
    /// A cell with this value in front of the rest of a chain.
    pub fn new(value: T, next: Option<Box<Node<T>>>) -> (node: Node<T>)
        ensures
            node.value == value,
            node.next == next,
    {
        Node { value: value, next: next }
    }
}

/// A chain together with its length.
struct Chain<T> {
    head: Option<Box<Node<T>>>,
    size: usize,
}

impl<T> Chain<T> {
    #[verifier::type_invariant]
    spec fn size_matches(self) -> bool {
        self.size == chain_view(self.head).len()
    }

    fn empty() -> (chain: Chain<T>)
        ensures
            chain.head is None,
            chain.size == 0,
        opens_invariants none
        no_unwind
    {
        Chain { head: None, size: 0 }
    }
}

/// A list that pushes and pops at the front.
pub struct LinkedList<T> {
    chain: Chain<T>,
}

impl<T> View for LinkedList<T> {
    type V = Seq<T>;

    closed spec fn view(&self) -> Seq<T> {
        chain_view(self.chain.head)
    }
}

impl<T> LinkedList<T> {
    /// An empty list.
    pub fn new() -> (list: LinkedList<T>)
        ensures
            list@ == Seq::<T>::empty(),
    {
        LinkedList { chain: Chain::empty() }
    }

    /// How many values the list holds.
    pub fn get_size(&self) -> (size: usize)
        ensures
            size == self@.len(),
    {
        proof {
            use_type_invariant(&self.chain);
        }
        self.chain.size
    }

    /// Whether the list holds nothing.
    pub fn is_empty(&self) -> (empty: bool)
        ensures
            empty == (self@.len() == 0),
    {
        self.get_size() == 0
    }

    /// Puts a value in front of the others.
    pub fn push_front(&mut self, value: T)
        requires
            old(self)@.len() < usize::MAX,
        ensures
            final(self)@ == seq![value] + old(self)@,
    {
        proof {
            use_type_invariant(&self.chain);
        }
        let mut taken = Chain::empty();
        core::mem::swap(&mut self.chain, &mut taken);
        let Chain { head, size } = taken;
        let new_node: Box<Node<T>> = Box::new(Node::new(value, head));
        self.chain = Chain { head: Some(new_node), size: size + 1 };
    }

    /// Takes the front value off the list, if there is one.
    pub fn pop_front(&mut self) -> (popped: Option<T>)
        ensures
            old(self)@.len() == 0 ==> popped is None && final(self)@ == old(self)@,
            old(self)@.len() > 0 ==> popped == Some(old(self)@[0]) && final(self)@ == old(
                self,
            )@.drop_first(),
    {
        proof {
            use_type_invariant(&self.chain);
        }
        let mut taken = Chain::empty();
        core::mem::swap(&mut self.chain, &mut taken);
        let Chain { head, size } = taken;
        match head {
            None => None,
            Some(node) => {
                let Node { value, next } = *node;
                assert(chain_view(Some(node)) =~= seq![value] + chain_view(next));
                assert((seq![value] + chain_view(next)).drop_first() =~= chain_view(next));
                self.chain = Chain { head: next, size: size - 1 };
                Some(value)
            },
        }
    }

    /// Takes the list apart, node by node.
    pub fn clear(&mut self)
        ensures
            final(self)@ == Seq::<T>::empty(),
        opens_invariants none
        no_unwind
    {
        let mut taken = Chain::empty();
        core::mem::swap(&mut self.chain, &mut taken);
        let Chain { head, size } = taken;
        let mut current = head;
        loop
            invariant
                true,
            decreases chain_view(current).len(),
        {
            match current {
                None => {
                    break ;
                },
                Some(node) => {
                    let Node { value, next } = *node;
                    assert(chain_view(Some(node)) =~= seq![value] + chain_view(next));
                    current = next;
                },
            }
        }
    }

    /// An iterator over clones of the values, front first.
    pub fn iter(&self) -> (iter: LinkedListIter<'_, T>)
        ensures
            iter@ == self@,
    {
        LinkedListIter { current: &self.chain.head }
    }
}

impl<T> Drop for LinkedList<T> {
    /// Takes the list apart node by node, so that a long list is not
    /// dropped by a chain of calls as long as itself.
    fn drop(&mut self)
        opens_invariants none
        no_unwind
    {
        self.clear();
    }
}

/// A position in a list.
pub struct LinkedListIter<'a, T> {
    current: &'a Option<Box<Node<T>>>,
}

impl<'a, T> View for LinkedListIter<'a, T> {
    type V = Seq<T>;

    /// The values that are still to come.
    closed spec fn view(&self) -> Seq<T> {
        chain_view(*self.current)
    }
}

impl<'a, T: Clone> LinkedListIter<'a, T> {
    /// A clone of the value at the position, which then moves on; nothing at
    /// the end.
    pub fn next(&mut self) -> (item: Option<T>)
        ensures
            match item {
                Some(value) => {
                    &&& old(self)@.len() > 0
                    &&& cloned(old(self)@[0], value)
                    &&& final(self)@ == old(self)@.drop_first()
                },
                None => old(self)@.len() == 0 && final(self)@ == old(self)@,
            },
    {
        match self.current {
            Some(node) => {
                assert(chain_view(*self.current) =~= seq![node.value] + chain_view(node.next));
                assert((seq![node.value] + chain_view(node.next)).drop_first() =~= chain_view(
                    node.next,
                ));
                self.current = &node.next;
                Some(node.value.clone())
            },
            None => None,
        }
    }
}

proof fn lemma_walk_step<T>(whole: Seq<T>, seen: int, value: T, rest: Seq<T>)
    requires
        0 <= seen <= whole.len(),
        whole.skip(seen) == seq![value] + rest,
    ensures
        seen < whole.len(),
        whole[seen] == value,
        rest == whole.skip(seen + 1),
{
    let tail = whole.skip(seen);
    assert(tail.len() == 1 + rest.len());
    assert(tail[0] == value);
    assert(rest =~= whole.skip(seen + 1)) by {
        assert forall|i: int| 0 <= i < rest.len() implies rest[i] == whole.skip(seen + 1)[i] by {
            assert(tail[i + 1] == rest[i]);
        }
    }
}

/// Each piece of text behind a space, one after the other.
pub open spec fn spaced(parts: Seq<Seq<char>>) -> Seq<char>
    decreases parts.len(),
{
    if parts.len() == 0 {
        Seq::empty()
    } else {
        spaced(parts.drop_last()) + " "@ + parts.last()
    }
}

/// Whether `parts` are the values of `values` as they display, one for one.
pub open spec fn displays<T: core::fmt::Display>(values: Seq<T>, parts: Seq<String>) -> bool {
    &&& parts.len() == values.len()
    &&& forall|i: int|
        0 <= i < values.len() ==> to_string_from_display_ensures(&values[i], #[trigger] parts[i])
}

impl<T: core::fmt::Display> LinkedList<T> {
    /// The values as they display, front first, each behind a space.
    pub fn to_string(&self) -> (text: String)
        ensures
            exists|parts: Seq<String>| displays(self@, parts) && text@ == spaced(texts(parts)),
    {
        let mut text = String::new();
        let mut current = &self.chain.head;
        let ghost mut parts: Seq<String> = Seq::empty();
        let ghost mut seen: int = 0;
        proof {
            assert(texts(parts) =~= Seq::<Seq<char>>::empty());
            assert(self@.skip(0) =~= self@);
        }
        loop
            invariant
                0 <= seen <= self@.len(),
                parts.len() == seen,
                chain_view(*current) == self@.skip(seen),
                forall|i: int|
                    0 <= i < seen ==> to_string_from_display_ensures(&self@[i], #[trigger] parts[i]),
                text@ == spaced(texts(parts)),
            ensures
                displays(self@, parts),
                text@ == spaced(texts(parts)),
            decreases self@.len() - seen,
        {
            match current {
                None => {
                    assert(self@.skip(seen).len() == 0);
                    break ;
                },
                Some(node) => {
                    assert(chain_view(*current) =~= seq![node.value] + chain_view(node.next));
                    assert(self@.skip(seen)[0] == node.value);
                    let part = node.value.to_string();
                    text = text.concat(" ").concat(part.as_str());
                    proof {
                        let longer = parts.push(part);
                        assert(texts(longer).drop_last() =~= texts(parts));
                        assert(texts(longer).last() == part@);
                        lemma_walk_step(self@, seen, node.value, chain_view(node.next));
                        parts = longer;
                        seen = seen + 1;
                    }
                    current = &node.next;
                },
            }
        }
        text
    }
}

impl<T: Clone> Clone for LinkedList<T> {
    /// A list of clones of the values, in the same order.
    fn clone(&self) -> (copy: Self)
        ensures
            copy@.len() == self@.len(),
            forall|i: int| 0 <= i < self@.len() ==> cloned(self@[i], #[trigger] copy@[i]),
    {
        let total = self.get_size();
        let mut items: Vec<T> = Vec::new();
        let mut iter = self.iter();
        proof {
            assert(self@.skip(0) =~= self@);
        }
        loop
            invariant
                items@.len() <= self@.len(),
                iter@ == self@.skip(items@.len() as int),
                forall|i: int| 0 <= i < items@.len() ==> cloned(self@[i], #[trigger] items@[i]),
            ensures
                items@.len() == self@.len(),
                forall|i: int| 0 <= i < items@.len() ==> cloned(self@[i], #[trigger] items@[i]),
            decreases self@.len() - items@.len(),
        {
            let ghost before = iter@;
            match iter.next() {
                Some(value) => {
                    assert(before[0] == self@[items@.len() as int]);
                    items.push(value);
                    assert(iter@ =~= self@.skip(items@.len() as int));
                },
                None => {
                    break ;
                },
            }
        }
        let ghost all = items@;
        let mut copy: LinkedList<T> = LinkedList::new();
        while items.len() > 0
            invariant
                all.len() == total,
                items@.len() <= all.len(),
                items@ == all.subrange(0, items@.len() as int),
                copy@ == all.subrange(items@.len() as int, all.len() as int),
            decreases items@.len(),
        {
            match items.pop() {
                Some(value) => {
                    copy.push_front(value);
                    assert(items@ =~= all.subrange(0, items@.len() as int));
                    assert(copy@ =~= all.subrange(items@.len() as int, all.len() as int));
                },
                None => {},
            }
        }
        assert(copy@ =~= all);
        copy
    }
}

impl<T: PartialEq> PartialEq for LinkedList<T> {
    /// Compares two lists value by value.
    fn eq(&self, other: &Self) -> (equal: bool) {
        let mut left = &self.chain.head;
        let mut right = &other.chain.head;
        let ghost mut seen: int = 0;
        proof {
            assert(self@.skip(0) =~= self@);
            assert(other@.skip(0) =~= other@);
        }
        loop
            invariant
                0 <= seen <= self@.len(),
                seen <= other@.len(),
                chain_view(*left) == self@.skip(seen),
                chain_view(*right) == other@.skip(seen),
                T::obeys_eq_spec() ==> forall|i: int|
                    0 <= i < seen ==> (#[trigger] self@[i]).eq_spec(&other@[i]),
            decreases self@.len() - seen,
        {
            match (left, right) {
                (None, None) => {
                    assert(self@.skip(seen).len() == 0);
                    assert(other@.skip(seen).len() == 0);
                    return true;
                },
                (Some(a), Some(b)) => {
                    assert(chain_view(*left) =~= seq![a.value] + chain_view(a.next));
                    assert(chain_view(*right) =~= seq![b.value] + chain_view(b.next));
                    assert(self@.skip(seen)[0] == a.value);
                    assert(other@.skip(seen)[0] == b.value);
                    if !(a.value == b.value) {
                        assert(T::obeys_eq_spec() ==> !self@[seen].eq_spec(&other@[seen]));
                        return false;
                    }
                    proof {
                        lemma_walk_step(self@, seen, a.value, chain_view(a.next));
                        lemma_walk_step(other@, seen, b.value, chain_view(b.next));
                        seen = seen + 1;
                    }
                    left = &a.next;
                    right = &b.next;
                },
                (Some(a), None) => {
                    assert(chain_view(*left) =~= seq![a.value] + chain_view(a.next));
                    assert(self@.skip(seen).len() > 0);
                    assert(other@.skip(seen).len() == 0);
                    return false;
                },
                (None, Some(b)) => {
                    assert(chain_view(*right) =~= seq![b.value] + chain_view(b.next));
                    assert(other@.skip(seen).len() > 0);
                    assert(self@.skip(seen).len() == 0);
                    return false;
                },
            }
        }
    }
}

impl<T: PartialEq> PartialEqSpecImpl for LinkedList<T> {
    open spec fn obeys_eq_spec() -> bool {
        T::obeys_eq_spec()
    }

    /// Two lists are equal when they are equally long and equal value by value.
    open spec fn eq_spec(&self, other: &Self) -> bool {
        &&& self@.len() == other@.len()
        &&& forall|i: int| 0 <= i < self@.len() ==> (#[trigger] self@[i]).eq_spec(&other@[i])
    }
}

} // verus!
