use vstd::prelude::*;
use vstd::std_specs::cmp::PartialEqSpec;
use vstd::string::{to_string_from_display_ensures, StringExecFns};

verus! {

/// One cell of a singly linked list: a value and the rest of the list.
pub struct Node<T> {
    value: T,
    next: Option<Box<Node<T>>>,
}

/// The values reachable from `link`, front first.
pub closed spec fn link_values<T>(link: Option<Box<Node<T>>>) -> Seq<T>
    decreases link,
{
    match link {
        None => Seq::empty(),
        Some(node) => seq![node.value].add(link_values(node.next)),
    }
}

impl<T> View for Node<T> {
    type V = Seq<T>;

    closed spec fn view(&self) -> Seq<T> {
        seq![self.value].add(link_values(self.next))
    }
}

impl<T> Node<T> {
    /// A cell holding `value` in front of the cells of `next`.
    pub fn new(value: T, next: Option<Box<Node<T>>>) -> (r: Node<T>)
        ensures
            r@ == seq![value].add(link_values(next)),
    {
        Node { value: value, next: next }
    }
}

/// A singly linked list that counts its cells.
pub struct LinkedList<T> {
    head: Option<Box<Node<T>>>,
    size: usize,
}

impl<T> View for LinkedList<T> {
    type V = Seq<T>;

    closed spec fn view(&self) -> Seq<T> {
        link_values(self.head)
    }
}

impl<T> LinkedList<T> {
    /// The stored count is the number of cells.
    #[verifier::type_invariant]
    spec fn size_matches(self) -> bool {
        self.size == link_values(self.head).len()
    }

    /// An empty list.
    pub fn new() -> (r: LinkedList<T>)
        ensures
            r@ == Seq::<T>::empty(),
    {
        LinkedList { head: None, size: 0 }
    }

    /// The number of values in the list.
    pub fn get_size(&self) -> (r: usize)
        ensures
            r == self@.len(),
    {
        proof {
            use_type_invariant(self);
        }
        self.size
    }

    /// Whether the list holds no value.
    pub fn is_empty(&self) -> (r: bool)
        ensures
            r <==> self@.len() == 0,
    {
        self.get_size() == 0
    }

    /// Puts `value` in front of the list.
    pub fn push_front(&mut self, value: T)
        requires
            old(self)@.len() < usize::MAX,
        ensures
            final(self)@ == seq![value].add(old(self)@),
    {
        proof {
            use_type_invariant(&*self);
        }
        let mut old_list = LinkedList::new();
        std::mem::swap(self, &mut old_list);
        let LinkedList { head, size } = old_list;
        let new_node: Box<Node<T>> = Box::new(Node::new(value, head));
        *self = LinkedList { head: Some(new_node), size: size + 1 };
    }

    /// Takes the front value off the list, or gives `None` when it is empty.
    pub fn pop_front(&mut self) -> (r: Option<T>)
        ensures
            old(self)@.len() == 0 ==> r.is_none() && final(self)@ == old(self)@,
            old(self)@.len() > 0 ==> r == Some(old(self)@[0]) && final(self)@ == old(self)@.drop_first(),
    {
        proof {
            use_type_invariant(&*self);
        }
        let mut old_list = LinkedList::new();
        std::mem::swap(self, &mut old_list);
        let LinkedList { head, size } = old_list;
        match head {
            None => None,
            Some(node) => {
                let node = *node;
                *self = LinkedList { head: node.next, size: size - 1 };
                Some(node.value)
            },
        }
    }
}

impl<T> LinkedList<T> {
    /// Hands the values over front first, consuming the list.
    pub fn into_iter(self) -> (r: LinkedListIterator<T>)
        ensures
            r@ == self@,
    {
        let LinkedList { head, size: _ } = self;
        LinkedListIterator { current: head }
    }

    /// Walks the values front first without taking them.
    pub fn iter(&self) -> (r: LinkedListIter<'_, T>)
        ensures
            r@ == self@,
    {
        LinkedListIter { current: &self.head }
    }
}

impl<T: Clone> Clone for LinkedList<T> {
    /// A list of clones of the values, in the same order.
    fn clone(&self) -> (r: Self)
        ensures
            r@.len() == self@.len(),
            forall|i: int| 0 <= i < self@.len() ==> cloned(self@[i], #[trigger] r@[i]),
    {
        let mut values: Vec<T> = Vec::new();
        let mut walk = self.iter();
        let n: usize = self.get_size();
        for i in 0..n
            invariant
                n == self@.len(),
                values@.len() == i,
                walk@ == self@.subrange(i as int, n as int),
                forall|j: int| 0 <= j < i ==> cloned(self@[j], #[trigger] values@[j]),
        {
            let value = walk.next().unwrap();
            values.push(value.clone());
        }
        let mut copied = LinkedList::new();
        let ghost all = values@;
        let mut k: usize = values.len();
        while k > 0
            invariant
                k <= n,
                n == all.len(),
                values@ == all.subrange(0, k as int),
                copied@ == all.subrange(k as int, n as int),
            decreases k,
        {
            k = k - 1;
            let value = values.pop().unwrap();
            copied.push_front(value);
            assert(copied@ =~= all.subrange(k as int, n as int));
        }
        assert(copied@ =~= all);
        copied
    }
}

impl<T: PartialEq> PartialEq for LinkedList<T> {
    /// Equal when both lists hold equal values at every position.
    fn eq(&self, other: &Self) -> (r: bool) {
        if self.get_size() != other.get_size() {
            return false;
        }
        let n: usize = self.get_size();
        let mut walk_a = self.iter();
        let mut walk_b = other.iter();
        for i in 0..n
            invariant
                n == self@.len(),
                n == other@.len(),
                walk_a@ == self@.subrange(i as int, n as int),
                walk_b@ == other@.subrange(i as int, n as int),
                <T as PartialEqSpec>::obeys_eq_spec() ==> forall|j: int| 0 <= j < i ==> self@[j].eq_spec(&other@[j]),
        {
            let value_a = walk_a.next().unwrap();
            let value_b = walk_b.next().unwrap();
            if !(value_a == value_b) {
                return false;
            }
        }
        true
    }
}

impl<T: PartialEq> vstd::std_specs::cmp::PartialEqSpecImpl for LinkedList<T> {
    open spec fn obeys_eq_spec() -> bool {
        <T as PartialEqSpec>::obeys_eq_spec()
    }

    open spec fn eq_spec(&self, other: &Self) -> bool {
        &&& self@.len() == other@.len()
        &&& forall|i: int| 0 <= i < self@.len() ==> self@[i].eq_spec(&other@[i])
    }
}

/// The texts of `parts`, each preceded by one space.
pub open spec fn spaced(parts: Seq<Seq<char>>) -> Seq<char>
    decreases parts.len(),
{
    if parts.len() == 0 {
        Seq::empty()
    } else {
        spaced(parts.drop_last()) + seq![' '] + parts.last()
    }
}

impl<T: std::fmt::Display> LinkedList<T> {
    /// The values front first, each written out after a space.
    pub fn to_string(&self) -> (r: String)
        ensures
            exists|parts: Seq<String>|
                {
                    &&& parts.len() == self@.len()
                    &&& forall|i: int|
                        0 <= i < parts.len() ==> to_string_from_display_ensures::<T>(
                            &self@[i],
                            #[trigger] parts[i],
                        )
                    &&& r@ == spaced(parts.map_values(|p: String| p@))
                },
    {
        let n: usize = self.get_size();
        let mut text = String::new();
        let ghost mut parts: Seq<String> = Seq::empty();
        let mut walk = self.iter();
        for i in 0..n
            invariant
                n == self@.len(),
                walk@ == self@.subrange(i as int, n as int),
                parts.len() == i,
                forall|j: int|
                    0 <= j < i ==> to_string_from_display_ensures::<T>(&self@[j], #[trigger] parts[j]),
                text@ == spaced(parts.map_values(|p: String| p@)),
        {
            let value = walk.next().unwrap();
            let part = value.to_string();
            proof {
                let old_parts = parts;
                parts = parts.push(part);
                assert(parts.map_values(|p: String| p@).drop_last() =~= old_parts.map_values(
                    |p: String| p@,
                ));
            }
            proof {
                reveal_strlit(" ");
            }
            text.append(" ");
            text.append(part.as_str());
            assert(text@ =~= spaced(parts.map_values(|p: String| p@)));
        }
        text
    }
}

/// The values of a list, handed over one at a time, front first.
pub struct LinkedListIterator<T> {
    current: Option<Box<Node<T>>>,
}

impl<T> View for LinkedListIterator<T> {
    type V = Seq<T>;

    closed spec fn view(&self) -> Seq<T> {
        link_values(self.current)
    }
}

impl<T> LinkedListIterator<T> {
    /// The next value, or `None` once all have been handed over.
    pub fn next(&mut self) -> (r: Option<T>)
        ensures
            old(self)@.len() == 0 ==> r.is_none() && final(self)@ == old(self)@,
            old(self)@.len() > 0 ==> r == Some(old(self)@[0]) && final(self)@ == old(self)@.drop_first(),
    {
        match self.current.take() {
            None => None,
            Some(node) => {
                let node = *node;
                self.current = node.next;
                Some(node.value)
            },
        }
    }
}

/// A walk over the values of a list by reference, front first.
pub struct LinkedListIter<'a, T> {
    current: &'a Option<Box<Node<T>>>,
}

impl<'a, T> View for LinkedListIter<'a, T> {
    type V = Seq<T>;

    closed spec fn view(&self) -> Seq<T> {
        link_values(*self.current)
    }
}

impl<'a, T> LinkedListIter<'a, T> {
    /// A reference to the next value, or `None` at the end of the list.
    pub fn next(&mut self) -> (r: Option<&'a T>)
        ensures
            old(self)@.len() == 0 ==> r.is_none() && final(self)@ == old(self)@,
            old(self)@.len() > 0 ==> r == Some(&old(self)@[0]) && final(self)@ == old(self)@.drop_first(),
    {
        match self.current {
            None => None,
            Some(node) => {
                self.current = &node.next;
                Some(&node.value)
            },
        }
    }
}

} // verus!
