//! A singly linked list that grows at its tail.

use vstd::prelude::*;

verus! {

/// A list node: its value and the rest of the list.
#[derive(Debug)]
pub struct Node<T> {
    pub pointer: T,
    pub next: Option<Box<Node<T>>>,
}

impl<T> Node<T> {
    /// The values from this node to the end of the list.
    pub open spec fn values(&self) -> Seq<T>
        decreases self,
    {
        match self.next {
            None => seq![self.pointer],
            Some(n) => seq![self.pointer] + n.values(),
        }
    }

    /// A one-element list.
    pub fn new(data: T) -> (r: Node<T>)
        ensures
            r.values() == seq![data],
    {
        Node { pointer: data, next: None }
    }

    /// Appends `data` at the end of the list.
    pub fn push(&mut self, data: T)
        ensures
            final(self).values() == old(self).values().push(data),
        decreases old(self).values().len(),
    {
        let ghost old_vals = self.values();
        let ghost p = self.pointer;
        match self.next.take() {
            None => {
                assert(old_vals == seq![p]);
                let tail = Node { pointer: data, next: None };
                assert(tail.values() == seq![tail.pointer]);
                self.next = Some(Box::new(tail));
                assert(self.values() =~= old_vals.push(data));
            },
            Some(mut node) => {
                let ghost nv = node.values();
                assert(old_vals == seq![p] + nv);
                proof {
                    lemma_values_len(&*node);
                }
                node.push(data);
                self.next = Some(node);
                assert(self.values() =~= old_vals.push(data));
            },
        }
    }

    /// References to the values, first to last (what `print` shows, one per
    /// line).
    pub fn items(&self) -> (r: Vec<&T>)
        ensures
            r@.unref() == self.values(),
        decreases self.values().len(),
    {
        let mut r: Vec<&T> = Vec::new();
        r.push(&self.pointer);
        assert(r@.unref() =~= seq![self.pointer]);
        match &self.next {
            None => {},
            Some(n) => {
                proof {
                    lemma_values_len(&**n);
                }
                let rest = n.items();
                let mut i: usize = 0;
                while i < rest.len()
                    invariant
                        i <= rest@.len(),
                        r@.unref() == seq![self.pointer] + rest@.unref().take(i as int),
                    decreases rest@.len() - i,
                {
                    let ghost before = r@.unref();
                    r.push(rest[i]);
                    assert(r@.unref() =~= before.push(*rest@[i as int]));
                    assert(rest@.unref().take(i + 1) =~= rest@.unref().take(i as int).push(*rest@[i as int]));
                    i += 1;
                }
                assert(rest@.unref().take(rest@.len() as int) =~= rest@.unref());
            },
        }
        r
    }
}

/// A list holds at least one value.
pub proof fn lemma_values_len<T>(n: &Node<T>)
    ensures
        n.values().len() >= 1,
    decreases n,
{
    match n.next {
        None => {},
        Some(m) => {
            lemma_values_len(&*m);
        },
    }
}

} // verus!
