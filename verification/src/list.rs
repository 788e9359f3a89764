//! A doubly-linked list of strings.
//!
//! Nodes live in an arena (a `Vec`), and the `next`/`prev` links between them
//! are arena indices.  The list keeps the index of its head and tail node and
//! a running element count.  A ghost sequence records the arena index of every
//! node in front-to-back order; the well-formedness invariant `wf` ties the
//! links, the head, the tail and the count to that sequence.
//!
//! The abstract value of a list is the sequence of its strings from head to
//! tail, `Seq<Seq<char>>`, and every operation's contract is stated over it.

use vstd::prelude::*;

verus! {

/// One element of the list: a value and the arena indices of its neighbours.
/// `next` points one step toward the tail, `prev` one step toward the head;
/// `None` marks the end of the chain in that direction.
struct Node {
    value: String,
    next: Option<usize>,
    prev: Option<usize>,
}

impl Node {
    fn new(value: String, next: Option<usize>, prev: Option<usize>) -> (r: Node)
        ensures
            r.value == value,
            r.next == next,
            r.prev == prev,
    {
        Node { value, next, prev }
    }
}

/// An ordered, mutable sequence of strings with constant-time access to both
/// ends and linear-time indexed access.
///
/// Deleted nodes merely leave the chain: their arena slot stays behind,
/// unreachable from the list.
pub struct List {
    nodes: Vec<Node>,
    head: Option<usize>,
    tail: Option<usize>,
    size: usize,
    chain: Ghost<Seq<usize>>,
}

impl View for List {
    type V = Seq<Seq<char>>;

    closed spec fn view(&self) -> Seq<Seq<char>> {
        Seq::new(self.chain@.len(), |i: int| self.node_at(i).value@)
    }
}

impl List {
    /// The node standing at position `i` of the chain.
    closed spec fn node_at(&self, i: int) -> Node {
        self.nodes@[self.chain@[i] as int]
    }

    /// Structural well-formedness: `chain` lists distinct arena indices, the
    /// stored links are exactly the neighbour relation of `chain`, `head` and
    /// `tail` are its ends, and `size` is its length.
    pub closed spec fn wf(&self) -> bool {
        let c = self.chain@;
        &&& self.size == c.len()
        &&& c.len() <= self.nodes@.len()
        &&& forall|i: int| 0 <= i < c.len() ==> #[trigger] c[i] < self.nodes@.len()
        &&& forall|i: int, j: int| 0 <= i < j < c.len() ==> #[trigger] c[i] != #[trigger] c[j]
        &&& forall|i: int| 0 <= i < c.len() ==> (#[trigger] self.node_at(i)).prev == (if i == 0 {
                None::<usize>
            } else {
                Some(c[i - 1])
            })
        &&& forall|i: int| 0 <= i < c.len() ==> (#[trigger] self.node_at(i)).next == (if i == c.len()
            - 1 {
                None::<usize>
            } else {
                Some(c[i + 1])
            })
        &&& self.head == (if c.len() == 0 {
                None::<usize>
            } else {
                Some(c[0])
            })
        &&& self.tail == (if c.len() == 0 {
                None::<usize>
            } else {
                Some(c[c.len() - 1])
            })
    }

    /// Returns an empty list.
    pub fn new() -> (r: List)
        ensures
            r.wf(),
            r@ == Seq::<Seq<char>>::empty(),
    {
        let r = List {
            nodes: Vec::new(),
            head: None,
            tail: None,
            size: 0,
            chain: Ghost(Seq::empty()),
        };
        proof {
            assert(r@ =~= Seq::<Seq<char>>::empty());
        }
        r
    }

    /// True exactly when the list holds no element.
    pub fn is_empty(&self) -> (r: bool)
        requires
            self.wf(),
        ensures
            r == (self@.len() == 0),
    {
        self.size == 0
    }

    /// The number of elements in the list.
    pub fn get_size(&self) -> (r: usize)
        requires
            self.wf(),
        ensures
            r == self@.len(),
    {
        self.size
    }

    /// Creates a node holding `value` and links it as the new head.  If the
    /// list was empty, the node also becomes the tail.  Always succeeds.
    pub fn insert_front(&mut self, value: String)
        requires
            old(self).wf(),
        ensures
            final(self).wf(),
            final(self)@ == seq![value@] + old(self)@,
    {
        let ghost v0 = value@;
        let n = self.nodes.len();
        let node = Node::new(value, self.head, None);
        self.nodes.push(node);
        match self.head {
            None => {
                self.head = Some(n);
                self.tail = Some(n);
            },
            Some(h) => {
                self.nodes[h].prev = Some(n);
                self.head = Some(n);
            },
        }
        proof {
            assert(self.size < self.nodes.len());
        }
        self.size = self.size + 1;
        proof {
            self.chain@ = seq![n] + self.chain@;
        }
        proof {
            let c0 = old(self).chain@;
            let c = self.chain@;
            assert(c[0] == n);
            assert(forall|i: int| 1 <= i < c.len() ==> #[trigger] c[i] == c0[i - 1]);
            assert forall|i: int| 0 <= i < c.len() implies {
                &&& (#[trigger] self.node_at(i)).prev == (if i == 0 {
                    None::<usize>
                } else {
                    Some(c[i - 1])
                })
                &&& self.node_at(i).next == (if i == c.len() - 1 {
                    None::<usize>
                } else {
                    Some(c[i + 1])
                })
                &&& self.node_at(i).value@ == (if i == 0 {
                    v0
                } else {
                    old(self).node_at(i - 1).value@
                })
            } by {
                if i > 0 {
                    assert(old(self).node_at(i - 1).prev == (if i - 1 == 0 {
                        None::<usize>
                    } else {
                        Some(c0[i - 2])
                    }));
                    assert(old(self).node_at(i - 1).next == (if i - 1 == c0.len() - 1 {
                        None::<usize>
                    } else {
                        Some(c0[i])
                    }));
                }
            }
            assert(self.wf());
            assert(self@ =~= seq![value@] + old(self)@);
        }
    }

    /// Creates a node holding `value` and links it as the new tail; on an
    /// empty list this is front insertion.  Always succeeds.
    pub fn insert_back(&mut self, value: String)
        requires
            old(self).wf(),
        ensures
            final(self).wf(),
            final(self)@ == old(self)@.push(value@),
    {
        match self.tail {
            None => {
                self.insert_front(value);
                proof {
                    assert(self@ =~= old(self)@.push(value@));
                }
            },
            Some(t) => {
                let ghost v0 = value@;
                let n = self.nodes.len();
                let node = Node::new(value, None, self.tail);
                self.nodes.push(node);
                self.nodes[t].next = Some(n);
                self.tail = Some(n);
                proof {
                    assert(self.size < self.nodes.len());
                }
                self.size = self.size + 1;
                proof {
                    self.chain@ = self.chain@.push(n);
                }
                proof {
                    let c0 = old(self).chain@;
                    let c = self.chain@;
                    assert(c[c.len() - 1] == n);
                    assert(forall|i: int| 0 <= i < c0.len() ==> #[trigger] c[i] == c0[i]);
                    assert forall|i: int| 0 <= i < c.len() implies {
                        &&& (#[trigger] self.node_at(i)).prev == (if i == 0 {
                            None::<usize>
                        } else {
                            Some(c[i - 1])
                        })
                        &&& self.node_at(i).next == (if i == c.len() - 1 {
                            None::<usize>
                        } else {
                            Some(c[i + 1])
                        })
                        &&& self.node_at(i).value@ == (if i == c.len() - 1 {
                            v0
                        } else {
                            old(self).node_at(i).value@
                        })
                    } by {
                        if i < c0.len() {
                            assert(old(self).node_at(i).prev == (if i == 0 {
                                None::<usize>
                            } else {
                                Some(c0[i - 1])
                            }));
                            assert(old(self).node_at(i).next == (if i == c0.len() - 1 {
                                None::<usize>
                            } else {
                                Some(c0[i + 1])
                            }));
                        }
                    }
                    assert(self.wf());
                    assert(self@ =~= old(self)@.push(value@));
                }
            },
        }
    }

    /// Removes the head node and returns its value.  On an empty list it
    /// returns `None` and changes nothing.
    pub fn delete_front(&mut self) -> (r: Option<String>)
        requires
            old(self).wf(),
        ensures
            final(self).wf(),
            r.deep_view() == front_of(old(self)@),
            final(self)@ == (if old(self)@.len() == 0 {
                old(self)@
            } else {
                old(self)@.drop_first()
            }),
    {
        match self.head {
            None => None,
            Some(h) => {
                proof {
                    assert(old(self).node_at(0).next == (if old(self).chain@.len() == 1 {
                        None::<usize>
                    } else {
                        Some(old(self).chain@[1])
                    }));
                    assert(old(self)@[0] == old(self).node_at(0).value@);
                }
                let value = self.nodes[h].value.clone();
                match self.nodes[h].next {
                    None => {
                        self.head = None;
                        self.tail = None;
                    },
                    Some(nh) => {
                        self.nodes[nh].prev = None;
                        self.head = Some(nh);
                    },
                }
                self.size = self.size - 1;
                proof {
                    self.chain@ = self.chain@.drop_first();
                }
                proof {
                    let c0 = old(self).chain@;
                    let c = self.chain@;
                    assert(forall|i: int| 0 <= i < c.len() ==> #[trigger] c[i] == c0[i + 1]);
                    assert forall|i: int| 0 <= i < c.len() implies {
                        &&& (#[trigger] self.node_at(i)).prev == (if i == 0 {
                            None::<usize>
                        } else {
                            Some(c[i - 1])
                        })
                        &&& self.node_at(i).next == (if i == c.len() - 1 {
                            None::<usize>
                        } else {
                            Some(c[i + 1])
                        })
                        &&& self.node_at(i).value@ == old(self).node_at(i + 1).value@
                    } by {
                        assert(old(self).node_at(i + 1).prev == Some(c0[i]));
                        assert(old(self).node_at(i + 1).next == (if i + 1 == c0.len() - 1 {
                            None::<usize>
                        } else {
                            Some(c0[i + 2])
                        }));
                    }
                    assert(self.wf());
                    assert(self@ =~= old(self)@.drop_first());
                }
                Some(value)
            },
        }
    }

    /// Removes the tail node and returns its value.  On an empty list it
    /// returns `None` and changes nothing; on a list of one element it does
    /// exactly what `delete_front` does, since head and tail coincide.
    pub fn delete_back(&mut self) -> (r: Option<String>)
        requires
            old(self).wf(),
        ensures
            final(self).wf(),
            r.deep_view() == back_of(old(self)@),
            final(self)@ == (if old(self)@.len() == 0 {
                old(self)@
            } else {
                old(self)@.drop_last()
            }),
    {
        match self.tail {
            None => None,
            Some(t) => {
                if self.size == 1 {
                    proof {
                        assert(old(self)@.drop_first() =~= old(self)@.drop_last());
                    }
                    return self.delete_front();
                }
                proof {
                    let c0 = self.chain@;
                    assert(self.node_at(c0.len() - 1).prev == Some(c0[c0.len() - 2]));
                    assert(self@.last() == self.node_at(c0.len() - 1).value@);
                }
                let value = self.nodes[t].value.clone();
                let pt = self.nodes[t].prev.unwrap();
                self.nodes[pt].next = None;
                self.tail = Some(pt);
                self.size = self.size - 1;
                proof {
                    self.chain@ = self.chain@.drop_last();
                }
                proof {
                    let c0 = old(self).chain@;
                    let c = self.chain@;
                    assert(forall|i: int| 0 <= i < c.len() ==> #[trigger] c[i] == c0[i]);
                    assert forall|i: int| 0 <= i < c.len() implies {
                        &&& (#[trigger] self.node_at(i)).prev == (if i == 0 {
                            None::<usize>
                        } else {
                            Some(c[i - 1])
                        })
                        &&& self.node_at(i).next == (if i == c.len() - 1 {
                            None::<usize>
                        } else {
                            Some(c[i + 1])
                        })
                        &&& self.node_at(i).value@ == old(self).node_at(i).value@
                    } by {
                        assert(old(self).node_at(i).prev == (if i == 0 {
                            None::<usize>
                        } else {
                            Some(c0[i - 1])
                        }));
                        assert(old(self).node_at(i).next == (if i == c0.len() - 1 {
                            None::<usize>
                        } else {
                            Some(c0[i + 1])
                        }));
                    }
                    assert(self.wf());
                    assert(self@ =~= old(self)@.drop_last());
                }
                Some(value)
            },
        }
    }

    /// The value at the head, without removing it; `None` on an empty list.
    pub fn front(&self) -> (r: Option<String>)
        requires
            self.wf(),
        ensures
            r.deep_view() == front_of(self@),
    {
        match self.head {
            None => None,
            Some(h) => {
                proof {
                    assert(self@[0] == self.node_at(0).value@);
                }
                Some(self.nodes[h].value.clone())
            },
        }
    }

    /// The value at the tail, without removing it; `None` on an empty list.
    pub fn back(&self) -> (r: Option<String>)
        requires
            self.wf(),
        ensures
            r.deep_view() == back_of(self@),
    {
        match self.tail {
            None => None,
            Some(t) => {
                proof {
                    assert(self@.last() == self.node_at(self.chain@.len() - 1).value@);
                }
                Some(self.nodes[t].value.clone())
            },
        }
    }
    /// The value at zero-based position `index`, counting from the head.
    /// Returns `None` when `index` is negative or not below the size, the
    /// empty list included.  Traverses the chain from the head; no mutation.
    pub fn get(&self, index: isize) -> (r: Option<String>)
        requires
            self.wf(),
        ensures
            r.deep_view() == (if 0 <= index < self@.len() {
                Some(self@[index as int])
            } else {
                None::<Seq<char>>
            }),
    {
        if index < 0 {
            return None;
        }
        let idx = index as usize;
        if idx >= self.size {
            return None;
        }
        let mut i: usize = 0;
        let mut cur: usize = self.head.unwrap();
        while i < idx
            invariant
                self.wf(),
                i <= idx < self.chain@.len(),
                cur == self.chain@[i as int],
            decreases idx - i,
        {
            proof {
                assert(self.node_at(i as int).next == Some(self.chain@[i as int + 1]));
            }
            cur = self.nodes[cur].next.unwrap();
            i = i + 1;
        }
        proof {
            assert(self@[idx as int] == self.node_at(idx as int).value@);
        }
        Some(self.nodes[cur].value.clone())
    }

    /// The values from head to tail joined by `" <-> "`: no delimiter before
    /// the first value or after the last, and the empty string for an empty
    /// list.
    pub fn display(&self) -> (r: String)
        requires
            self.wf(),
        ensures
            r@ == display_of(self@),
    {
        let mut out = String::new();
        let mut i: usize = 0;
        let mut cur = self.head;
        while i < self.size
            invariant
                self.wf(),
                i <= self.chain@.len(),
                cur == (if i < self.chain@.len() {
                    Some(self.chain@[i as int])
                } else {
                    None::<usize>
                }),
                out@ == (if i == 0 {
                    Seq::<char>::empty()
                } else if i < self.chain@.len() {
                    display_of(self@.take(i as int)) + " <-> "@
                } else {
                    display_of(self@)
                }),
            decreases self.chain@.len() - i,
        {
            let ghost prev_out = out@;
            let c = cur.unwrap();
            out.append(self.nodes[c].value.as_str());
            proof {
                assert(self.node_at(i as int).next == (if i as int == self.chain@.len() - 1 {
                    None::<usize>
                } else {
                    Some(self.chain@[i as int + 1])
                }));
                assert(self@[i as int] == self.node_at(i as int).value@);
            }
            cur = self.nodes[c].next;
            i = i + 1;
            if i < self.size {
                out.append(" <-> ");
            }
            proof {
                let s = self@;
                let t = s.take(i as int);
                if i > 1 {
                    assert(t.drop_last() =~= s.take(i as int - 1));
                    assert(display_of(t) == display_of(s.take(i as int - 1)) + " <-> "@ + s[
                        i as int - 1]);
                } else {
                    assert(display_of(t) == s[0]);
                }
                if i as int == self.chain@.len() {
                    assert(t =~= s);
                }
            }
        }
        out
    }
}

/// The head value of a sequence of strings, if any.
pub open spec fn front_of(s: Seq<Seq<char>>) -> Option<Seq<char>> {
    if s.len() == 0 {
        None
    } else {
        Some(s[0])
    }
}

/// The tail value of a sequence of strings, if any.
pub open spec fn back_of(s: Seq<Seq<char>>) -> Option<Seq<char>> {
    if s.len() == 0 {
        None
    } else {
        Some(s.last())
    }
}

/// The display form of a sequence of strings: the values in order, joined by
/// `" <-> "`, with nothing before the first or after the last, and the empty
/// string for an empty sequence.
pub open spec fn display_of(s: Seq<Seq<char>>) -> Seq<char>
    decreases s.len(),
{
    if s.len() == 0 {
        Seq::empty()
    } else if s.len() == 1 {
        s[0]
    } else {
        display_of(s.drop_last()) + " <-> "@ + s.last()
    }
}

} // verus!
