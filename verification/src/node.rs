//! A plain tree of JSON-like values.
//!
//! The vendor's payloads address fields by array position, not by name, so
//! the normalizer walks a generic tree. This type holds, as plain values,
//! exactly what the normalizer reads: integers, strings, arrays and
//! objects. Numbers that are not representable as `i64` are outside the
//! model and read as `Null`.

use vstd::prelude::*;

verus! {

/// One node of a parsed JSON document.
#[derive(Debug)]
pub enum Node {
    /// `null`, or any value outside the model.
    Null,
    /// A boolean.
    Bool(bool),
    /// An integral number.
    Int(i64),
    /// A string.
    Text(String),
    /// An array.
    List(Vec<Node>),
    /// An object, as its key/value pairs in document order.
    Entries(Vec<(String, Node)>),
}

/// The `i`th member of an array node; `Null` when the node is not an
/// array or the index is out of bounds.
pub open spec fn child_of(n: Node, i: int) -> Node {
    match n {
        Node::List(items) => {
            if 0 <= i < items@.len() {
                items@[i]
            } else {
                Node::Null
            }
        },
        _ => Node::Null,
    }
}

/// The value under `key` in an object node (first occurrence in document
/// order); `Null` when the node is not an object or the key is absent.
pub open spec fn key_of(n: Node, key: Seq<char>) -> Node {
    match n {
        Node::Entries(pairs) => key_of_pairs(pairs@, key),
        _ => Node::Null,
    }
}

/// The value under `key` in a pair list; `Null` when absent.
pub open spec fn key_of_pairs(pairs: Seq<(String, Node)>, key: Seq<char>) -> Node
    decreases pairs.len(),
{
    if pairs.len() == 0 {
        Node::Null
    } else if pairs[0].0@ == key {
        pairs[0].1
    } else {
        key_of_pairs(pairs.drop_first(), key)
    }
}

/// The integer a node holds, when it holds one.
pub open spec fn int_of(n: Node) -> Option<i64> {
    match n {
        Node::Int(v) => Some(v),
        _ => None,
    }
}

/// The string a node holds, when it holds one.
pub open spec fn text_of(n: Node) -> Option<Seq<char>> {
    match n {
        Node::Text(s) => Some(s@),
        _ => None,
    }
}

/// The members of an array node; empty for any other node.
pub open spec fn members_of(n: Node) -> Seq<Node> {
    match n {
        Node::List(items) => items@,
        _ => Seq::empty(),
    }
}

/// The key/value pairs of an object node; empty for any other node.
pub open spec fn entries_of(n: Node) -> Seq<(String, Node)> {
    match n {
        Node::Entries(pairs) => pairs@,
        _ => Seq::empty(),
    }
}

impl Node {
    /// The `i`th member of this array node; `None` only when `child_of`
    /// is `Null` (a stored `Null` member is still returned).
    pub fn child(&self, i: usize) -> (r: Option<&Node>)
        ensures
            r matches Some(c) ==> *c == child_of(*self, i as int),
            r is None ==> child_of(*self, i as int) == Node::Null,
    {
        if let Node::List(items) = self {
            if i < items.len() {
                return Some(&items[i]);
            }
        }
        None
    }

    /// The value under `key` in this object node, when present.
    pub fn entry<'a>(&'a self, key: &str) -> (r: Option<&'a Node>)
        ensures
            r matches Some(c) ==> *c == key_of(*self, key@),
            r is None ==> key_of(*self, key@) == Node::Null,
    {
        let key_string = key.to_owned();
        if let Node::Entries(pairs) = self {
            let ghost all = pairs@;
            proof {
                assert(all.skip(0) =~= all);
            }
            for j in 0..pairs.len()
                invariant
                    pairs@ == all,
                    key_string@ == key@,
                    key_of(*self, key@) == key_of_pairs(all, key@),
                    key_of_pairs(all, key@) == key_of_pairs(all.skip(j as int), key@),
            {
                proof {
                    assert(all.skip(j as int).len() > 0);
                    assert(all.skip(j as int)[0] == all[j as int]);
                }
                if pairs[j].0 == key_string {
                    proof {
                        assert(key_of_pairs(all.skip(j as int), key@) == all[j as int].1);
                    }
                    return Some(&pairs[j].1);
                }
                proof {
                    assert(all.skip(j as int).drop_first() =~= all.skip(j as int + 1));
                }
            }
            proof {
                assert(all.skip(all.len() as int).len() == 0);
            }
        }
        None
    }

    /// The integer this node holds, when it holds one.
    pub fn as_int(&self) -> (r: Option<i64>)
        ensures
            r == int_of(*self),
    {
        if let Node::Int(v) = self {
            Some(*v)
        } else {
            None
        }
    }

    /// The string this node holds, when it holds one.
    pub fn as_text(&self) -> (r: Option<&str>)
        ensures
            r matches Some(s) ==> text_of(*self) == Some(s@),
            r is None ==> text_of(*self) is None,
    {
        if let Node::Text(s) = self {
            Some(s.as_str())
        } else {
            None
        }
    }

    /// The members of this array node, when it is one.
    pub fn as_list(&self) -> (r: Option<&Vec<Node>>)
        ensures
            r matches Some(items) ==> members_of(*self) == items@,
            r is None ==> members_of(*self) == Seq::<Node>::empty(),
    {
        if let Node::List(items) = self {
            Some(items)
        } else {
            None
        }
    }

    /// The key/value pairs of this object node, when it is one.
    pub fn as_pairs(&self) -> (r: Option<&Vec<(String, Node)>>)
        ensures
            r matches Some(pairs) ==> entries_of(*self) == pairs@,
            r is None ==> entries_of(*self) == Seq::<(String, Node)>::empty(),
    {
        if let Node::Entries(pairs) = self {
            Some(pairs)
        } else {
            None
        }
    }
}

} // verus!
