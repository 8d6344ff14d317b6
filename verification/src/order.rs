//! The order of watches.
//!
//! Watches are ordered by variant, then field by field; texts are ordered
//! character by character, and a text comes before every text that it
//! starts. Each watch has a key, a sequence of numbers, and watches are
//! ordered as their keys are by the first place in which two keys differ.

use vstd::prelude::*;
use vstd::string::*;
use crate::data_type::DataType;
use crate::space::MemorySpace;
use crate::watch::{Watch, WatchView};

verus! {

/// Whether `a` comes before `b`: at the first place where they differ `a`
/// holds the smaller number, or `a` ends there and `b` does not.
pub open spec fn key_less(a: Seq<int>, b: Seq<int>) -> bool
    decreases a.len(),
{
    if b.len() == 0 {
        false
    } else if a.len() == 0 {
        true
    } else if a[0] != b[0] {
        a[0] < b[0]
    } else {
        key_less(a.skip(1), b.skip(1))
    }
}

/// No key comes before itself.
pub proof fn lemma_key_less_irreflexive(a: Seq<int>)
    ensures
        !key_less(a, a),
    decreases a.len(),
{
    if a.len() > 0 {
        lemma_key_less_irreflexive(a.skip(1));
    }
}

/// Of two different keys one comes before the other.
pub proof fn lemma_key_less_total(a: Seq<int>, b: Seq<int>)
    ensures
        a == b || key_less(a, b) || key_less(b, a),
    decreases a.len(),
{
    if a.len() > 0 && b.len() > 0 && a[0] == b[0] {
        lemma_key_less_total(a.skip(1), b.skip(1));
        if a.skip(1) == b.skip(1) {
            assert(a =~= seq![a[0]] + a.skip(1));
            assert(b =~= seq![b[0]] + b.skip(1));
        }
    } else if a.len() == 0 && b.len() == 0 {
        assert(a =~= b);
    }
}

/// What comes before a key comes before all that the key comes before.
pub proof fn lemma_key_less_transitive(a: Seq<int>, b: Seq<int>, c: Seq<int>)
    requires
        key_less(a, b),
        key_less(b, c),
    ensures
        key_less(a, c),
    decreases a.len(),
{
    if a.len() > 0 && b.len() > 0 && c.len() > 0 && a[0] == b[0] && b[0] == c[0] {
        lemma_key_less_transitive(a.skip(1), b.skip(1), c.skip(1));
    }
}

/// The numbers of a key that is held as 64-bit numbers.
pub open spec fn key_of(numbers: Seq<u64>) -> Seq<int> {
    Seq::new(numbers.len(), |i: int| numbers[i] as int)
}

/// Whether the key `a` comes before the key `b`.
pub fn key_precedes(a: &Vec<u64>, b: &Vec<u64>) -> (before: bool)
    ensures
        before == key_less(key_of(a@), key_of(b@)),
{
    let mut i: usize = 0;
    proof {
        assert(key_of(a@).skip(0) =~= key_of(a@));
        assert(key_of(b@).skip(0) =~= key_of(b@));
    }
    while i < a.len() && i < b.len() && a[i] == b[i]
        invariant
            i <= a@.len(),
            i <= b@.len(),
            key_less(key_of(a@), key_of(b@)) == key_less(
                key_of(a@).skip(i as int),
                key_of(b@).skip(i as int),
            ),
        decreases a@.len() - i,
    {
        proof {
            assert(key_of(a@).skip(i as int).skip(1) =~= key_of(a@).skip(i + 1));
            assert(key_of(b@).skip(i as int).skip(1) =~= key_of(b@).skip(i + 1));
        }
        i += 1;
    }
    if i >= b.len() {
        false
    } else if i >= a.len() {
        true
    } else {
        a[i] < b[i]
    }
}

impl DataType {
    /// The key of the type: the place of its variant among the variants,
    /// and after it, for a sequence, the key of the element type.
    pub open spec fn order_key(self) -> Seq<int>
        decreases self,
    {
        match self {
            DataType::Char => seq![0int],
            DataType::NullTerminated(inner) => seq![1int] + inner.order_key(),
            DataType::U8 => seq![2int],
            DataType::U16 => seq![3int],
            DataType::U32 => seq![4int],
            DataType::U64 => seq![5int],
            DataType::U128 => seq![6int],
            DataType::I8 => seq![7int],
            DataType::I16 => seq![8int],
            DataType::I32 => seq![9int],
            DataType::I64 => seq![10int],
            DataType::I128 => seq![11int],
            DataType::HighLowBit => seq![12int],
            DataType::IoRegisterStatus => seq![13int],
        }
    }

    /// Appends the key of the type.
    pub fn push_order_key(&self, key: &mut Vec<u64>)
        ensures
            key_of(final(key)@) == key_of(old(key)@) + self.order_key(),
        decreases *self,
    {
        let tag: u64 = match self {
            DataType::Char => 0,
            DataType::NullTerminated(inner) => {
                key.push(1);
                inner.push_order_key(key);
                proof {
                    assert(key_of(final(key)@) =~= key_of(old(key)@) + self.order_key());
                }
                return ;
            },
            DataType::U8 => 2,
            DataType::U16 => 3,
            DataType::U32 => 4,
            DataType::U64 => 5,
            DataType::U128 => 6,
            DataType::I8 => 7,
            DataType::I16 => 8,
            DataType::I32 => 9,
            DataType::I64 => 10,
            DataType::I128 => 11,
            DataType::HighLowBit => 12,
            DataType::IoRegisterStatus => 13,
        };
        key.push(tag);
        proof {
            assert(key_of(final(key)@) =~= key_of(old(key)@) + self.order_key());
        }
    }
}

/// Types with the same key are the same type, also where other numbers follow the key.
pub proof fn lemma_type_key_injective(a: DataType, b: DataType, after_a: Seq<int>, after_b: Seq<int>)
    requires
        a.order_key() + after_a == b.order_key() + after_b,
    ensures
        a == b,
        after_a == after_b,
    decreases a,
{
    let left = a.order_key() + after_a;
    let right = b.order_key() + after_b;
    assert(left[0] == right[0]);
    match a {
        DataType::NullTerminated(inner_a) => {
            match b {
                DataType::NullTerminated(inner_b) => {
                    assert(inner_a.order_key() + after_a =~= left.skip(1));
                    assert(inner_b.order_key() + after_b =~= right.skip(1));
                    lemma_type_key_injective(*inner_a, *inner_b, after_a, after_b);
                },
                _ => {},
            }
        },
        _ => {
            assert(after_a =~= left.skip(1));
            assert(after_b =~= right.skip(1));
        },
    }
}

/// The key of a bit index: none comes before every index.
pub open spec fn index_key(port_index: Option<u8>) -> int {
    match port_index {
        None => 0,
        Some(index) => index + 1,
    }
}

/// The key of a name: before each character a one, and after the last a
/// zero, so that a name comes before the names that it starts.
pub open spec fn name_key(name: Seq<char>) -> Seq<int> {
    Seq::new(
        2 * name.len() + 1,
        |i: int|
            if i == 2 * name.len() {
                0int
            } else if i % 2 == 0 {
                1int
            } else {
                name[i / 2] as int
            },
    )
}

impl WatchView {
    /// The key of the watch: the place of its variant, then its fields in
    /// their order.
    pub open spec fn order_key(self) -> Seq<int> {
        match self {
            WatchView::MemoryAddress { space, address, data_type } => seq![
                0int,
                if space == MemorySpace::Program {
                    0int
                } else {
                    1int
                },
                address.address as int,
                address.natural_radix as int,
            ] + data_type.order_key(),
            WatchView::Symbol { name, data_type } => seq![1int] + name_key(name)
                + data_type.order_key(),
            WatchView::IoPort { port_letter, port_index } => seq![
                2int,
                port_letter as int,
                index_key(port_index),
            ],
            WatchView::IoPin { port_letter, port_index } => seq![
                3int,
                port_letter as int,
                index_key(port_index),
            ],
            WatchView::IoDataDirectionRegister { port_letter, port_index } => seq![
                4int,
                port_letter as int,
                index_key(port_index),
            ],
        }
    }

    /// Whether the watch comes before `other`.
    pub open spec fn precedes(self, other: WatchView) -> bool {
        key_less(self.order_key(), other.order_key())
    }
}

/// Names with the same key are the same name, also where other numbers follow the key.
pub proof fn lemma_name_key_injective(a: Seq<char>, b: Seq<char>, after_a: Seq<int>, after_b: Seq<int>)
    requires
        name_key(a) + after_a == name_key(b) + after_b,
    ensures
        a == b,
        after_a == after_b,
{
    let left = name_key(a) + after_a;
    let right = name_key(b) + after_b;
    let la = a.len() as int;
    let lb = b.len() as int;
    if a.len() < b.len() {
        assert(left[2 * la] == name_key(a)[2 * la]);
        assert(right[2 * la] == name_key(b)[2 * la]);
        assert(false);
    } else if b.len() < a.len() {
        assert(left[2 * lb] == name_key(a)[2 * lb]);
        assert(right[2 * lb] == name_key(b)[2 * lb]);
        assert(false);
    } else {
        assert forall|i: int| 0 <= i < a.len() implies a[i] == b[i] by {
            assert(left[2 * i + 1] == name_key(a)[2 * i + 1]);
            assert(right[2 * i + 1] == name_key(b)[2 * i + 1]);
        }
        assert(a =~= b);
        assert(after_a =~= left.skip(2 * la + 1));
        assert(after_b =~= right.skip(2 * lb + 1));
    }
}

/// Watches with the same key are the same watch.
pub proof fn lemma_watch_key_injective(a: WatchView, b: WatchView)
    requires
        a.order_key() == b.order_key(),
    ensures
        a == b,
{
    let left = a.order_key();
    let right = b.order_key();
    assert(left[0] == right[0]);
    match a {
        WatchView::MemoryAddress { space, address, data_type } => {
            assert(left[1] == right[1]);
            assert(left[2] == right[2]);
            assert(left[3] == right[3]);
            assert(data_type.order_key() + Seq::<int>::empty() =~= left.skip(4));
            assert(b->MemoryAddress_data_type.order_key() + Seq::<int>::empty() =~= right.skip(4));
            lemma_type_key_injective(
                data_type,
                b->MemoryAddress_data_type,
                Seq::empty(),
                Seq::empty(),
            );
        },
        WatchView::Symbol { name, data_type } => {
            let other_name = b->Symbol_name;
            let other_type = b->Symbol_data_type;
            assert(name_key(name) + data_type.order_key() =~= left.skip(1));
            assert(name_key(other_name) + other_type.order_key() =~= right.skip(1));
            lemma_name_key_injective(
                name,
                other_name,
                data_type.order_key(),
                other_type.order_key(),
            );
            assert(data_type.order_key() + Seq::<int>::empty() =~= data_type.order_key());
            assert(other_type.order_key() + Seq::<int>::empty() =~= other_type.order_key());
            lemma_type_key_injective(data_type, other_type, Seq::empty(), Seq::empty());
        },
        _ => {
            assert(left[1] == right[1]);
            assert(left[2] == right[2]);
        },
    }
}

/// No watch comes before itself.
pub proof fn lemma_precedes_irreflexive(a: WatchView)
    ensures
        !a.precedes(a),
{
    lemma_key_less_irreflexive(a.order_key());
}

/// What comes before a watch comes before all that the watch comes before.
pub proof fn lemma_precedes_transitive(a: WatchView, b: WatchView, c: WatchView)
    requires
        a.precedes(b),
        b.precedes(c),
    ensures
        a.precedes(c),
{
    lemma_key_less_transitive(a.order_key(), b.order_key(), c.order_key());
}

/// Of two different watches one comes before the other.
pub proof fn lemma_precedes_total(a: WatchView, b: WatchView)
    ensures
        a == b || a.precedes(b) || b.precedes(a),
{
    lemma_key_less_total(a.order_key(), b.order_key());
    if a.order_key() == b.order_key() {
        lemma_watch_key_injective(a, b);
    }
}

impl Watch {
    /// The key of the watch.
    pub fn order_key(&self) -> (key: Vec<u64>)
        ensures
            key_of(key@) == self@.order_key(),
    {
        let mut key: Vec<u64> = Vec::new();
        match self {
            Watch::MemoryAddress { space, address, data_type } => {
                key.push(0);
                key.push(
                    match space {
                        MemorySpace::Program => 0,
                        MemorySpace::Data => 1,
                    },
                );
                key.push(address.address as u64);
                key.push(address.natural_radix as u64);
                data_type.push_order_key(&mut key);
                proof {
                    assert(key_of(key@) =~= self@.order_key());
                }
            },
            Watch::Symbol { name, data_type } => {
                key.push(1);
                let length = name.as_str().unicode_len();
                let mut i: usize = 0;
                while i < length
                    invariant
                        length == name@.len(),
                        i <= length,
                        key@.len() == 2 * i + 1,
                        key@[0] == 1,
                        forall|k: int|
                            1 <= k < key@.len() ==> (#[trigger] key@[k]) as int == if (k - 1) % 2
                                == 0 {
                                1int
                            } else {
                                name@[(k - 1) / 2] as int
                            },
                    decreases length - i,
                {
                    let c = name.as_str().get_char(i);
                    key.push(1);
                    key.push(c as u64);
                    i += 1;
                }
                key.push(0);
                proof {
                    let wanted = seq![1int] + name_key(name@);
                    assert(key_of(key@).len() == wanted.len());
                    assert forall|k: int| 0 <= k < wanted.len() implies key_of(key@)[k]
                        == wanted[k] by {
                        if k > 0 {
                            assert(key_of(key@)[k] == key@[k] as int);
                        }
                    }
                    assert(key_of(key@) =~= wanted);
                }
                data_type.push_order_key(&mut key);
                proof {
                    assert(key_of(key@) =~= self@.order_key());
                }
            },
            Watch::IoPort { port_letter, port_index } => {
                key.push(2);
                key.push(*port_letter as u64);
                key.push(
                    match port_index {
                        None => 0,
                        Some(index) => *index as u64 + 1,
                    },
                );
                proof {
                    assert(key_of(key@) =~= self@.order_key());
                }
            },
            Watch::IoPin { port_letter, port_index } => {
                key.push(3);
                key.push(*port_letter as u64);
                key.push(
                    match port_index {
                        None => 0,
                        Some(index) => *index as u64 + 1,
                    },
                );
                proof {
                    assert(key_of(key@) =~= self@.order_key());
                }
            },
            Watch::IoDataDirectionRegister { port_letter, port_index } => {
                key.push(4);
                key.push(*port_letter as u64);
                key.push(
                    match port_index {
                        None => 0,
                        Some(index) => *index as u64 + 1,
                    },
                );
                proof {
                    assert(key_of(key@) =~= self@.order_key());
                }
            },
        }
        key
    }

    /// Whether the watch comes before `other`.
    pub fn precedes(&self, other: &Watch) -> (before: bool)
        ensures
            before == self@.precedes(other@),
    {
        let mine = self.order_key();
        let theirs = other.order_key();
        key_precedes(&mine, &theirs)
    }

    /// Whether the watch is the same watch as `other`.
    pub fn same_as(&self, other: &Watch) -> (same: bool)
        ensures
            same == (self@ == other@),
    {
        proof {
            lemma_precedes_total(self@, other@);
            lemma_precedes_irreflexive(self@);
        }
        !self.precedes(other) && !other.precedes(self)
    }
}

} // verus!
