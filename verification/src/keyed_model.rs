//! The keyed backing: an insertion-ordered collection of keyed items that
//! enforces key uniqueness.
//!
//! `add` silently drops an item whose key is already present (first writer
//! wins). `insert` ensures presence, then repositions the entry carrying the
//! key to the target slot; when that slot is outside the valid reposition
//! range the whole call is a no-op, so the composite is atomic. `copy`
//! rewrites the copy's key to the key already occupying the target slot:
//! an intentional asymmetry, required to preserve uniqueness.

use vstd::prelude::*;

verus! {

use vstd::pervasive::VecAdditionalExecFns;
use crate::item_model::{
    has_key, key_index, keys_distinct, lemma_key_index_agrees, KeyedListModel, KeyedViewItem,
    ListModel,
};
use crate::text::str_eq;

/// An insertion-ordered, key-addressed model: row `i` holds the `i`-th key
/// in the current insertion/reorder order.
pub struct KeyedModel<I> {
    items: Vec<I>,
}

impl<I: KeyedViewItem> KeyedModel<I> {
    /// An empty keyed model.
    pub fn new() -> (m: Self)
        ensures
            m.inv(),
            m.contents() == Seq::<I>::empty(),
    {
        KeyedModel { items: Vec::new() }
    }

    /// Linear scan for the item carrying `key`.
    fn find_key(&self, key: &str) -> (r: Option<usize>)
        ensures
            match r {
                Some(i) => i < self.contents().len() && self.contents()[i as int].spec_key()
                    == key@,
                None => !has_key(self.contents(), key@),
            },
    {
        let n = self.items.len();
        let mut i: usize = 0;
        while i < n
            invariant
                n == self.items@.len(),
                i <= n,
                forall|j: int| 0 <= j < i ==> #[trigger] self.items@[j].spec_key() != key@,
            decreases n - i,
        {
            let k = self.items[i].key();
            if str_eq(k.as_str(), key) {
                return Some(i);
            }
            i += 1;
        }
        None
    }
}

/// Removing position `i` keeps keys distinct and removes the only
/// occurrence of its key.
proof fn lemma_remove_keeps_distinct<I: KeyedViewItem>(s: Seq<I>, i: int)
    requires
        keys_distinct(s),
        0 <= i < s.len(),
    ensures
        keys_distinct(s.remove(i)),
        !has_key(s.remove(i), s[i].spec_key()),
{
    s.remove_ensures(i);
    let t = s.remove(i);
    assert forall|p: int, q: int|
        0 <= p < q < t.len() implies #[trigger] t[p].spec_key() != #[trigger] t[q].spec_key() by {
        let p0 = if p < i {
            p
        } else {
            p + 1
        };
        let q0 = if q < i {
            q
        } else {
            q + 1
        };
        assert(t[p] == s[p0]);
        assert(t[q] == s[q0]);
    }
    assert forall|p: int| 0 <= p < t.len() implies #[trigger] t[p].spec_key() != s[i].spec_key() by {
        let p0 = if p < i {
            p
        } else {
            p + 1
        };
        assert(t[p] == s[p0]);
    }
}

/// Inserting an item with a fresh key keeps keys distinct.
proof fn lemma_insert_keeps_distinct<I: KeyedViewItem>(s: Seq<I>, i: int, x: I)
    requires
        keys_distinct(s),
        !has_key(s, x.spec_key()),
        0 <= i <= s.len(),
    ensures
        keys_distinct(s.insert(i, x)),
{
    s.insert_ensures(i, x);
    let t = s.insert(i, x);
    assert forall|p: int, q: int|
        0 <= p < q < t.len() implies #[trigger] t[p].spec_key() != #[trigger] t[q].spec_key() by {
        if p != i {
            let p0 = if p < i {
                p
            } else {
                p - 1
            };
            assert(t[p] == s[p0]) by {
                if p >= i + 1 {
                    assert(s.insert(i, x)[p0 + 1] == s[p0]);
                }
            }
        }
        if q != i {
            let q0 = if q < i {
                q
            } else {
                q - 1
            };
            assert(t[q] == s[q0]) by {
                if q >= i + 1 {
                    assert(s.insert(i, x)[q0 + 1] == s[q0]);
                }
            }
        }
        if p == i {
            assert(t[q] == s[q - 1]);
            assert(s[q - 1].spec_key() != x.spec_key());
        } else if q == i {
            assert(t[p] == s[p]);
            assert(s[p].spec_key() != x.spec_key());
        }
    }
}

/// Appending an item with a fresh key keeps keys distinct.
proof fn lemma_push_keeps_distinct<I: KeyedViewItem>(s: Seq<I>, x: I)
    requires
        keys_distinct(s),
        !has_key(s, x.spec_key()),
    ensures
        keys_distinct(s.push(x)),
{
    let t = s.push(x);
    assert forall|p: int, q: int|
        0 <= p < q < t.len() implies #[trigger] t[p].spec_key() != #[trigger] t[q].spec_key() by {
        assert(t[p] == s[p]);
        if q < s.len() {
            assert(t[q] == s[q]);
        } else {
            assert(t[q] == x);
            assert(s[p].spec_key() != x.spec_key());
        }
    }
}

impl<I: KeyedViewItem> ListModel<I> for KeyedModel<I> {
    closed spec fn contents(&self) -> Seq<I> {
        self.items@
    }

    open spec fn inv(&self) -> bool {
        keys_distinct(self.contents())
    }

    /// `add` appends only when the key is absent (first writer wins).
    open spec fn spec_add(&self, item: I) -> Seq<I> {
        if has_key(self.contents(), item.spec_key()) {
            self.contents()
        } else {
            self.contents().push(item)
        }
    }

    /// `insert` ensures presence, then repositions the entry carrying the
    /// key to `index`; outside the valid range the call is a no-op.
    open spec fn spec_insert(&self, index: int, item: I) -> Seq<I> {
        let s = self.contents();
        if has_key(s, item.spec_key()) {
            if 0 <= index < s.len() {
                let j = key_index(s, item.spec_key());
                s.remove(j).insert(index, s[j])
            } else {
                s
            }
        } else {
            if 0 <= index <= s.len() {
                s.insert(index, item)
            } else {
                s
            }
        }
    }

    /// `copy` overwrites slot `b` with a copy of slot `a` whose key is
    /// rewritten to the key already occupying `b`.
    open spec fn copies_to(&self, a: int, b: int, it: I) -> bool {
        I::key_replaced(self.contents()[a], it, self.contents()[b].spec_key())
    }

    /// A replacement is tolerated when its key collides with no other slot.
    open spec fn replace_ok(&self, index: int, item: I) -> bool {
        forall|j: int|
            0 <= j < self.contents().len() && j != index
                ==> #[trigger] self.contents()[j].spec_key() != item.spec_key()
    }

    fn is_empty(&self) -> (r: bool) {
        self.items.len() == 0
    }

    fn len(&self) -> (r: usize) {
        self.items.len()
    }

    fn item(&self, index: usize) -> (r: Option<&I>) {
        if index < self.items.len() {
            Some(&self.items[index])
        } else {
            None
        }
    }

    fn item_mut(&mut self, index: usize) -> (r: Option<&mut I>) {
        proof {
            let s = old(self).contents();
            if (index as int) < s.len() {
                assert forall|x: I| old(self).replace_ok(index as int, x) implies keys_distinct(
                    #[trigger] s.update(index as int, x),
                ) by {
                    let t = s.update(index as int, x);
                    assert forall|p: int, q: int|
                        0 <= p < q < t.len() implies #[trigger] t[p].spec_key()
                        != #[trigger] t[q].spec_key() by {
                        if p != index {
                            assert(t[p] == s[p]);
                        }
                        if q != index {
                            assert(t[q] == s[q]);
                        }
                    }
                }
            }
        }
        if index < self.items.len() {
            Some(&mut self.items[index])
        } else {
            None
        }
    }

    fn add(&mut self, item: I) {
        let key = item.key();
        if self.find_key(key.as_str()).is_none() {
            proof {
                lemma_push_keeps_distinct(self.contents(), item);
            }
            self.items.push(item);
        }
    }

    fn insert(&mut self, index: usize, item: I) {
        let key = item.key();
        match self.find_key(key.as_str()) {
            Some(j) => {
                if index < self.items.len() {
                    proof {
                        lemma_key_index_agrees(self.contents(), j as int);
                        lemma_remove_keeps_distinct(self.contents(), j as int);
                    }
                    let moved = self.items.remove(j);
                    proof {
                        lemma_insert_keeps_distinct(
                            old(self).contents().remove(j as int),
                            index as int,
                            moved,
                        );
                    }
                    self.items.insert(index, moved);
                }
            },
            None => {
                if index <= self.items.len() {
                    proof {
                        lemma_insert_keeps_distinct(self.contents(), index as int, item);
                    }
                    self.items.insert(index, item);
                }
            },
        }
    }

    fn remove(&mut self, index: usize) {
        if index < self.items.len() {
            proof {
                lemma_remove_keeps_distinct(self.contents(), index as int);
            }
            let _removed = self.items.remove(index);
        }
    }

    fn swap_items(&mut self, a: usize, b: usize) {
        let n = self.items.len();
        if a < n && b < n {
            let item_a = self.items[a].clone_item();
            let item_b = self.items[b].clone_item();
            self.items.set(a, item_b);
            self.items.set(b, item_a);
            proof {
                let s = old(self).contents();
                let t = self.contents();
                assert forall|p: int, q: int|
                    0 <= p < q < t.len() implies #[trigger] t[p].spec_key()
                    != #[trigger] t[q].spec_key() by {
                    let p0 = if p == a {
                        b as int
                    } else if p == b {
                        a as int
                    } else {
                        p
                    };
                    let q0 = if q == a {
                        b as int
                    } else if q == b {
                        a as int
                    } else {
                        q
                    };
                    assert(t[p] == s[p0]);
                    assert(t[q] == s[q0]);
                }
            }
        }
    }

    fn copy(&mut self, a: usize, b: usize) {
        let n = self.items.len();
        if a < n && b < n {
            let new_key = self.items[b].key();
            let mut c = self.items[a].clone_item();
            c.set_key(new_key);
            self.items.set(b, c);
            proof {
                let s = old(self).contents();
                let t = self.contents();
                I::lemma_key_replaced(s[a as int], c, s[b as int].spec_key());
                assert forall|p: int, q: int|
                    0 <= p < q < t.len() implies #[trigger] t[p].spec_key()
                    != #[trigger] t[q].spec_key() by {
                    if p != b {
                        assert(t[p] == s[p]);
                    }
                    if q != b {
                        assert(t[q] == s[q]);
                    }
                }
            }
        }
    }

    fn row_to_index(&self, row_number: usize) -> (r: Option<usize>) {
        if row_number < self.items.len() {
            Some(row_number)
        } else {
            None
        }
    }
}

impl<I: KeyedViewItem> KeyedListModel<I> for KeyedModel<I> {
    proof fn lemma_keys_distinct(&self) {
    }

    fn index_of(&self, key: &str) -> (r: Option<usize>) {
        self.find_key(key)
    }
}

/// Keyed-model consistency: each item's key looks up exactly its own index,
/// and no other slot carries that key. Together with the length clause this
/// says `index_of(item(i).key()) == i` for every `i`, and that all keys are
/// pairwise distinct.
pub proof fn lemma_key_lookup_consistent<I: KeyedViewItem>(m: &KeyedModel<I>, i: int)
    requires
        m.inv(),
        0 <= i < m.contents().len(),
    ensures
        has_key(m.contents(), m.contents()[i].spec_key()),
        key_index(m.contents(), m.contents()[i].spec_key()) == i,
        forall|j: int|
            0 <= j < m.contents().len() && j != i ==> #[trigger] m.contents()[j].spec_key()
                != m.contents()[i].spec_key(),
{
    lemma_key_index_agrees(m.contents(), i);
}

/// `add` with a duplicate key is a no-op: the model, hence its length and
/// the previously stored item under that key, is unchanged.
pub proof fn lemma_add_duplicate_is_noop<I: KeyedViewItem>(m: &KeyedModel<I>, item: I)
    requires
        m.inv(),
        has_key(m.contents(), item.spec_key()),
    ensures
        m.spec_add(item) == m.contents(),
{
}

/// `add` with a fresh key appends the item, growing the model by one.
pub proof fn lemma_add_fresh_appends<I: KeyedViewItem>(m: &KeyedModel<I>, item: I)
    requires
        m.inv(),
        !has_key(m.contents(), item.spec_key()),
    ensures
        m.spec_add(item).len() == m.contents().len() + 1int,
        m.spec_add(item)[m.contents().len() as int] == item,
        forall|k: int| 0 <= k < m.contents().len() ==> m.spec_add(item)[k] == m.contents()[k],
{
}

/// `insert` of a fresh key at a valid index lands the item at exactly that
/// index; the item previously there, and all after it, shift by exactly one
/// position, with no duplication.
pub proof fn lemma_insert_lands_at_index<I: KeyedViewItem>(m: &KeyedModel<I>, index: int, item: I)
    requires
        m.inv(),
        !has_key(m.contents(), item.spec_key()),
        0 <= index <= m.contents().len(),
    ensures
        m.spec_insert(index, item).len() == m.contents().len() + 1int,
        m.spec_insert(index, item)[index] == item,
        m.spec_insert(index, item)[index].spec_key() == item.spec_key(),
        forall|k: int| 0 <= k < index ==> #[trigger] m.spec_insert(index, item)[k]
            == m.contents()[k],
        forall|k: int|
            index <= k < m.contents().len() ==> m.spec_insert(index, item)[k + 1]
                == m.contents()[k],
{
    m.contents().insert_ensures(index, item);
}

/// `insert` of a duplicate key at a valid index repositions the entry
/// already carrying that key: afterwards the item at `index` carries the
/// inserted item's key, and the length is unchanged.
pub proof fn lemma_insert_duplicate_repositions<I: KeyedViewItem>(
    m: &KeyedModel<I>,
    index: int,
    item: I,
)
    requires
        m.inv(),
        has_key(m.contents(), item.spec_key()),
        0 <= index < m.contents().len(),
    ensures
        m.spec_insert(index, item).len() == m.contents().len(),
        m.spec_insert(index, item)[index].spec_key() == item.spec_key(),
{
    let s = m.contents();
    let j = key_index(s, item.spec_key());
    assert(0 <= j < s.len() && s[j].spec_key() == item.spec_key());
    s.remove_ensures(j);
    s.remove(j).insert_ensures(index, s[j]);
}

/// Length accounting for the keyed backing: `add` grows the model by one
/// exactly when it succeeds (fresh key), and `insert` exactly when it
/// succeeds with a fresh key; a duplicate `add`, and an `insert` that
/// repositions or falls out of range, leave the length unchanged. Together
/// with the exact contracts of `remove`, `swap_items` and `copy`, the
/// length after any call sequence is the number of successful adds and
/// inserts minus the number of successful removes.
pub proof fn lemma_keyed_len_accounting<I: KeyedViewItem>(m: &KeyedModel<I>, index: int, item: I)
    requires
        m.inv(),
    ensures
        m.spec_add(item).len() == if has_key(m.contents(), item.spec_key()) {
            m.contents().len() as int
        } else {
            m.contents().len() + 1int
        },
        m.spec_insert(index, item).len() == if !has_key(m.contents(), item.spec_key()) && 0
            <= index <= m.contents().len() {
            m.contents().len() + 1int
        } else {
            m.contents().len() as int
        },
{
    let s = m.contents();
    if has_key(s, item.spec_key()) {
        if 0 <= index < s.len() {
            let j = key_index(s, item.spec_key());
            assert(0 <= j < s.len() && s[j].spec_key() == item.spec_key());
            s.remove_ensures(j);
            s.remove(j).insert_ensures(index, s[j]);
        }
    } else {
        if 0 <= index <= s.len() {
            s.insert_ensures(index, item);
        }
    }
}

/// `copy` into slot `b` of a keyed model keeps the key that occupied `b`:
/// what lands in `b` is the pre-call item at `a` with its key replaced by
/// the key that occupied `b`, so in particular it reads back that key.
pub proof fn lemma_copy_rewrites_key<I: KeyedViewItem>(m: &KeyedModel<I>, a: int, b: int, it: I)
    requires
        m.inv(),
        0 <= a < m.contents().len(),
        0 <= b < m.contents().len(),
        m.copies_to(a, b, it),
    ensures
        I::key_replaced(m.contents()[a], it, m.contents()[b].spec_key()),
        it.spec_key() == m.contents()[b].spec_key(),
{
    I::lemma_key_replaced(m.contents()[a], it, m.contents()[b].spec_key());
}

} // verus!
