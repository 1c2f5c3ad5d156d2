//! The item capabilities and the model contract.
//!
//! An item is an opaque value that a widget can render as one row. The
//! `ViewItem` capability projects it to display text; `KeyedViewItem` adds a
//! unique string key. `ListModel` is the uniform contract of an ordered
//! collection of such items; `KeyedListModel` adds key-to-index lookup.
//!
//! Every index-taking operation degrades to a no-op (never a failure) when an
//! index is out of bounds: render code issues these calls speculatively
//! against stale indices and must not need defensive pre-checks.

use vstd::prelude::*;

verus! {

use vstd::pervasive::VecAdditionalExecFns;

/// Where a decoration will be displayed. Used to provide context when
/// requesting a decoration from an item.
#[derive(Debug, Clone, Copy, PartialEq, Eq)]
pub enum DecorationKind<'a> {
    List,
    DropDown,
    Other(&'a str),
}

/// An item that could be rendered in a view. Typically part of a collection
/// of similar items stored in a model.
pub trait ViewItem: Sized {
    /// The display text of this item, as a sequence of characters.
    spec fn spec_text(&self) -> Seq<char>;

    /// Whether ANY item of this type could be decorated in the given context.
    /// If not, widgets may skip allocating space for decorations and use a
    /// simpler layout.
    fn decorated(kind: DecorationKind<'_>) -> bool {
        false
    }

    /// The display text for this item.
    fn text(&self) -> (t: String)
        ensures
            t@ == self.spec_text(),
    ;

    /// An exact duplicate of this item.
    fn clone_item(&self) -> (c: Self)
        ensures
            c == *self,
    ;
}

/// A [`ViewItem`] that has a unique key distinguishing it from other items.
pub trait KeyedViewItem: ViewItem {
    /// The key of this item, as a sequence of characters.
    spec fn spec_key(&self) -> Seq<char>;

    /// `updated` is `original` with its key replaced by `key` and everything
    /// else unchanged.
    spec fn key_replaced(original: Self, updated: Self, key: Seq<char>) -> bool;

    /// A replaced key reads back exactly.
    proof fn lemma_key_replaced(original: Self, updated: Self, key: Seq<char>)
        requires
            Self::key_replaced(original, updated, key),
        ensures
            updated.spec_key() == key,
    ;

    /// Retrieve the key from this item.
    fn key(&self) -> (k: String)
        ensures
            k@ == self.spec_key(),
    ;

    /// Replace the key of this item.
    fn set_key(&mut self, key: String)
        ensures
            Self::key_replaced(*old(self), *final(self), key@),
    ;
}

/// An ordered collection of [`ViewItem`]s that can be rendered in collection
/// widgets. `contents()` is the mathematical value of the collection; `inv()`
/// is the representation invariant that every operation preserves. The spec
/// functions `spec_add`, `spec_insert` and `spec_copy` say, per backing, what
/// the like-named operations leave in the model.
pub trait ListModel<I: ViewItem>: Sized {
    /// The items now held, in order.
    spec fn contents(&self) -> Seq<I>;

    /// The representation invariant of this backing.
    spec fn inv(&self) -> bool;

    /// What `add` leaves in the model.
    spec fn spec_add(&self, item: I) -> Seq<I>;

    /// What `insert` leaves in the model.
    spec fn spec_insert(&self, index: int, item: I) -> Seq<I>;

    /// What `copy` from slot `a` leaves in slot `b` (the keyed backing
    /// rewrites the copy's key to the key already at `b`; the sequential
    /// backing copies the item as it is).
    spec fn copies_to(&self, a: int, b: int, it: I) -> bool;

    /// Whether the backing tolerates the item at `index` being replaced by
    /// `item` (the keyed backing refuses a replacement that would break key
    /// uniqueness; the sequential backing tolerates everything).
    spec fn replace_ok(&self, index: int, item: I) -> bool;

    /// Whether the list is empty.
    fn is_empty(&self) -> (r: bool)
        requires
            self.inv(),
        ensures
            r == (self.contents().len() == 0),
    ;

    /// The number of items in this model.
    fn len(&self) -> (r: usize)
        requires
            self.inv(),
        ensures
            r == self.contents().len(),
    ;

    /// Retrieve the item at the given index (if in bounds).
    fn item(&self, index: usize) -> (r: Option<&I>)
        requires
            self.inv(),
        ensures
            match r {
                Some(it) => index < self.contents().len() && *it == self.contents()[index as int],
                None => index >= self.contents().len(),
            },
    ;

    /// Retrieve a mutable reference to an item if the index is in bounds.
    /// The model afterwards holds whatever the caller leaves behind the
    /// reference; its invariant survives exactly the replacements that
    /// `replace_ok` tolerates.
    fn item_mut(&mut self, index: usize) -> (r: Option<&mut I>)
        requires
            old(self).inv(),
        ensures
            match r {
                Some(it) => {
                    &&& index < old(self).contents().len()
                    &&& *it == old(self).contents()[index as int]
                    &&& final(self).contents() == old(self).contents().update(
                        index as int,
                        *final(it),
                    )
                    &&& old(self).replace_ok(index as int, *final(it)) ==> final(self).inv()
                },
                None => index >= old(self).contents().len() && *final(self) == *old(self),
            },
    ;

    /// Add an item to the end of this model (the keyed backing silently
    /// drops an item whose key is already present).
    fn add(&mut self, item: I)
        requires
            old(self).inv(),
        ensures
            final(self).inv(),
            final(self).contents() == old(self).spec_add(item),
    ;

    /// Insert an item at the specified index (if in bounds).
    fn insert(&mut self, index: usize, item: I)
        requires
            old(self).inv(),
        ensures
            final(self).inv(),
            final(self).contents() == old(self).spec_insert(index as int, item),
    ;

    /// Remove the item at the given index (if in bounds).
    fn remove(&mut self, index: usize)
        requires
            old(self).inv(),
        ensures
            final(self).inv(),
            index < old(self).contents().len() ==> final(self).contents()
                == old(self).contents().remove(index as int),
            index >= old(self).contents().len() ==> final(self).contents()
                == old(self).contents(),
    ;

    /// Swap items at the given indices (if in bounds).
    fn swap_items(&mut self, a: usize, b: usize)
        requires
            old(self).inv(),
        ensures
            final(self).inv(),
            a < old(self).contents().len() && b < old(self).contents().len() ==> final(self).contents()
                == old(self).contents().update(a as int, old(self).contents()[b as int]).update(
                b as int,
                old(self).contents()[a as int],
            ),
            !(a < old(self).contents().len() && b < old(self).contents().len())
                ==> final(self).contents() == old(self).contents(),
    ;

    /// Copy the contents of index `a` to index `b` (if both in bounds). The
    /// keyed backing rewrites the copy's key to the key already at `b`.
    fn copy(&mut self, a: usize, b: usize)
        requires
            old(self).inv(),
        ensures
            final(self).inv(),
            a < old(self).contents().len() && b < old(self).contents().len() ==> {
                &&& final(self).contents().len() == old(self).contents().len()
                &&& forall|k: int|
                    0 <= k < old(self).contents().len() && k != b ==> final(self).contents()[k]
                        == old(self).contents()[k]
                &&& old(self).copies_to(a as int, b as int, final(self).contents()[b as int])
            },
            !(a < old(self).contents().len() && b < old(self).contents().len())
                ==> final(self).contents() == old(self).contents(),
    ;

    /// Convert a row number to its index in the underlying collection:
    /// the identity for valid rows.
    fn row_to_index(&self, row_number: usize) -> (r: Option<usize>)
        requires
            self.inv(),
        ensures
            r == if (row_number as int) < self.contents().len() {
                Some(row_number)
            } else {
                None::<usize>
            },
    ;
}

// Where a method name collides with one of Vec's own (len, insert, remove),
// the body rebinds `self` as a plain `&Vec` so that the call below goes,
// explicitly, to Vec's inherent method.
impl<I: ViewItem> ListModel<I> for Vec<I> {
    open spec fn contents(&self) -> Seq<I> {
        self@
    }

    open spec fn inv(&self) -> bool {
        true
    }

    /// `add` appends at the end.
    open spec fn spec_add(&self, item: I) -> Seq<I> {
        self@.push(item)
    }

    /// `insert` shifts the successors of `index`; out of bounds is a no-op.
    open spec fn spec_insert(&self, index: int, item: I) -> Seq<I> {
        if 0 <= index <= self@.len() {
            self@.insert(index, item)
        } else {
            self@
        }
    }

    /// `copy` is a plain overwrite of slot `b` with the item at `a`.
    open spec fn copies_to(&self, a: int, b: int, it: I) -> bool {
        it == self@[a]
    }

    open spec fn replace_ok(&self, index: int, item: I) -> bool {
        true
    }

    fn is_empty(&self) -> (r: bool) {
        self.len() == 0
    }

    fn len(&self) -> (r: usize) {
        let v: &Vec<I> = self;
        v.len()
    }

    fn item(&self, index: usize) -> (r: Option<&I>) {
        let v: &Vec<I> = self;
        if index < v.len() {
            Some(&v[index])
        } else {
            None
        }
    }

    fn item_mut(&mut self, index: usize) -> (r: Option<&mut I>) {
        if index < self.len() {
            Some(&mut self[index])
        } else {
            None
        }
    }

    fn add(&mut self, item: I) {
        self.push(item);
    }

    fn insert(&mut self, index: usize, item: I) {
        let v: &mut Vec<I> = self;
        if index <= v.len() {
            v.insert(index, item);
        }
    }

    fn remove(&mut self, index: usize) {
        let v: &mut Vec<I> = self;
        if index < v.len() {
            let _removed = v.remove(index);
        }
    }

    fn swap_items(&mut self, a: usize, b: usize) {
        let v: &mut Vec<I> = self;
        if a < v.len() && b < v.len() {
            let item_a = v[a].clone_item();
            let item_b = v[b].clone_item();
            v.set(a, item_b);
            v.set(b, item_a);
        }
    }

    fn copy(&mut self, a: usize, b: usize) {
        let v: &mut Vec<I> = self;
        if a < v.len() && b < v.len() {
            let c = v[a].clone_item();
            v.set(b, c);
        }
    }

    fn row_to_index(&self, row_number: usize) -> (r: Option<usize>) {
        let v: &Vec<I> = self;
        if row_number < v.len() {
            Some(row_number)
        } else {
            None
        }
    }
}

/// All keys in `s` are pairwise distinct.
pub open spec fn keys_distinct<I: KeyedViewItem>(s: Seq<I>) -> bool {
    forall|i: int, j: int|
        0 <= i < j < s.len() ==> #[trigger] s[i].spec_key() != #[trigger] s[j].spec_key()
}

/// Length accounting for the sequential backing: `add` always grows the
/// model by one, `insert` grows it by one exactly when the index is valid;
/// together with the exact contracts of `remove`, `swap_items` and `copy`,
/// the length after any call sequence is the number of successful adds and
/// inserts minus the number of successful removes, and each slot holds the
/// last item placed there.
pub proof fn lemma_seq_len_accounting<I: ViewItem>(v: &Vec<I>, index: int, item: I)
    ensures
        v.spec_add(item).len() == v@.len() + 1int,
        v.spec_insert(index, item).len() == if 0 <= index <= v@.len() {
            v@.len() + 1int
        } else {
            v@.len() as int
        },
{
}

/// Whether some item in `s` carries the key `key`.
pub open spec fn has_key<I: KeyedViewItem>(s: Seq<I>, key: Seq<char>) -> bool {
    exists|i: int| 0 <= i < s.len() && #[trigger] s[i].spec_key() == key
}

/// The index of the item carrying `key` (meaningful only when `has_key`
/// holds and keys are pairwise distinct).
pub open spec fn key_index<I: KeyedViewItem>(s: Seq<I>, key: Seq<char>) -> int {
    choose|i: int| 0 <= i < s.len() && #[trigger] s[i].spec_key() == key
}

/// In a sequence with pairwise-distinct keys, the position carrying the key
/// of the item at `j` is `j` itself.
pub proof fn lemma_key_index_agrees<I: KeyedViewItem>(s: Seq<I>, j: int)
    requires
        keys_distinct(s),
        0 <= j < s.len(),
    ensures
        has_key(s, s[j].spec_key()),
        key_index(s, s[j].spec_key()) == j,
{
    let key = s[j].spec_key();
    assert(has_key(s, key));
    let i = key_index(s, key);
    assert(0 <= i < s.len() && s[i].spec_key() == key);
    if i != j {
        assert(false);
    }
}

/// A [`ListModel`] of items which have a unique key.
pub trait KeyedListModel<I: KeyedViewItem>: ListModel<I> {
    /// The invariant of a keyed backing forces pairwise-distinct keys.
    proof fn lemma_keys_distinct(&self)
        requires
            self.inv(),
        ensures
            keys_distinct(self.contents()),
    ;

    /// Retrieve the index of an item from its key.
    fn index_of(&self, key: &str) -> (r: Option<usize>)
        requires
            self.inv(),
        ensures
            match r {
                Some(i) => i < self.contents().len() && self.contents()[i as int].spec_key()
                    == key@,
                None => !has_key(self.contents(), key@),
            },
    ;

    /// Retrieve the item carrying `key` (if present).
    fn item_keyed(&self, key: &str) -> (r: Option<&I>)
        requires
            self.inv(),
        ensures
            match r {
                Some(it) => has_key(self.contents(), key@) && it.spec_key() == key@
                    && self.contents().contains(*it),
                None => !has_key(self.contents(), key@),
            },
    {
        match self.index_of(key) {
            Some(index) => {
                let r = self.item(index);
                proof {
                    assert(self.contents().contains(self.contents()[index as int]));
                }
                r
            },
            None => None,
        }
    }

    /// Whether an item carrying `key` is present.
    fn contains(&self, key: &str) -> (r: bool)
        requires
            self.inv(),
        ensures
            r == has_key(self.contents(), key@),
    {
        self.index_of(key).is_some()
    }
}

} // verus!
