//! A minimal built-in item: a unique string key and a display text.
//!
//! Models usually hold application-defined item types; this one exists so
//! that the model backings and the selector can be exercised without a host
//! application supplying its own.

use vstd::prelude::*;

verus! {

use crate::item_model::{KeyedViewItem, ViewItem};

/// An item holding nothing but its key and its display text.
pub struct LabelItem {
    /// The unique key.
    pub key: String,
    /// The display text.
    pub text: String,
}

impl LabelItem {
    /// A labelled item with the given key and display text.
    pub fn new(key: String, text: String) -> (it: Self)
        ensures
            it.spec_key() == key@,
            it.spec_text() == text@,
    {
        LabelItem { key, text }
    }
}

impl ViewItem for LabelItem {
    open spec fn spec_text(&self) -> Seq<char> {
        self.text@
    }

    fn text(&self) -> (t: String) {
        self.text.clone()
    }

    fn clone_item(&self) -> (c: Self) {
        LabelItem { key: self.key.clone(), text: self.text.clone() }
    }
}

impl KeyedViewItem for LabelItem {
    open spec fn spec_key(&self) -> Seq<char> {
        self.key@
    }

    open spec fn key_replaced(original: Self, updated: Self, key: Seq<char>) -> bool {
        updated.key@ == key && updated.text == original.text
    }

    proof fn lemma_key_replaced(original: Self, updated: Self, key: Seq<char>) {
    }

    fn key(&self) -> (k: String) {
        self.key.clone()
    }

    fn set_key(&mut self, key: String) {
        self.key = key;
    }
}

} // verus!
