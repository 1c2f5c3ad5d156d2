//! An ordered-collection abstraction ("model") for list-backed UI widgets,
//! together with the state machine of a searchable drop-down selector.
//!
//! The model side offers one uniform contract (`ListModel`) honored by two
//! backings: a plain position-addressed sequence (`Vec`) and a key-addressed,
//! insertion-ordered map enforcing key uniqueness (`KeyedModel`). The selector
//! side keeps per-widget state (search text, popup-open flag) across render
//! passes and computes, each pass, the filtered rows and the committed
//! selection. Rendering itself is left to the host application.

pub mod drop_down;
pub mod item_model;
pub mod keyed_model;
pub mod label_item;
pub mod text;
