//! The searchable drop-down selector: a per-widget state machine driven once
//! per render pass.
//!
//! The widget owns no data. Each pass it reads the model, computes the text
//! shown in its input box, the rows that pass the live filter, and — on a
//! commit — the chosen index or key, which it writes back into caller-owned
//! storage. The persisted per-widget state (search text, popup-open flag) is
//! carried between passes by the host's session-scoped store.
//!
//! Transitions: gaining focus always clears the search text and opens the
//! popup; every keystroke is persisted; clicking a visible row persists that
//! row's display text, closes the popup and commits the row; clicking
//! outside closes the popup without a selection change; a forced refresh
//! overwrites the persisted text with the current selection's display text.

use vstd::prelude::*;

verus! {

use crate::item_model::{
    has_key, key_index, lemma_key_index_agrees, KeyedListModel, KeyedViewItem, ListModel, ViewItem,
};
use crate::text::{row_passes, row_visible};

/// Ephemeral per-widget state, persisted across render passes by the host.
pub struct WidgetState {
    /// The live search text.
    pub search_text: String,
    /// Whether the popup below the input box is open.
    pub popup_open: bool,
}

/// The mathematical value of a [`WidgetState`].
pub struct StateModel {
    pub search: Seq<char>,
    pub open: bool,
}

impl View for WidgetState {
    type V = StateModel;

    open spec fn view(&self) -> StateModel {
        StateModel { search: self.search_text@, open: self.popup_open }
    }
}

impl WidgetState {
    /// The state a widget is given on first touch: empty search, closed.
    pub fn new() -> (s: Self)
        ensures
            s@.search == Seq::<char>::empty(),
            !s@.open,
    {
        WidgetState { search_text: String::new(), popup_open: false }
    }
}

/// What the host observed on the widget during one render pass.
pub enum SelectorEvent {
    /// Nothing happened.
    Idle,
    /// The input box gained focus.
    GainedFocus,
    /// The user edited the search text.
    TextChanged(String),
    /// The user clicked the visible row holding this model index.
    RowClicked(usize),
    /// The user clicked outside the popup.
    ClickedOutside,
}

/// The display text of the current selection: the selected item's text, or
/// empty when nothing (or nothing valid) is selected.
pub open spec fn display_text_of<I: ViewItem>(s: Seq<I>, selected: Option<usize>) -> Seq<char> {
    match selected {
        Some(i) => if (i as int) < s.len() {
            s[i as int].spec_text()
        } else {
            Seq::empty()
        },
        None => Seq::empty(),
    }
}

/// The outcome of one render pass, at the specification level.
pub struct StepModel {
    /// The widget state carried to the next pass.
    pub state: StateModel,
    /// The text shown in the input box this pass.
    pub shown: Seq<char>,
    /// The committed row, if a visible row was clicked.
    pub selection: Option<usize>,
}

/// One step of the selector state machine. The text phase decides what the
/// input box shows and persists (focus clears it, a forced refresh or a
/// keystroke overwrites it); the commit phase closes the popup and emits the
/// selection when a row was clicked.
pub open spec fn selector_step<I: ViewItem>(
    st: StateModel,
    items: Seq<I>,
    selected: Option<usize>,
    force_refresh: bool,
    event: SelectorEvent,
) -> StepModel {
    let display = display_text_of(items, selected);
    let shown = match event {
        SelectorEvent::GainedFocus => Seq::<char>::empty(),
        SelectorEvent::TextChanged(t) => if force_refresh {
            display
        } else {
            t@
        },
        _ => if force_refresh {
            display
        } else if st.open {
            st.search
        } else {
            display
        },
    };
    let persisted = match event {
        SelectorEvent::GainedFocus => Seq::<char>::empty(),
        SelectorEvent::TextChanged(t) => if force_refresh {
            display
        } else {
            t@
        },
        _ => if force_refresh {
            display
        } else {
            st.search
        },
    };
    let open_now = match event {
        SelectorEvent::GainedFocus => true,
        _ => st.open,
    };
    match event {
        SelectorEvent::RowClicked(i) => if (i as int) < items.len() {
            StepModel {
                state: StateModel { search: items[i as int].spec_text(), open: false },
                shown,
                selection: Some(i),
            }
        } else {
            StepModel {
                state: StateModel { search: persisted, open: open_now },
                shown,
                selection: None,
            }
        },
        SelectorEvent::ClickedOutside => StepModel {
            state: StateModel { search: persisted, open: false },
            shown,
            selection: None,
        },
        _ => StepModel {
            state: StateModel { search: persisted, open: open_now },
            shown,
            selection: None,
        },
    }
}

/// The rows of the first `n` items that pass the filter, in model order.
pub open spec fn visible_prefix<I: ViewItem>(s: Seq<I>, search: Seq<char>, n: int) -> Seq<int>
    decreases n,
{
    if n <= 0 {
        Seq::empty()
    } else if row_visible(s[n - 1].spec_text(), search) {
        visible_prefix(s, search, n - 1).push(n - 1)
    } else {
        visible_prefix(s, search, n - 1)
    }
}

/// The rows visible under `search`: exactly the indices whose display text
/// contains the search text (all of them when it is empty), in model order.
pub open spec fn visible_rows_of<I: ViewItem>(s: Seq<I>, search: Seq<char>) -> Seq<int> {
    visible_prefix(s, search, s.len() as int)
}

/// Compute the visible rows of `model` under `search`.
pub fn visible_rows<I: ViewItem, M: ListModel<I>>(model: &M, search: &str) -> (rows: Vec<usize>)
    requires
        model.inv(),
    ensures
        rows@.len() == visible_rows_of(model.contents(), search@).len(),
        forall|k: int|
            0 <= k < rows@.len() ==> #[trigger] rows@[k] as int == visible_rows_of(
                model.contents(),
                search@,
            )[k],
{
    let ghost s = model.contents();
    let n = model.len();
    let mut rows: Vec<usize> = Vec::new();
    let mut i: usize = 0;
    while i < n
        invariant
            model.inv(),
            s == model.contents(),
            n == s.len(),
            i <= n,
            rows@.len() == visible_prefix(s, search@, i as int).len(),
            forall|k: int|
                0 <= k < rows@.len() ==> #[trigger] rows@[k] as int == visible_prefix(
                    s,
                    search@,
                    i as int,
                )[k],
        decreases n - i,
    {
        match model.item(i) {
            Some(item) => {
                let t = item.text();
                if row_passes(t.as_str(), search) {
                    rows.push(i);
                }
            },
            None => {
                proof {
                    assert(false);
                }
            },
        }
        i += 1;
    }
    rows
}

/// The visible rows are exactly the matching ones: every listed row is in
/// bounds and passes the filter, the listing is strictly increasing (model
/// order, deterministic and stable), and every row that passes the filter
/// is listed.
pub proof fn lemma_visible_rows_exact<I: ViewItem>(s: Seq<I>, search: Seq<char>)
    ensures
        forall|k: int|
            0 <= k < visible_rows_of(s, search).len() ==> 0 <= #[trigger] visible_rows_of(
                s,
                search,
            )[k] < s.len() && row_visible(s[visible_rows_of(s, search)[k]].spec_text(), search),
        forall|k1: int, k2: int|
            0 <= k1 < k2 < visible_rows_of(s, search).len() ==> visible_rows_of(s, search)[k1]
                < visible_rows_of(s, search)[k2],
        forall|i: int|
            0 <= i < s.len() && row_visible(#[trigger] s[i].spec_text(), search)
                ==> visible_rows_of(s, search).contains(i),
{
    lemma_visible_prefix_exact(s, search, s.len() as int);
}

proof fn lemma_visible_prefix_exact<I: ViewItem>(s: Seq<I>, search: Seq<char>, n: int)
    requires
        0 <= n <= s.len(),
    ensures
        forall|k: int|
            0 <= k < visible_prefix(s, search, n).len() ==> 0 <= #[trigger] visible_prefix(
                s,
                search,
                n,
            )[k] < n && row_visible(s[visible_prefix(s, search, n)[k]].spec_text(), search),
        forall|k1: int, k2: int|
            0 <= k1 < k2 < visible_prefix(s, search, n).len() ==> visible_prefix(s, search, n)[k1]
                < visible_prefix(s, search, n)[k2],
        forall|i: int|
            0 <= i < n && row_visible(#[trigger] s[i].spec_text(), search) ==> visible_prefix(
                s,
                search,
                n,
            ).contains(i),
    decreases n,
{
    if n > 0 {
        lemma_visible_prefix_exact(s, search, n - 1);
        let prev = visible_prefix(s, search, n - 1);
        let cur = visible_prefix(s, search, n);
        assert forall|i: int|
            0 <= i < n && row_visible(#[trigger] s[i].spec_text(), search) implies cur.contains(
            i,
        ) by {
            if i == n - 1 {
                assert(cur[prev.len() as int] == n - 1);
            } else {
                assert(prev.contains(i));
                let k = choose|k: int| 0 <= k < prev.len() && prev[k] == i;
                assert(cur[k] == i);
            }
        }
    }
}

/// With an empty search text, every row is visible, in original model order.
pub proof fn lemma_empty_search_shows_all<I: ViewItem>(s: Seq<I>, search: Seq<char>)
    requires
        search.len() == 0,
    ensures
        visible_rows_of(s, search).len() == s.len(),
        forall|k: int| 0 <= k < s.len() ==> #[trigger] visible_rows_of(s, search)[k] == k,
{
    lemma_empty_search_prefix(s, search, s.len() as int);
}

proof fn lemma_empty_search_prefix<I: ViewItem>(s: Seq<I>, search: Seq<char>, n: int)
    requires
        search.len() == 0,
        0 <= n <= s.len(),
    ensures
        visible_prefix(s, search, n).len() == n,
        forall|k: int| 0 <= k < n ==> #[trigger] visible_prefix(s, search, n)[k] == k,
    decreases n,
{
    if n > 0 {
        lemma_empty_search_prefix(s, search, n - 1);
    }
}

/// Gaining focus always resets the persisted search text to empty and opens
/// the popup, whatever search text a prior selection or keystroke left
/// behind, and commits nothing.
pub proof fn lemma_focus_clears_search<I: ViewItem>(
    st: StateModel,
    items: Seq<I>,
    selected: Option<usize>,
    force_refresh: bool,
)
    ensures
        ({
            let step = selector_step(st, items, selected, force_refresh, SelectorEvent::GainedFocus);
            &&& step.state.search == Seq::<char>::empty()
            &&& step.state.open
            &&& step.selection is None
        }),
{
}

/// A forced refresh overwrites the persisted search text with the current
/// selection's display text, regardless of any unsaved user-typed text
/// (a click in the same pass, which happens later, takes precedence).
pub proof fn lemma_force_refresh_overwrites<I: ViewItem>(
    st: StateModel,
    items: Seq<I>,
    selected: Option<usize>,
    event: SelectorEvent,
)
    requires
        !(event matches SelectorEvent::GainedFocus),
        !(event matches SelectorEvent::RowClicked(_)),
    ensures
        selector_step(st, items, selected, true, event).state.search == display_text_of(
            items,
            selected,
        ),
{
}

/// Clicking a visible row commits that row, persists its display text as
/// the search text, and closes the popup.
pub proof fn lemma_click_commits_row<I: ViewItem>(
    st: StateModel,
    items: Seq<I>,
    selected: Option<usize>,
    force_refresh: bool,
    i: usize,
)
    requires
        (i as int) < items.len(),
    ensures
        ({
            let step = selector_step(
                st,
                items,
                selected,
                force_refresh,
                SelectorEvent::RowClicked(i),
            );
            &&& step.selection == Some(i)
            &&& step.state.search == items[i as int].spec_text()
            &&& !step.state.open
        }),
{
}

/// What one render pass hands back to the host.
pub struct FrameOutcome {
    /// The text to show in the input box.
    pub search_shown: String,
    /// The model indices of the rows to render, in model order.
    pub visible: Vec<usize>,
    /// The committed row, if a visible row was clicked.
    pub selection: Option<usize>,
}

/// Run one render pass of the selector: update the persisted state for
/// `event`, and compute the shown text, the filtered rows and the committed
/// selection, exactly as [`selector_step`] and [`visible_rows_of`] say.
pub fn show_frame<I: ViewItem, M: ListModel<I>>(
    state: &mut WidgetState,
    model: &M,
    selected_index: Option<usize>,
    force_refresh: bool,
    event: &SelectorEvent,
) -> (out: FrameOutcome)
    requires
        model.inv(),
    ensures
        ({
            let step = selector_step(
                old(state)@,
                model.contents(),
                selected_index,
                force_refresh,
                *event,
            );
            &&& final(state)@ == step.state
            &&& out.search_shown@ == step.shown
            &&& out.selection == step.selection
            &&& out.visible@.len() == visible_rows_of(model.contents(), step.shown).len()
            &&& forall|k: int|
                0 <= k < out.visible@.len() ==> #[trigger] out.visible@[k] as int
                    == visible_rows_of(model.contents(), step.shown)[k]
        }),
{
    let display_text = match selected_index {
        Some(i) => match model.item(i) {
            Some(item) => item.text(),
            None => String::new(),
        },
        None => String::new(),
    };
    let shown: String = match event {
        SelectorEvent::GainedFocus => {
            state.search_text = String::new();
            state.popup_open = true;
            String::new()
        },
        SelectorEvent::TextChanged(t) => {
            if force_refresh {
                state.search_text = display_text.clone();
                display_text.clone()
            } else {
                state.search_text = t.clone();
                t.clone()
            }
        },
        _ => {
            if force_refresh {
                state.search_text = display_text.clone();
                display_text.clone()
            } else if state.popup_open {
                state.search_text.clone()
            } else {
                display_text.clone()
            }
        },
    };
    let visible = visible_rows(model, shown.as_str());
    let selection: Option<usize> = match event {
        SelectorEvent::RowClicked(i) => {
            match model.item(*i) {
                Some(item) => {
                    state.search_text = item.text();
                    state.popup_open = false;
                    Some(*i)
                },
                None => None,
            }
        },
        SelectorEvent::ClickedOutside => {
            state.popup_open = false;
            None
        },
        _ => None,
    };
    FrameOutcome { search_shown: shown, visible, selection }
}

/// The view of a caller-held optional key.
pub open spec fn key_view(key: Option<String>) -> Option<Seq<char>> {
    match key {
        Some(k) => Some(k@),
        None => None,
    }
}

/// The model index a caller-held key resolves to: the unique position
/// carrying the key, or none when the key is absent or not held.
pub open spec fn resolved_index<I: KeyedViewItem>(s: Seq<I>, key: Option<Seq<char>>) -> Option<
    usize,
> {
    match key {
        Some(k) => if has_key(s, k) {
            Some(key_index(s, k) as usize)
        } else {
            None
        },
        None => None,
    }
}

/// Builder-style configuration of the searchable drop-down selector.
pub struct ModelDropDown {
    /// Overwrite the persisted search text with the current selection's
    /// display text this pass (used when the model or the selection changed
    /// out of band).
    pub force_refresh: bool,
}

impl Default for ModelDropDown {
    fn default() -> (d: Self)
        ensures
            !d.force_refresh,
    {
        ModelDropDown { force_refresh: false }
    }
}

impl ModelDropDown {
    /// A selector with no forced refresh.
    pub fn new() -> (d: Self)
        ensures
            !d.force_refresh,
    {
        ModelDropDown { force_refresh: false }
    }

    /// Request that the persisted search text be overwritten with the
    /// current selection's display text this pass.
    pub fn force_refresh(self, force_refresh: bool) -> (d: Self)
        ensures
            d.force_refresh == force_refresh,
    {
        ModelDropDown { force_refresh }
    }

    /// Key-mode render pass: resolve the caller-held key to a model index,
    /// run the pass, and on commit write the chosen row's key back.
    pub fn show<I: KeyedViewItem, M: KeyedListModel<I>>(
        &self,
        state: &mut WidgetState,
        model: &M,
        key: &mut Option<String>,
        event: &SelectorEvent,
    ) -> (out: FrameOutcome)
        requires
            model.inv(),
        ensures
            ({
                let s = model.contents();
                let step = selector_step(
                    old(state)@,
                    s,
                    resolved_index(s, key_view(*old(key))),
                    self.force_refresh,
                    *event,
                );
                &&& final(state)@ == step.state
                &&& out.search_shown@ == step.shown
                &&& out.selection == step.selection
                &&& out.visible@.len() == visible_rows_of(s, step.shown).len()
                &&& forall|k: int|
                    0 <= k < out.visible@.len() ==> #[trigger] out.visible@[k] as int
                        == visible_rows_of(s, step.shown)[k]
                &&& match step.selection {
                    Some(i) => *final(key) matches Some(k2) && k2@ == s[i as int].spec_key(),
                    None => *final(key) == *old(key),
                }
            }),
    {
        proof {
            model.lemma_keys_distinct();
        }
        let resolved: Option<usize> = match &*key {
            Some(k) => {
                let found = model.index_of(k.as_str());
                proof {
                    match found {
                        Some(i) => {
                            lemma_key_index_agrees(model.contents(), i as int);
                        },
                        None => {},
                    }
                }
                found
            },
            None => None,
        };
        let out = show_frame(state, model, resolved, self.force_refresh, event);
        match out.selection {
            Some(i) => {
                match model.item(i) {
                    Some(item) => {
                        *key = Some(item.key());
                    },
                    None => {
                        proof {
                            assert(false);
                        }
                    },
                }
            },
            None => {},
        }
        out
    }

    /// Index-mode render pass: operate directly on a caller-held optional
    /// index, bypassing key translation.
    pub fn show_indexed<I: ViewItem, M: ListModel<I>>(
        &self,
        state: &mut WidgetState,
        model: &M,
        index: &mut Option<usize>,
        event: &SelectorEvent,
    ) -> (out: FrameOutcome)
        requires
            model.inv(),
        ensures
            ({
                let step = selector_step(
                    old(state)@,
                    model.contents(),
                    *old(index),
                    self.force_refresh,
                    *event,
                );
                &&& final(state)@ == step.state
                &&& out.search_shown@ == step.shown
                &&& out.selection == step.selection
                &&& out.visible@.len() == visible_rows_of(model.contents(), step.shown).len()
                &&& forall|k: int|
                    0 <= k < out.visible@.len() ==> #[trigger] out.visible@[k] as int
                        == visible_rows_of(model.contents(), step.shown)[k]
                &&& *final(index) == match step.selection {
                    Some(i) => Some(i),
                    None => *old(index),
                }
            }),
    {
        let current: Option<usize> = *index;
        let out = show_frame(state, model, current, self.force_refresh, event);
        match out.selection {
            Some(i) => {
                *index = Some(i);
            },
            None => {},
        }
        out
    }
}

} // verus!
