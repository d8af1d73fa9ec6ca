//! The code selections that editors report, per window, from which the
//! agent takes context automatically: a window's selection is used only
//! when exactly one editor in it reports one.
use std::collections::HashMap;
use std::ops::Range;

use vstd::prelude::*;

verus! {

/// Identifies a window.
pub type WindowId = u64;

/// Identifies the editor that reports a selection.
pub type EntityId = u64;

/// A selection in a file.
#[derive(Debug, Eq, PartialEq)]
pub struct CodeSelectionContext {
    pub relative_file_path: String,
    pub line_range: Range<usize>,
    pub selected_text: String,
}

/// A selection as plain values.
pub struct SelectionContextView {
    pub relative_file_path: Seq<char>,
    pub start: usize,
    pub end: usize,
    pub selected_text: Seq<char>,
}

impl View for CodeSelectionContext {
    type V = SelectionContextView;

    open spec fn view(&self) -> SelectionContextView {
        SelectionContextView {
            relative_file_path: self.relative_file_path@,
            start: self.line_range.start,
            end: self.line_range.end,
            selected_text: self.selected_text@,
        }
    }
}

/// A copy of `s`.
pub fn copy_selection(s: &CodeSelectionContext) -> (r: CodeSelectionContext)
    ensures
        r@ == s@,
{
    CodeSelectionContext {
        relative_file_path: s.relative_file_path.clone(),
        line_range: Range { start: s.line_range.start, end: s.line_range.end },
        selected_text: s.selected_text.clone(),
    }
}

impl Clone for CodeSelectionContext {
    fn clone(&self) -> (r: Self)
        ensures
            r@ == self@,
    {
        copy_selection(self)
    }
}

/// The selections of each window, by the editor that reports them.
pub struct AutoCodeSelectionContextModel {
    selections_by_window: HashMap<WindowId, HashMap<EntityId, CodeSelectionContext>>,
}

/// The selections as plain values.
pub type SelectionsView = Map<WindowId, Map<EntityId, SelectionContextView>>;

pub open spec fn inner_view(m: HashMap<EntityId, CodeSelectionContext>) -> Map<EntityId, SelectionContextView> {
    m@.map_values(|s: CodeSelectionContext| s@)
}

/// No window is kept with no selections.
pub open spec fn no_empty_window(m: SelectionsView) -> bool {
    forall|w: WindowId| #[trigger] m.contains_key(w) ==> m[w].len() > 0 && m[w].dom().finite()
}

/// Forgets the selection that editor `source_id` reported in window
/// `window_id`; a window left with no selections is dropped.
pub open spec fn spec_remove_selection(m: SelectionsView, window_id: WindowId, source_id: EntityId) -> SelectionsView {
    if m.contains_key(window_id) {
        let inner = m[window_id].remove(source_id);
        if inner.len() == 0 {
            m.remove(window_id)
        } else {
            m.insert(window_id, inner)
        }
    } else {
        m
    }
}

/// Records the selection that editor `source_id` reports in window
/// `window_id`; no selection forgets the one it reported before.
pub open spec fn spec_set_selection(
    m: SelectionsView,
    window_id: WindowId,
    source_id: EntityId,
    selection: Option<SelectionContextView>,
) -> SelectionsView {
    match selection {
        None => spec_remove_selection(m, window_id, source_id),
        Some(s) => {
            let inner = if m.contains_key(window_id) {
                m[window_id]
            } else {
                Map::empty()
            };
            m.insert(window_id, inner.insert(source_id, s))
        },
    }
}

/// The selection of a window in which exactly one editor reports one.
pub open spec fn spec_unique_selection(m: SelectionsView, window_id: WindowId) -> Option<SelectionContextView> {
    if m.contains_key(window_id) && m[window_id].len() == 1 {
        Some(m[window_id][choose|k: EntityId| m[window_id].contains_key(k)])
    } else {
        None
    }
}

impl View for AutoCodeSelectionContextModel {
    type V = SelectionsView;

    closed spec fn view(&self) -> SelectionsView {
        self.selections_by_window@.map_values(|m: HashMap<EntityId, CodeSelectionContext>| inner_view(m))
    }
}

impl AutoCodeSelectionContextModel {
    #[verifier::type_invariant]
    closed spec fn wf(self) -> bool {
        &&& self.selections_by_window@.dom().finite()
        &&& no_empty_window(self@)
    }

    /// No selections.
    pub fn new() -> (model: Self)
        ensures
            model@ == SelectionsView::empty(),
            no_empty_window(model@),
    {
        broadcast use vstd::std_specs::hash::group_hash_axioms;

        let model = AutoCodeSelectionContextModel { selections_by_window: HashMap::new() };
        assert(model@ =~= SelectionsView::empty());
        model
    }

    /// Records or forgets the selection of editor `source_id` in window
    /// `window_id` (see `spec_set_selection`).
    pub fn set_selection(
        &mut self,
        window_id: WindowId,
        source_id: EntityId,
        selection: Option<CodeSelectionContext>,
    )
        ensures
            final(self)@ == spec_set_selection(
                old(self)@,
                window_id,
                source_id,
                match selection {
                    Some(s) => Some(s@),
                    None => None,
                },
            ),
            no_empty_window(final(self)@),
    {
        broadcast use vstd::std_specs::hash::group_hash_axioms;

        let selection = match selection {
            None => {
                self.remove_selection(window_id, source_id);
                return ;
            },
            Some(s) => s,
        };
        proof {
            use_type_invariant(&*self);
        }
        let ghost before = self@;
        let mut outer = HashMap::new();
        std::mem::swap(&mut outer, &mut self.selections_by_window);
        let mut inner = match outer.remove(&window_id) {
            Some(inner) => inner,
            None => {
                let fresh: HashMap<EntityId, CodeSelectionContext> = HashMap::new();
                assert(inner_view(fresh) =~= Map::<EntityId, SelectionContextView>::empty());
                fresh
            },
        };
        let ghost old_inner = inner_view(inner);
        assert(old_inner == (if before.contains_key(window_id) {
            before[window_id]
        } else {
            Map::<EntityId, SelectionContextView>::empty()
        }));
        inner.insert(source_id, selection);
        assert(inner_view(inner) =~= old_inner.insert(source_id, selection@));
        outer.insert(window_id, inner);
        let ghost after = outer@.map_values(|m: HashMap<EntityId, CodeSelectionContext>| inner_view(m));
        assert(after =~= spec_set_selection(before, window_id, source_id, Some(selection@)));
        assert(no_empty_window(after)) by {
            assert forall|w: WindowId| #[trigger] after.contains_key(w) implies after[w].len() > 0
                && after[w].dom().finite() by {
                if w != window_id {
                    assert(before.contains_key(w));
                } else {
                    assert(after[w].contains_key(source_id));
                    assert(after[w].dom().contains(source_id));
                }
            }
        }
        self.selections_by_window = outer;
    }

    /// Forgets the selection of editor `source_id` in window `window_id`
    /// (see `spec_remove_selection`).
    pub fn remove_selection(&mut self, window_id: WindowId, source_id: EntityId)
        ensures
            final(self)@ == spec_remove_selection(old(self)@, window_id, source_id),
            no_empty_window(final(self)@),
    {
        broadcast use vstd::std_specs::hash::group_hash_axioms;

        proof {
            use_type_invariant(&*self);
        }
        let ghost before = self@;
        let mut outer = HashMap::new();
        std::mem::swap(&mut outer, &mut self.selections_by_window);
        match outer.remove(&window_id) {
            Some(mut inner) => {
                let ghost old_inner = inner_view(inner);
                inner.remove(&source_id);
                assert(inner_view(inner) =~= old_inner.remove(source_id));
                if inner.len() != 0 {
                    outer.insert(window_id, inner);
                } else {
                    assert(inner_view(inner).dom() =~= inner@.dom());
                }
            },
            None => {},
        }
        let ghost after = outer@.map_values(|m: HashMap<EntityId, CodeSelectionContext>| inner_view(m));
        assert(after =~= spec_remove_selection(before, window_id, source_id));
        assert(no_empty_window(after)) by {
            assert forall|w: WindowId| #[trigger] after.contains_key(w) implies after[w].len() > 0
                && after[w].dom().finite() by {
                if w != window_id {
                    assert(before.contains_key(w));
                }
            }
        }
        self.selections_by_window = outer;
    }

    /// Whether any editor in window `window_id` reports a selection.
    pub fn has_selections_for_window(&self, window_id: WindowId) -> (r: bool)
        ensures
            r == self@.contains_key(window_id),
    {
        broadcast use vstd::std_specs::hash::group_hash_axioms;

        self.selections_by_window.contains_key(&window_id)
    }

    /// The selection of window `window_id` when exactly one editor in it
    /// reports one (see `spec_unique_selection`).
    pub fn unique_selection_for_window(&self, window_id: WindowId) -> (r: Option<CodeSelectionContext>)
        ensures
            match r {
                Some(s) => spec_unique_selection(self@, window_id) == Some(s@),
                None => spec_unique_selection(self@, window_id) is None,
            },
    {
        broadcast use vstd::std_specs::hash::group_hash_axioms;

        proof {
            use_type_invariant(self);
        }
        let inner = match self.selections_by_window.get(&window_id) {
            Some(inner) => inner,
            None => return None,
        };
        assert(inner_view(*inner).dom() =~= inner@.dom());
        assert(self@.contains_key(window_id) && self@[window_id] == inner_view(*inner));
        if inner.len() != 1 {
            return None;
        }
        let ghost k = choose|k: EntityId| inner_view(*inner).contains_key(k);
        assert(inner_view(*inner).contains_key(k)) by {
            assert(inner@.dom().len() > 0);
            let j = inner@.dom().choose();
            assert(inner_view(*inner).contains_key(j));
        }
        assert(inner@.dom() =~= set![k]) by {
            assert forall|j: EntityId| inner@.dom().contains(j) implies j == k by {
                if j != k {
                    assert(inner@.dom().remove(k).contains(j));
                    assert(inner@.dom().remove(k).len() == 0);
                }
            }
        }
        assert(inner@.values() =~= set![inner@[k]]);
        let mut found: Option<CodeSelectionContext> = None;
        for v in it: inner.values()
            invariant
                inner@.values() == set![inner@[k]],
                inner@.contains_key(k),
                it.seq().len() == 1,
                it.seq().unref().to_set() == inner@.values(),
                it.index() == 0 ==> found is None,
                it.index() > 0 ==> (found matches Some(f) && f@ == inner_view(*inner)[k]),
        {
            proof {
                assert(it.seq().unref().to_set().contains(*it.seq()[it.index() as int]));
                assert(*v == *it.seq()[it.index() as int]);
                assert(set![inner@[k]].contains(*v));
                assert(inner_view(*inner)[k] == inner@[k]@);
            }
            found = Some(copy_selection(v));
        }
        found
    }
}

impl Default for AutoCodeSelectionContextModel {
    /// No selections.
    fn default() -> (model: Self)
        ensures
            model@ == SelectionsView::empty(),
            no_empty_window(model@),
    {
        AutoCodeSelectionContextModel::new()
    }
}

/// Recording and forgetting selections never leaves a window with none.
pub proof fn lemma_updates_keep_no_empty_window(
    m: SelectionsView,
    window_id: WindowId,
    source_id: EntityId,
    selection: Option<SelectionContextView>,
)
    requires
        no_empty_window(m),
    ensures
        no_empty_window(spec_set_selection(m, window_id, source_id, selection)),
        no_empty_window(spec_remove_selection(m, window_id, source_id)),
{
    let r = spec_remove_selection(m, window_id, source_id);
    assert forall|w: WindowId| #[trigger] r.contains_key(w) implies r[w].len() > 0 && r[w].dom().finite() by {
        if w != window_id {
            assert(m.contains_key(w));
        }
    }
    if let Some(sel) = selection {
        let t = spec_set_selection(m, window_id, source_id, selection);
        assert forall|w: WindowId| #[trigger] t.contains_key(w) implies t[w].len() > 0
            && t[w].dom().finite() by {
            if w != window_id {
                assert(m.contains_key(w));
            } else {
                assert(t[w].dom().contains(source_id));
            }
        }
    }
}

/// The only selection of a window is the one used; when an editor's
/// selection is the only one in its window, forgetting it leaves the
/// window with none to use.
pub proof fn lemma_single_selection_is_unique(
    m: SelectionsView,
    window_id: WindowId,
    source_id: EntityId,
    selection: SelectionContextView,
)
    requires
        !m.contains_key(window_id),
    ensures
        ({
            let t = spec_set_selection(m, window_id, source_id, Some(selection));
            &&& spec_unique_selection(t, window_id) == Some(selection)
            &&& !spec_remove_selection(t, window_id, source_id).contains_key(window_id)
            &&& spec_unique_selection(spec_remove_selection(t, window_id, source_id), window_id) is None
        }),
{
    let t = spec_set_selection(m, window_id, source_id, Some(selection));
    let inner = Map::<EntityId, SelectionContextView>::empty().insert(source_id, selection);
    assert(t[window_id] == inner);
    assert(inner.dom() =~= set![source_id]);
    assert(inner.len() == 1);
    let k = choose|k: EntityId| inner.contains_key(k);
    assert(inner.contains_key(source_id));
    assert(k == source_id);
    assert(inner.remove(source_id).dom() =~= Set::<EntityId>::empty());
}

/// Two editors reporting selections in one window leave none to use.
pub proof fn lemma_two_selections_are_ambiguous(
    m: SelectionsView,
    window_id: WindowId,
    first: EntityId,
    second: EntityId,
    a: SelectionContextView,
    b: SelectionContextView,
)
    requires
        !m.contains_key(window_id),
        first != second,
    ensures
        ({
            let t = spec_set_selection(
                spec_set_selection(m, window_id, first, Some(a)),
                window_id,
                second,
                Some(b),
            );
            spec_unique_selection(t, window_id) is None
        }),
{
    let t = spec_set_selection(
        spec_set_selection(m, window_id, first, Some(a)),
        window_id,
        second,
        Some(b),
    );
    assert(t[window_id].dom() =~= set![first, second]);
    assert(set![first, second].len() == 2) by {
        assert(set![first].len() == 1);
        assert(!set![first].contains(second));
    }
}

} // verus!
