//! The table of instances: the full list, the part of it that the filter
//! lets through, and the selected row.

use vstd::prelude::*;
use crate::aws::InstanceInfo;
use crate::aws::InstanceInfoView;
use crate::aws::text_or_empty;
use crate::components::Action;
use crate::components::ActionView;
use crate::components::Event;
use crate::components::HandleAction;
use crate::components::KeyCode;
use crate::selection::first_index;
use crate::selection::first_position;
use crate::selection::next_index;
use crate::selection::next_position;
use crate::selection::previous_index;
use crate::selection::previous_position;
use crate::selection::selection_valid;
use crate::text::chars_of;
use crate::text::contains_chars;
use crate::text::is_substring;
use crate::text::lowercase;
use crate::text::to_lowercase;

verus! {

/// Whether a name passes a query, told from their lower-case forms and from
/// whether the query is empty: an empty query lets every name pass, another
/// one the names in which it occurs.
pub open spec fn passes_lowered(
    lowered_name: Seq<char>,
    query_is_empty: bool,
    lowered_query: Seq<char>,
) -> bool {
    query_is_empty || is_substring(lowered_query, lowered_name)
}

/// A name passes a query if the query is empty, or if the query occurs in the
/// name once both are put in lower case.
pub open spec fn name_matches(name: Seq<char>, query: Seq<char>) -> bool {
    passes_lowered(lowercase(name), query.len() == 0, lowercase(query))
}

/// The test that an instance's display name passes `query`.
pub open spec fn matching(query: Seq<char>) -> spec_fn(InstanceInfoView) -> bool {
    |instance: InstanceInfoView| name_matches(instance.name(), query)
}

/// The instances whose display name passes `query`, in their order.
pub open spec fn filter_by_name(items: Seq<InstanceInfoView>, query: Seq<char>) -> Seq<
    InstanceInfoView,
> {
    items.filter(matching(query))
}

/// One row of the table.
#[derive(Debug)]
pub struct TableRow {
    pub name: String,
    pub instance_id: String,
    pub private_ip: String,
    pub public_ip: String,
}

/// The mathematical content of a [`TableRow`].
pub struct TableRowView {
    pub name: Seq<char>,
    pub instance_id: Seq<char>,
    pub private_ip: Seq<char>,
    pub public_ip: Seq<char>,
}

impl DeepView for TableRow {
    type V = TableRowView;

    open spec fn deep_view(&self) -> TableRowView {
        TableRowView {
            name: self.name@,
            instance_id: self.instance_id@,
            private_ip: self.private_ip@,
            public_ip: self.public_ip@,
        }
    }
}

/// The row that shows an instance.
pub open spec fn row_of(instance: InstanceInfoView) -> TableRowView {
    TableRowView {
        name: instance.name(),
        instance_id: text_or_empty(instance.raw.instance_id),
        private_ip: text_or_empty(instance.raw.private_ip_address),
        public_ip: text_or_empty(instance.raw.public_ip_address),
    }
}

/// What a key asks of the table.
#[derive(Debug, Clone, Copy, PartialEq, Eq, Structural)]
pub enum KeyAction {
    NextItem,
    PreviousItem,
    AccessItem,
}

/// The state of an instance table.
pub struct InstanceTableView {
    pub items: Seq<InstanceInfoView>,
    pub visible: Seq<InstanceInfoView>,
    pub filter: Seq<char>,
    pub selected: Option<usize>,
}

impl InstanceTableView {
    /// The visible items are what the filter lets through, and a row is
    /// selected unless none is visible.
    pub open spec fn wf(self) -> bool {
        &&& self.visible == filter_by_name(self.items, self.filter)
        &&& selection_valid(self.selected, self.visible.len())
    }

    /// The table of the given items, unfiltered, with the first row selected.
    pub open spec fn of(items: Seq<InstanceInfoView>) -> InstanceTableView {
        InstanceTableView {
            items,
            visible: items,
            filter: Seq::empty(),
            selected: first_index(items.len()),
        }
    }

    /// The table filtered by `query`: computed from the full list, with the
    /// first visible row selected.
    pub open spec fn filtered(self, query: Seq<char>) -> InstanceTableView {
        let visible = filter_by_name(self.items, query);
        InstanceTableView {
            items: self.items,
            visible,
            filter: query,
            selected: first_index(visible.len()),
        }
    }

    /// The selection one row down, cyclically.
    pub open spec fn moved_next(self) -> InstanceTableView {
        InstanceTableView { selected: next_index(self.selected, self.visible.len()), ..self }
    }

    /// The selection one row up, cyclically.
    pub open spec fn moved_previous(self) -> InstanceTableView {
        InstanceTableView { selected: previous_index(self.selected, self.visible.len()), ..self }
    }

    /// The selected instance.
    pub open spec fn current(self) -> Option<InstanceInfoView> {
        match self.selected {
            Some(i) => Some(self.visible[i as int]),
            None => None,
        }
    }

    /// The state after a key's request. A table without visible rows stays
    /// as it is.
    pub open spec fn performed(self, action: Option<KeyAction>) -> InstanceTableView {
        if self.visible.len() == 0 {
            self
        } else {
            match action {
                Some(KeyAction::NextItem) => self.moved_next(),
                Some(KeyAction::PreviousItem) => self.moved_previous(),
                _ => self,
            }
        }
    }

    /// The answer to a key's request: the selected instance, handed over on
    /// access and shown otherwise; nothing without visible rows.
    pub open spec fn performed_answer(self, action: Option<KeyAction>) -> ActionView {
        match self.performed(action).current() {
            Some(instance) => if action == Some(KeyAction::AccessItem) {
                ActionView::ReturnInstance(instance)
            } else {
                ActionView::Select(instance)
            },
            None => ActionView::Noop,
        }
    }

    /// The rows shown: one for each visible instance.
    pub open spec fn rows(self) -> Seq<TableRowView> {
        Seq::new(self.visible.len(), |i: int| row_of(self.visible[i]))
    }

    /// What an event asks of the table, if anything.
    pub open spec fn request(event: Event) -> Option<KeyAction> {
        match event {
            Event::Key(KeyCode::Down) => Some(KeyAction::NextItem),
            Event::Key(KeyCode::Up) => Some(KeyAction::PreviousItem),
            Event::Key(KeyCode::Right) => Some(KeyAction::AccessItem),
            Event::Key(KeyCode::Enter) => Some(KeyAction::AccessItem),
            _ => None,
        }
    }

    /// The state after an event.
    pub open spec fn handled(self, event: Event) -> InstanceTableView {
        match Self::request(event) {
            Some(action) => self.performed(Some(action)),
            None => self,
        }
    }

    /// The action that answers an event.
    pub open spec fn answer(self, event: Event) -> ActionView {
        match Self::request(event) {
            Some(action) => self.performed_answer(Some(action)),
            None => match event {
                Event::Key(KeyCode::Char(c)) => if c == 'q' {
                    ActionView::Exit
                } else if c == '/' {
                    ActionView::Search
                } else if c == 'i' {
                    ActionView::ToggleInfoPanel
                } else {
                    ActionView::Noop
                },
                _ => ActionView::Noop,
            },
        }
    }
}

/// A query lets every name through if it is empty.
pub proof fn lemma_empty_query_keeps_all(items: Seq<InstanceInfoView>)
    ensures
        filter_by_name(items, Seq::empty()) == items,
    decreases items.len(),
{
    reveal(Seq::filter);
    if items.len() > 0 {
        lemma_empty_query_keeps_all(items.drop_last());
    }
}

/// Filtering keeps the full list, so a filter applied after another gives
/// what it gives alone; in particular the same filter twice gives the same
/// table as once.
pub proof fn lemma_filter_from_full(table: InstanceTableView, first: Seq<char>, second: Seq<char>)
    ensures
        table.filtered(first).filtered(second) == table.filtered(second),
        table.filtered(first).filtered(first) == table.filtered(first),
        table.filtered(first).wf(),
{
}

/// The form in which a query is compared with names: its lower-case form.
/// The empty query is compared as it is.
pub open spec fn folded(query: Seq<char>) -> Seq<char> {
    if query.len() == 0 {
        query
    } else {
        lowercase(query)
    }
}

/// A name passes a query exactly if the folded query occurs in the
/// lower-case form of the name.
pub proof fn lemma_matches_folded(name: Seq<char>, query: Seq<char>)
    ensures
        name_matches(name, query) == is_substring(folded(query), lowercase(name)),
{
    if query.len() == 0 {
        assert(lowercase(name).subrange(0int, 0int + query.len()) =~= query);
    }
}

/// Case is ignored: queries with the same folded form let the same names
/// through, and names with the same lower-case form pass the same queries.
pub proof fn lemma_filter_ignores_case(
    items: Seq<InstanceInfoView>,
    first: Seq<char>,
    second: Seq<char>,
)
    requires
        folded(first) == folded(second),
    ensures
        filter_by_name(items, first) == filter_by_name(items, second),
        forall|name: Seq<char>| #[trigger] name_matches(name, first) == name_matches(name, second),
        forall|a: Seq<char>, b: Seq<char>|
            lowercase(a) == lowercase(b) ==> #[trigger] name_matches(a, first) == #[trigger] name_matches(
                b,
                first,
            ),
    decreases items.len(),
{
    reveal(Seq::filter);
    assert forall|name: Seq<char>| #[trigger]
        name_matches(name, first) == name_matches(name, second) by {
        lemma_matches_folded(name, first);
        lemma_matches_folded(name, second);
    }
    if items.len() > 0 {
        lemma_filter_ignores_case(items.drop_last(), first, second);
    }
}

/// Whether a name passes a query, given the lower-case forms of both and
/// whether the query is empty.
pub fn name_passes(lowered_name: &Vec<char>, query_is_empty: bool, lowered_query: &Vec<char>) -> (r:
    bool)
    ensures
        r == passes_lowered(lowered_name@, query_is_empty, lowered_query@),
{
    query_is_empty || contains_chars(lowered_name, lowered_query)
}

/// The instances on offer, narrowed by a filter on their names.
#[derive(Debug)]
pub struct InstanceTable {
    selected: Option<usize>,
    items: Vec<InstanceInfo>,
    visible_items: Vec<InstanceInfo>,
    filter: String,
}

impl View for InstanceTable {
    type V = InstanceTableView;

    closed spec fn view(&self) -> InstanceTableView {
        InstanceTableView {
            items: self.items.deep_view(),
            visible: self.visible_items.deep_view(),
            filter: self.filter@,
            selected: self.selected,
        }
    }
}

/// A copy of a list of instances.
fn clone_instances(items: &Vec<InstanceInfo>) -> (r: Vec<InstanceInfo>)
    ensures
        r.deep_view() == items.deep_view(),
{
    let mut out: Vec<InstanceInfo> = Vec::new();
    let mut i: usize = 0;
    while i < items.len()
        invariant
            i <= items.len(),
            out.deep_view() == items.deep_view().take(i as int),
        decreases items.len() - i,
    {
        let ghost before = out.deep_view();
        out.push(items[i].clone());
        assert(out.deep_view() =~= before.push(items[i as int].deep_view()));
        i += 1;
    }
    out
}

impl InstanceTable {
    /// The table of the given instances, unfiltered, with the first row selected.
    pub fn with_items(items: Vec<InstanceInfo>) -> (table: InstanceTable)
        ensures
            table@ == InstanceTableView::of(items.deep_view()),
            table@.wf(),
    {
        proof {
            lemma_empty_query_keeps_all(items.deep_view());
        }
        let selected = first_position(items.len());
        let visible_items = clone_instances(&items);
        InstanceTable { selected, items, visible_items, filter: String::new() }
    }

    /// The table of the given instances under a filter.
    pub fn with_items_and_filter(items: Vec<InstanceInfo>, filter: String) -> (table: InstanceTable)
        ensures
            table@ == InstanceTableView::of(items.deep_view()).filtered(filter@),
            table@.wf(),
    {
        let mut table = InstanceTable::with_items(items);
        table.apply_filter(filter);
        table
    }

    /// The index of the selected row among the visible ones.
    pub fn selected(&self) -> (r: Option<usize>)
        ensures
            r == self@.selected,
    {
        self.selected
    }

    /// The filter text in force.
    pub fn get_filter(&self) -> (r: String)
        ensures
            r@ == self@.filter,
    {
        self.filter.clone()
    }

    /// The visible instances, in the order shown.
    pub fn get_visible_items(&self) -> (r: Vec<InstanceInfo>)
        ensures
            r.deep_view() == self@.visible,
    {
        clone_instances(&self.visible_items)
    }

    /// All instances, whether the filter lets them through or not.
    pub fn get_items(&self) -> (r: Vec<InstanceInfo>)
        ensures
            r.deep_view() == self@.items,
    {
        clone_instances(&self.items)
    }

    /// The rows to show.
    pub fn get_rows(&self) -> (r: Vec<TableRow>)
        ensures
            r.deep_view() == self@.rows(),
    {
        let mut rows: Vec<TableRow> = Vec::new();
        let mut i: usize = 0;
        while i < self.visible_items.len()
            invariant
                i <= self.visible_items.len(),
                rows.deep_view() == self@.rows().take(i as int),
            decreases self.visible_items.len() - i,
        {
            let ghost before = rows.deep_view();
            let instance = &self.visible_items[i];
            let row = TableRow {
                name: instance.get_name(),
                instance_id: instance.get_instance_id(),
                private_ip: instance.get_private_ip(),
                public_ip: instance.get_public_ip(),
            };
            rows.push(row);
            assert(rows.deep_view() =~= before.push(row.deep_view()));
            i += 1;
        }
        rows
    }

    /// How many rows are visible.
    pub fn visible_len(&self) -> (r: usize)
        ensures
            r == self@.visible.len(),
    {
        self.visible_items.len()
    }

    /// Shows the instances whose display name holds `filter`, whatever the case of
    /// the letters, in the order of the full list, and selects the first of them.
    /// The empty filter shows every instance.
    pub fn apply_filter(&mut self, filter: String)
        ensures
            final(self)@ == old(self)@.filtered(filter@),
            final(self)@.wf(),
    {
        let lowered = to_lowercase(filter.as_str());
        let needle = chars_of(lowered.as_str());
        let mut visible: Vec<InstanceInfo> = Vec::new();
        let mut i: usize = 0;
        while i < self.items.len()
            invariant
                i <= self.items.len(),
                self.items == old(self).items,
                needle@ == lowercase(filter@),
                visible.deep_view() == filter_by_name(
                    self.items.deep_view().take(i as int),
                    filter@,
                ),
            decreases self.items.len() - i,
        {
            let ghost before = visible.deep_view();
            let ghost upto = self.items.deep_view().take(i + 1);
            proof {
                reveal(Seq::filter);
                assert(upto.drop_last() =~= self.items.deep_view().take(i as int));
                assert(upto.last() == self.items[i as int].deep_view());
            }
            let name = self.items[i].get_name();
            let lowered_name = to_lowercase(name.as_str());
            let hay = chars_of(lowered_name.as_str());
            if name_passes(&hay, filter.as_str().is_empty(), &needle) {
                visible.push(self.items[i].clone());
                assert(visible.deep_view() =~= before.push(self.items[i as int].deep_view()));
            }
            i += 1;
        }
        assert(self.items.deep_view().take(self.items.len() as int) =~= self.items.deep_view());
        self.filter = filter;
        self.selected = first_position(visible.len());
        self.visible_items = visible;
    }

    /// Selects the next visible row; after the last one comes the first.
    pub fn next(&mut self)
        requires
            old(self)@.wf(),
        ensures
            final(self)@ == old(self)@.moved_next(),
            final(self)@.wf(),
    {
        self.selected = next_position(self.selected, self.visible_items.len());
    }

    /// Selects the visible row before; before the first one comes the last.
    pub fn previous(&mut self)
        requires
            old(self)@.wf(),
        ensures
            final(self)@ == old(self)@.moved_previous(),
            final(self)@.wf(),
    {
        self.selected = previous_position(self.selected, self.visible_items.len());
    }

    /// The selected instance, if there is one.
    pub fn current(&self) -> (r: Option<InstanceInfo>)
        requires
            self@.wf(),
        ensures
            r.deep_view() == self@.current(),
    {
        match self.selected {
            Some(i) => Some(self.visible_items[i].clone()),
            None => None,
        }
    }

    /// Carries out what a key asked for and answers with the selected instance.
    pub fn perform_key_action(&mut self, action: Option<KeyAction>) -> (r: Action)
        requires
            old(self)@.wf(),
        ensures
            final(self)@ == old(self)@.performed(action),
            final(self)@.wf(),
            r.deep_view() == old(self)@.performed_answer(action),
    {
        if !self.visible_items.is_empty() {
            match action {
                Some(KeyAction::NextItem) => self.next(),
                Some(KeyAction::PreviousItem) => self.previous(),
                Some(KeyAction::AccessItem) => {
                    return match self.current() {
                        Some(item) => Action::ReturnInstance(item),
                        None => Action::Noop,
                    };
                },
                _ => {},
            }
            match self.current() {
                Some(item) => Action::Select(item),
                None => Action::Noop,
            }
        } else {
            Action::Noop
        }
    }
}

impl HandleAction for InstanceTable {
    open spec fn well_formed(&self) -> bool {
        self@.wf()
    }

    fn handle_action(&mut self, event: Event) -> (action: Action)
        ensures
            final(self)@ == old(self)@.handled(event),
            action.deep_view() == old(self)@.answer(event),
    {
        match event {
            Event::Key(key) => match key {
                KeyCode::Char(c) => {
                    if c == 'q' {
                        Action::Exit
                    } else if c == '/' {
                        Action::Search
                    } else if c == 'i' {
                        Action::ToggleInfoPanel
                    } else {
                        Action::Noop
                    }
                },
                KeyCode::Down => self.perform_key_action(Some(KeyAction::NextItem)),
                KeyCode::Up => self.perform_key_action(Some(KeyAction::PreviousItem)),
                KeyCode::Right | KeyCode::Enter => self.perform_key_action(
                    Some(KeyAction::AccessItem),
                ),
                _ => Action::Noop,
            },
            _ => Action::Noop,
        }
    }
}

} // verus!
