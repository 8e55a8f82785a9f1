//! The list of regions to pick from: favourites first, each group in the
//! order of the names, and one selected entry.

use vstd::prelude::*;
use crate::components::Action;
use crate::components::ActionView;
use crate::components::Event;
use crate::components::HandleAction;
use crate::components::KeyCode;
use crate::selection::clamped_index;
use crate::selection::clamped_position;
use crate::selection::first_index;
use crate::selection::first_position;
use crate::selection::next_index;
use crate::selection::next_position;
use crate::selection::previous_index;
use crate::selection::previous_position;
use crate::selection::selection_valid;
use crate::sorting::arranged;
use crate::sorting::goes_before;
use crate::sorting::is_stable_order;
use crate::sorting::lemma_stable_order_unique;
use crate::sorting::stable_order;
use crate::sorting::SortKey;
use crate::sorting::SortKeyView;
use crate::text::contains_string;
use crate::text::lemma_lex_trichotomy;
use crate::text::lex_le;

verus! {

/// What a region is sorted by: favourites have the lower rank.
pub open spec fn region_key(favorites: Seq<Seq<char>>, region: Seq<char>) -> SortKeyView {
    SortKeyView {
        rank: if favorites.contains(region) {
            0
        } else {
            1
        },
        text: region,
    }
}

/// The sort keys of a list of regions.
pub open spec fn region_keys(favorites: Seq<Seq<char>>, regions: Seq<Seq<char>>) -> Seq<
    SortKeyView,
> {
    Seq::new(regions.len(), |i: int| region_key(favorites, regions[i]))
}

/// Region `a` may stand before region `b`: it is a favourite and `b` is not,
/// or both are of one kind and `a` does not come after `b` by name.
pub open spec fn region_le(favorites: Seq<Seq<char>>, a: Seq<char>, b: Seq<char>) -> bool {
    ||| favorites.contains(a) && !favorites.contains(b)
    ||| favorites.contains(a) == favorites.contains(b) && lex_le(a, b)
}

/// Every region of the list may stand before all that follow it.
pub open spec fn regions_sorted(favorites: Seq<Seq<char>>, regions: Seq<Seq<char>>) -> bool {
    forall|i: int, j: int|
        0 <= i < j < regions.len() ==> region_le(favorites, #[trigger] regions[i], #[trigger] regions[j])
}

/// `output` holds the regions of `input`, each once for each time it occurs
/// there, in sorted order.
pub open spec fn is_sorted_from(
    favorites: Seq<Seq<char>>,
    input: Seq<Seq<char>>,
    output: Seq<Seq<char>>,
) -> bool {
    exists|order: Seq<usize>|
        #[trigger] is_stable_order(region_keys(favorites, input), order) && output == arranged(
            input,
            order,
        )
}

/// A list arranged in the stable order of its keys is sorted: favourites
/// stand before the others, and within each group the names ascend.
pub proof fn lemma_arranged_is_sorted(
    favorites: Seq<Seq<char>>,
    input: Seq<Seq<char>>,
    output: Seq<Seq<char>>,
)
    requires
        is_sorted_from(favorites, input, output),
    ensures
        output.len() == input.len(),
        regions_sorted(favorites, output),
{
    let keys = region_keys(favorites, input);
    let order = choose|order: Seq<usize>|
        #[trigger] is_stable_order(keys, order) && output == arranged(input, order);
    assert forall|i: int, j: int| 0 <= i < j < output.len() implies region_le(
        favorites,
        #[trigger] output[i],
        #[trigger] output[j],
    ) by {
        let p = order[i] as int;
        let q = order[j] as int;
        lemma_lex_trichotomy(input[p], input[q]);
    }
}

/// In a sorted list every favourite stands before every region that is none,
/// and of two regions of one kind the one in front does not come after the
/// other by name.
pub proof fn lemma_favorites_first(
    favorites: Seq<Seq<char>>,
    regions: Seq<Seq<char>>,
    i: int,
    j: int,
)
    requires
        regions_sorted(favorites, regions),
        0 <= i < regions.len(),
        0 <= j < regions.len(),
    ensures
        favorites.contains(regions[i]) && !favorites.contains(regions[j]) ==> i < j,
        favorites.contains(regions[i]) == favorites.contains(regions[j]) && i < j ==> lex_le(
            regions[i],
            regions[j],
        ),
{
    if favorites.contains(regions[i]) && !favorites.contains(regions[j]) && j < i {
        assert(region_le(favorites, regions[j], regions[i]));
    }
    if i < j {
        assert(region_le(favorites, regions[i], regions[j]));
    }
}

/// A list has one sorted arrangement and no other.
pub proof fn lemma_sorted_unique(
    favorites: Seq<Seq<char>>,
    input: Seq<Seq<char>>,
    first: Seq<Seq<char>>,
    second: Seq<Seq<char>>,
)
    requires
        is_sorted_from(favorites, input, first),
        is_sorted_from(favorites, input, second),
    ensures
        first == second,
{
    let keys = region_keys(favorites, input);
    let one = choose|order: Seq<usize>|
        #[trigger] is_stable_order(keys, order) && first == arranged(input, order);
    let other = choose|order: Seq<usize>|
        #[trigger] is_stable_order(keys, order) && second == arranged(input, order);
    lemma_stable_order_unique(keys, one, other);
}

/// Sorting a list that was sorted before, by whatever favourites, gives what
/// sorting the list as it first was gives.
pub proof fn lemma_sorted_again(
    earlier: Seq<Seq<char>>,
    favorites: Seq<Seq<char>>,
    input: Seq<Seq<char>>,
    between: Seq<Seq<char>>,
    output: Seq<Seq<char>>,
)
    requires
        is_sorted_from(earlier, input, between),
        is_sorted_from(favorites, between, output),
    ensures
        is_sorted_from(favorites, input, output),
{
    let first = choose|order: Seq<usize>|
        #[trigger] is_stable_order(region_keys(earlier, input), order) && between == arranged(
            input,
            order,
        );
    let second = choose|order: Seq<usize>|
        #[trigger] is_stable_order(region_keys(favorites, between), order) && output == arranged(
            between,
            order,
        );
    let both = Seq::new(second.len(), |i: int| first[second[i] as int]);
    let keys = region_keys(favorites, input);
    assert forall|i: int, j: int| 0 <= i < j < both.len() implies goes_before(
        keys,
        #[trigger] both[i] as int,
        #[trigger] both[j] as int,
    ) by {
        let p = second[i] as int;
        let q = second[j] as int;
        if between[p] == between[q] {
            lemma_lex_trichotomy(between[p], between[q]);
        }
    }
    assert(output =~= arranged(input, both));
    assert(is_stable_order(keys, both));
}

/// The state of a region list.
pub struct RegionListView {
    pub items: Seq<Seq<char>>,
    pub favorites: Seq<Seq<char>>,
    pub selected: Option<usize>,
}

impl RegionListView {
    /// The regions are sorted, and one is selected unless there is none.
    pub open spec fn wf(self) -> bool {
        &&& regions_sorted(self.favorites, self.items)
        &&& selection_valid(self.selected, self.items.len())
    }

    /// The selection one entry down, cyclically.
    pub open spec fn moved_next(self) -> RegionListView {
        RegionListView { selected: next_index(self.selected, self.items.len()), ..self }
    }

    /// The selection one entry up, cyclically.
    pub open spec fn moved_previous(self) -> RegionListView {
        RegionListView { selected: previous_index(self.selected, self.items.len()), ..self }
    }

    /// The selected region.
    pub open spec fn current(self) -> Option<Seq<char>> {
        match self.selected {
            Some(i) => Some(self.items[i as int]),
            None => None,
        }
    }

    /// Whether `after` is this list with its regions replaced by `regions`,
    /// sorted, and the selection kept by position as far as the new length
    /// allows.
    pub open spec fn updated_to(self, regions: Seq<Seq<char>>, after: RegionListView) -> bool {
        &&& after.favorites == self.favorites
        &&& is_sorted_from(self.favorites, regions, after.items)
        &&& after.selected == clamped_index(self.selected, regions.len())
    }

    /// Whether `after` is this list with the favourites replaced by
    /// `favorites` and its regions sorted anew, the selection kept by
    /// position.
    pub open spec fn refavored_to(self, favorites: Seq<Seq<char>>, after: RegionListView) -> bool {
        &&& after.favorites == favorites
        &&& is_sorted_from(favorites, self.items, after.items)
        &&& after.selected == self.selected
    }

    /// The state after an event.
    pub open spec fn handled(self, event: Event) -> RegionListView {
        match event {
            Event::Key(KeyCode::Down) => self.moved_next(),
            Event::Key(KeyCode::Up) => self.moved_previous(),
            _ => self,
        }
    }

    /// The action that `make` builds for the selected region; none is asked
    /// for where no region is selected.
    pub open spec fn on_current(self, make: spec_fn(Seq<char>) -> ActionView) -> ActionView {
        match self.current() {
            Some(region) => make(region),
            None => ActionView::Noop,
        }
    }

    /// The action that answers an event.
    pub open spec fn answer(self, event: Event) -> ActionView {
        match event {
            Event::Key(KeyCode::Char(c)) => if c == 'q' {
                ActionView::Exit
            } else if c == 'h' {
                self.on_current(|region: Seq<char>| ActionView::Hide(region))
            } else if c == 'r' {
                ActionView::Reset
            } else if c == '*' {
                self.on_current(|region: Seq<char>| ActionView::ToggleFavorite(region))
            } else {
                ActionView::Noop
            },
            Event::Key(KeyCode::Right) => self.on_current(
                |region: Seq<char>| ActionView::Return(region),
            ),
            Event::Key(KeyCode::Enter) => self.on_current(
                |region: Seq<char>| ActionView::Return(region),
            ),
            _ => ActionView::Noop,
        }
    }

    /// The label of each region: a star before a favourite, then a blank and
    /// the name.
    pub open spec fn labels(self) -> Seq<Seq<char>> {
        Seq::new(self.items.len(), |i: int| region_label(self.favorites, self.items[i]))
    }
}

/// The label of one region.
pub open spec fn region_label(favorites: Seq<Seq<char>>, region: Seq<char>) -> Seq<char> {
    if favorites.contains(region) {
        seq!['★', ' '] + region
    } else {
        seq![' '] + region
    }
}

/// The regions on offer.
#[derive(Debug)]
pub struct RegionList {
    selected: Option<usize>,
    items: Vec<String>,
    favorites: Vec<String>,
}

impl View for RegionList {
    type V = RegionListView;

    closed spec fn view(&self) -> RegionListView {
        RegionListView {
            items: self.items.deep_view(),
            favorites: self.favorites.deep_view(),
            selected: self.selected,
        }
    }
}

impl RegionList {
    /// The list of the given regions, sorted, without favourites, with the
    /// first entry selected.
    pub fn with_items(items: Vec<String>) -> (list: RegionList)
        ensures
            list@.favorites == Seq::<Seq<char>>::empty(),
            is_sorted_from(list@.favorites, items.deep_view(), list@.items),
            list@.selected == first_index(items.len() as nat),
            list@.wf(),
    {
        let selected = first_position(items.len());
        let mut list = RegionList { selected, items, favorites: Vec::new() };
        list.sort_list();
        proof {
            lemma_arranged_is_sorted(list@.favorites, items.deep_view(), list@.items);
        }
        list
    }

    /// Replaces the regions and sorts them. The selection stays at its index,
    /// or at the last entry where the list has become too short for it.
    pub fn update_items(&mut self, items: Vec<String>)
        ensures
            old(self)@.updated_to(items.deep_view(), final(self)@),
            final(self)@.wf(),
    {
        self.selected = clamped_position(self.selected, items.len());
        self.items = items;
        self.sort_list();
        proof {
            lemma_arranged_is_sorted(self@.favorites, items.deep_view(), self@.items);
        }
    }

    /// Replaces the favourites and sorts the regions anew. The selection stays
    /// at its index, whichever region stands there now.
    pub fn set_favorites(&mut self, favorites: Vec<String>)
        requires
            old(self)@.wf(),
        ensures
            old(self)@.refavored_to(favorites.deep_view(), final(self)@),
            final(self)@.wf(),
    {
        self.favorites = favorites;
        self.sort_list();
        proof {
            lemma_arranged_is_sorted(self@.favorites, old(self)@.items, self@.items);
        }
    }

    /// The sort key of each region.
    fn keys(&self) -> (keys: Vec<SortKey>)
        ensures
            keys.deep_view() == region_keys(self@.favorites, self@.items),
    {
        let mut keys: Vec<SortKey> = Vec::new();
        let mut i: usize = 0;
        while i < self.items.len()
            invariant
                i <= self.items.len(),
                keys.deep_view() == region_keys(self@.favorites, self@.items).take(i as int),
            decreases self.items.len() - i,
        {
            let ghost before = keys.deep_view();
            let rank: u8 = if contains_string(&self.favorites, &self.items[i]) {
                0
            } else {
                1
            };
            let key = SortKey { rank, text: self.items[i].clone() };
            keys.push(key);
            assert(keys.deep_view() =~= before.push(key.deep_view()));
            i += 1;
        }
        keys
    }

    /// Sorts the regions: favourites first, each group by name.
    fn sort_list(&mut self)
        ensures
            is_sorted_from(old(self)@.favorites, old(self)@.items, final(self)@.items),
            final(self)@.favorites == old(self)@.favorites,
            final(self)@.selected == old(self)@.selected,
    {
        let keys = self.keys();
        let order = stable_order(&keys);
        let mut sorted: Vec<String> = Vec::new();
        let mut i: usize = 0;
        while i < order.len()
            invariant
                i <= order.len(),
                is_stable_order(keys.deep_view(), order@),
                keys.deep_view().len() == self.items.len(),
                sorted.deep_view() == arranged(self.items.deep_view(), order@).take(i as int),
            decreases order.len() - i,
        {
            let ghost before = sorted.deep_view();
            let region = self.items[order[i]].clone();
            sorted.push(region);
            assert(sorted.deep_view() =~= before.push(region@));
            i += 1;
        }
        assert(sorted.deep_view() =~= arranged(self.items.deep_view(), order@));
        self.items = sorted;
    }

    /// Selects the next entry; after the last one comes the first.
    pub fn next(&mut self)
        requires
            old(self)@.wf(),
        ensures
            final(self)@ == old(self)@.moved_next(),
            final(self)@.wf(),
    {
        self.selected = next_position(self.selected, self.items.len());
    }

    /// Selects the entry before; before the first one comes the last.
    pub fn previous(&mut self)
        requires
            old(self)@.wf(),
        ensures
            final(self)@ == old(self)@.moved_previous(),
            final(self)@.wf(),
    {
        self.selected = previous_position(self.selected, self.items.len());
    }

    /// The selected region, if there is one.
    pub fn current(&self) -> (r: Option<String>)
        requires
            self@.wf(),
        ensures
            r.deep_view() == self@.current(),
    {
        match self.selected {
            Some(i) => Some(self.items[i].clone()),
            None => None,
        }
    }

    /// The index of the selected entry.
    pub fn selected(&self) -> (r: Option<usize>)
        ensures
            r == self@.selected,
    {
        self.selected
    }

    /// The regions in the order shown.
    pub fn get_items(&self) -> (r: Vec<String>)
        ensures
            r.deep_view() == self@.items,
    {
        let mut out: Vec<String> = Vec::new();
        let mut i: usize = 0;
        while i < self.items.len()
            invariant
                i <= self.items.len(),
                out.deep_view() == self.items.deep_view().take(i as int),
            decreases self.items.len() - i,
        {
            let ghost before = out.deep_view();
            out.push(self.items[i].clone());
            assert(out.deep_view() =~= before.push(self.items[i as int]@));
            i += 1;
        }
        out
    }

    /// The label of each region as the list shows it.
    pub fn get_labels(&self) -> (r: Vec<String>)
        ensures
            r.deep_view() == self@.labels(),
    {
        let mut out: Vec<String> = Vec::new();
        let mut i: usize = 0;
        while i < self.items.len()
            invariant
                i <= self.items.len(),
                out.deep_view() == self@.labels().take(i as int),
            decreases self.items.len() - i,
        {
            let ghost before = out.deep_view();
            let mut label = String::new();
            if contains_string(&self.favorites, &self.items[i]) {
                label.push('★');
            }
            label.push(' ');
            label.append(self.items[i].as_str());
            assert(label@ =~= region_label(self@.favorites, self@.items[i as int]));
            out.push(label);
            assert(out.deep_view() =~= before.push(label@));
            i += 1;
        }
        out
    }
}

impl HandleAction for RegionList {
    open spec fn well_formed(&self) -> bool {
        self@.wf()
    }

    fn handle_action(&mut self, event: Event) -> (action: Action)
        ensures
            final(self)@ == old(self)@.handled(event),
            action.deep_view() == old(self)@.answer(event),
    {
        match event {
            Event::Key(key) => match key {
                KeyCode::Char(c) => {
                    if c == 'q' {
                        Action::Exit
                    } else if c == 'h' {
                        match self.current() {
                            Some(region) => Action::Hide(region),
                            None => Action::Noop,
                        }
                    } else if c == 'r' {
                        Action::Reset
                    } else if c == '*' {
                        match self.current() {
                            Some(region) => Action::ToggleFavorite(region),
                            None => Action::Noop,
                        }
                    } else {
                        Action::Noop
                    }
                },
                KeyCode::Down => {
                    self.next();
                    Action::Noop
                },
                KeyCode::Up => {
                    self.previous();
                    Action::Noop
                },
                KeyCode::Right | KeyCode::Enter => match self.current() {
                    Some(region) => Action::Return(region),
                    None => Action::Noop,
                },
                _ => Action::Noop,
            },
            _ => Action::Noop,
        }
    }
}

} // verus!
