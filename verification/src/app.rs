//! The controller: which screen is shown, where input goes, and what each
//! action of a component does.

use vstd::prelude::*;
use crate::app::config::Config;
use crate::app::config::ConfigView;
use crate::aws::InstanceInfo;
use crate::aws::InstanceInfoView;
use crate::components::instance_details::InstanceDetails;
use crate::components::instance_table::InstanceTable;
use crate::components::instance_table::InstanceTableView;
use crate::components::region_list::is_sorted_from;
use crate::components::region_list::lemma_sorted_again;
use crate::components::region_list::RegionList;
use crate::components::region_list::RegionListView;
use crate::components::text_input::TextInput;
use crate::components::text_input::TextInputView;
use crate::components::Action;
use crate::components::ActionView;
use crate::components::Event;
use crate::components::HandleAction;
use crate::components::KeyCode;
use crate::selection::first_index;
use crate::sorting::arranged;
use crate::sorting::is_stable_order;
use crate::sorting::lemma_stable_order_unique;
use crate::sorting::stable_order;
use crate::sorting::SortKey;
use crate::sorting::SortKeyView;
use crate::text::lemma_lex_trichotomy;
use crate::text::lex_le;

pub mod config;

verus! {

/// The screen that is shown.
#[derive(Debug, Clone, Copy, PartialEq, Eq, Structural)]
pub enum AppStatus {
    /// The regions to pick from.
    RegionSelectState,
    /// The instances of the picked region.
    MainScreen,
}

/// Why a run ended without an instance.
#[derive(Debug)]
pub enum RuntimeError {
    /// The user left the first screen.
    UserExit,
    /// The instances of the picked region could not be fetched; the text says
    /// why.
    FetchFailed(String),
}

/// The mathematical content of a [`RuntimeError`].
pub enum RuntimeErrorView {
    UserExit,
    FetchFailed(Seq<char>),
}

impl DeepView for RuntimeError {
    type V = RuntimeErrorView;

    open spec fn deep_view(&self) -> RuntimeErrorView {
        match self {
            RuntimeError::UserExit => RuntimeErrorView::UserExit,
            RuntimeError::FetchFailed(why) => RuntimeErrorView::FetchFailed(why@),
        }
    }
}

impl RuntimeError {
    /// The error in words.
    pub fn message(&self) -> (text: String)
        ensures
            text@ == match self.deep_view() {
                RuntimeErrorView::UserExit => "User exited the application"@,
                RuntimeErrorView::FetchFailed(why) => why,
            },
    {
        match self {
            RuntimeError::UserExit => String::from_str("User exited the application"),
            RuntimeError::FetchFailed(why) => why.clone(),
        }
    }
}

/// What the run loop is to do once an event has been handled.
#[derive(Debug)]
pub enum Step {
    /// Show the state and take the next event.
    Continue,
    /// Store the settings, which have changed, then go on.
    Persist,
    /// Fetch the instances of the region and hand what came of it to
    /// [`App::fetched`], which says how to go on.
    Fetch(String),
    /// End the run without an instance.
    Exit,
    /// End the run with the instance.
    Finish(InstanceInfo),
    /// End the run with an error: the instances could not be fetched, for the
    /// reason given.
    Abort(String),
}

/// The mathematical content of a [`Step`].
pub enum StepView {
    Continue,
    Persist,
    Fetch(Seq<char>),
    Exit,
    Finish(InstanceInfoView),
    Abort(Seq<char>),
}

impl DeepView for Step {
    type V = StepView;

    open spec fn deep_view(&self) -> StepView {
        match self {
            Step::Continue => StepView::Continue,
            Step::Persist => StepView::Persist,
            Step::Fetch(region) => StepView::Fetch(region@),
            Step::Exit => StepView::Exit,
            Step::Finish(instance) => StepView::Finish(instance.deep_view()),
            Step::Abort(why) => StepView::Abort(why@),
        }
    }
}

impl StepView {
    /// How the run ends with this step, if it does: with the instance, with
    /// the user's exit, or with the failure of a fetch.
    pub open spec fn outcome(self) -> Option<Result<InstanceInfoView, RuntimeErrorView>> {
        match self {
            StepView::Exit => Some(Err(RuntimeErrorView::UserExit)),
            StepView::Finish(instance) => Some(Ok(instance)),
            StepView::Abort(why) => Some(Err(RuntimeErrorView::FetchFailed(why))),
            _ => None,
        }
    }
}

impl Step {
    /// How the run ends with this step, if it does.
    pub fn outcome(self) -> (r: Option<Result<InstanceInfo, RuntimeError>>)
        ensures
            match r {
                Some(Ok(instance)) => self.deep_view().outcome() == Some(
                    Ok::<InstanceInfoView, RuntimeErrorView>(instance.deep_view()),
                ),
                Some(Err(error)) => self.deep_view().outcome() == Some(
                    Err::<InstanceInfoView, RuntimeErrorView>(error.deep_view()),
                ),
                None => self.deep_view().outcome() is None,
            },
    {
        match self {
            Step::Exit => Some(Err(RuntimeError::UserExit)),
            Step::Finish(instance) => Some(Ok(instance)),
            Step::Abort(why) => Some(Err(RuntimeError::FetchFailed(why))),
            _ => None,
        }
    }
}

/// The sort keys of instances that are sorted by name alone.
pub open spec fn name_keys(instances: Seq<InstanceInfoView>) -> Seq<SortKeyView> {
    Seq::new(instances.len(), |i: int| SortKeyView { rank: 0, text: instances[i].name() })
}

/// `output` holds the instances of `input` sorted by display name, those of
/// one name in the order in which `input` has them.
pub open spec fn is_sorted_by_name(
    input: Seq<InstanceInfoView>,
    output: Seq<InstanceInfoView>,
) -> bool {
    exists|order: Seq<usize>|
        #[trigger] is_stable_order(name_keys(input), order) && output == arranged(input, order)
}

/// Instances have one arrangement sorted by name and no other, and in it the
/// names ascend.
pub proof fn lemma_sorted_by_name(
    input: Seq<InstanceInfoView>,
    first: Seq<InstanceInfoView>,
    second: Seq<InstanceInfoView>,
)
    requires
        is_sorted_by_name(input, first),
        is_sorted_by_name(input, second),
    ensures
        first == second,
        first.len() == input.len(),
        forall|i: int, j: int|
            0 <= i < j < first.len() ==> lex_le(#[trigger] first[i].name(), #[trigger] first[j].name()),
{
    let keys = name_keys(input);
    let one = choose|order: Seq<usize>|
        #[trigger] is_stable_order(keys, order) && first == arranged(input, order);
    let other = choose|order: Seq<usize>|
        #[trigger] is_stable_order(keys, order) && second == arranged(input, order);
    lemma_stable_order_unique(keys, one, other);
    assert forall|i: int, j: int| 0 <= i < j < first.len() implies lex_le(
        #[trigger] first[i].name(),
        #[trigger] first[j].name(),
    ) by {
        lemma_lex_trichotomy(first[i].name(), first[j].name());
    }
}

/// The instances sorted by display name; instances of one name keep their
/// order.
pub fn sort_by_name(instances: &Vec<InstanceInfo>) -> (sorted: Vec<InstanceInfo>)
    ensures
        is_sorted_by_name(instances.deep_view(), sorted.deep_view()),
{
    let mut keys: Vec<SortKey> = Vec::new();
    let mut i: usize = 0;
    while i < instances.len()
        invariant
            i <= instances.len(),
            keys.deep_view() == name_keys(instances.deep_view()).take(i as int),
        decreases instances.len() - i,
    {
        let ghost before = keys.deep_view();
        let key = SortKey { rank: 0, text: instances[i].get_name() };
        keys.push(key);
        assert(keys.deep_view() =~= before.push(key.deep_view()));
        i += 1;
    }
    assert(keys.deep_view() =~= name_keys(instances.deep_view()));
    let order = stable_order(&keys);
    let mut sorted: Vec<InstanceInfo> = Vec::new();
    let mut j: usize = 0;
    while j < order.len()
        invariant
            j <= order.len(),
            is_stable_order(keys.deep_view(), order@),
            keys.deep_view().len() == instances.len(),
            sorted.deep_view() == arranged(instances.deep_view(), order@).take(j as int),
        decreases order.len() - j,
    {
        let ghost before = sorted.deep_view();
        let instance = instances[order[j]].clone();
        sorted.push(instance);
        assert(sorted.deep_view() =~= before.push(instance.deep_view()));
        j += 1;
    }
    assert(sorted.deep_view() =~= arranged(instances.deep_view(), order@));
    sorted
}

/// The state of the controller.
pub struct AppView {
    pub config: ConfigView,
    pub info_panel_enabled: bool,
    pub regions: RegionListView,
    pub search: TextInputView,
    pub status: AppStatus,
    pub table: InstanceTableView,
    pub search_enabled: bool,
    pub details: Option<InstanceInfoView>,
}

impl AppView {
    /// The state once the component that input goes to has taken an event:
    /// the region list on the first screen; on the second the search text
    /// while a search is on, and the table otherwise.
    pub open spec fn routed(self, event: Event) -> AppView {
        match self.status {
            AppStatus::RegionSelectState => AppView {
                regions: self.regions.handled(event),
                ..self
            },
            AppStatus::MainScreen => if self.search_enabled {
                AppView { search: self.search.handled(event), ..self }
            } else {
                AppView { table: self.table.handled(event), ..self }
            },
        }
    }

    /// The action with which that component answers the event.
    pub open spec fn emitted(self, event: Event) -> ActionView {
        match self.status {
            AppStatus::RegionSelectState => self.regions.answer(event),
            AppStatus::MainScreen => if self.search_enabled {
                self.search.answer(event)
            } else {
                self.table.answer(event)
            },
        }
    }

    /// Whether an action of the region list leads from this state to `after`
    /// with the step `step`.
    pub open spec fn selecting(self, action: ActionView, after: AppView, step: StepView) -> bool {
        match action {
            ActionView::Exit => after == self && step == StepView::Exit,
            ActionView::Return(region) => {
                &&& after == AppView { status: AppStatus::MainScreen, ..self }
                &&& step == StepView::Fetch(region)
            },
            ActionView::Hide(region) => {
                &&& after == AppView { config: after.config, regions: after.regions, ..self }
                &&& after.config == self.config.hiding(region)
                &&& self.regions.updated_to(after.config.visible_regions(), after.regions)
                &&& step == StepView::Persist
            },
            ActionView::Reset => {
                &&& after == AppView { config: after.config, regions: after.regions, ..self }
                &&& after.config == self.config.hiding_none()
                &&& self.regions.updated_to(after.config.visible_regions(), after.regions)
                &&& step == StepView::Persist
            },
            ActionView::ToggleFavorite(region) => {
                &&& after == AppView { config: after.config, regions: after.regions, ..self }
                &&& after.config == self.config.toggling(region)
                &&& self.regions.refavored_to(after.config.favorite_regions(), after.regions)
                &&& step == StepView::Persist
            },
            _ => after == self && step == StepView::Continue,
        }
    }

    /// The state to which an action of the search text leads.
    pub open spec fn searching(self, action: ActionView) -> AppView {
        match action {
            ActionView::Exit => AppView { search_enabled: false, ..self },
            ActionView::Return(text) => AppView {
                table: self.table.filtered(text),
                search_enabled: false,
                ..self
            },
            ActionView::PartialReturn(text) => AppView { table: self.table.filtered(text), ..self },
            ActionView::ReturnWithKey(key) => AppView {
                table: match key {
                    KeyCode::Up => self.table.moved_previous(),
                    KeyCode::Down => self.table.moved_next(),
                    _ => self.table,
                },
                search_enabled: false,
                ..self
            },
            _ => self,
        }
    }

    /// The state to which an action of the table leads.
    pub open spec fn browsing(self, action: ActionView) -> AppView {
        match action {
            ActionView::Exit => AppView {
                status: AppStatus::RegionSelectState,
                table: InstanceTableView::of(Seq::empty()),
                ..self
            },
            ActionView::Search => AppView { search_enabled: true, ..self },
            ActionView::ToggleInfoPanel => AppView {
                info_panel_enabled: !self.info_panel_enabled,
                ..self
            },
            ActionView::Select(instance) => AppView { details: Some(instance), ..self },
            _ => self,
        }
    }

    /// Whether an action leads from this state to `after` with the step
    /// `step`: the table of transitions.
    pub open spec fn applied(self, action: ActionView, after: AppView, step: StepView) -> bool {
        match self.status {
            AppStatus::RegionSelectState => self.selecting(action, after, step),
            AppStatus::MainScreen => if self.search_enabled {
                after == self.searching(action) && step == StepView::Continue
            } else {
                &&& after == self.browsing(action)
                &&& step == match action {
                    ActionView::ReturnInstance(instance) => StepView::Finish(instance),
                    _ => StepView::Continue,
                }
            },
        }
    }

    /// Whether fetched instances lead from this state to `after`: the table
    /// holds them sorted by name and filtered by the search text.
    pub open spec fn shown(self, instances: Seq<InstanceInfoView>, after: AppView) -> bool {
        &&& after == AppView { table: after.table, ..self }
        &&& exists|sorted: Seq<InstanceInfoView>|
            #[trigger] is_sorted_by_name(instances, sorted) && after.table == InstanceTableView::of(
                sorted,
            ).filtered(self.search.buffer)
    }
}

/// A search that is left with the escape key keeps the filter that typing
/// has set: after a partial return of `text` and an exit, the table is
/// filtered by `text` and input goes to the table again.
pub proof fn lemma_exit_keeps_filter(state: AppView, text: Seq<char>)
    ensures
        state.searching(ActionView::PartialReturn(text)).searching(ActionView::Exit) == (AppView {
            table: state.table.filtered(text),
            search_enabled: false,
            ..state
        }),
{
}

/// The controller of the dashboard.
pub struct App {
    config: Config,
    info_panel_enabled: bool,
    region_select_component: RegionList,
    search_component: TextInput,
    status: AppStatus,
    instances_table_component: InstanceTable,
    search_enabled: bool,
    info_panel_component: InstanceDetails,
}

impl View for App {
    type V = AppView;

    closed spec fn view(&self) -> AppView {
        AppView {
            config: self.config@,
            info_panel_enabled: self.info_panel_enabled,
            regions: self.region_select_component@,
            search: self.search_component@,
            status: self.status,
            table: self.instances_table_component@,
            search_enabled: self.search_enabled,
            details: self.info_panel_component@,
        }
    }
}

impl App {
    /// Every component is well formed.
    pub closed spec fn wf(&self) -> bool {
        &&& self.config.wf()
        &&& self.region_select_component@.wf()
        &&& self.search_component@.wf()
        &&& self.instances_table_component@.wf()
    }

    /// The controller at its start: on the first screen, with the regions
    /// that the settings leave visible, no instances, no search and no
    /// details.
    pub fn new(config: Config) -> (app: App)
        requires
            config.wf(),
        ensures
            app.wf(),
            app@.config == config@,
            app@.status == AppStatus::RegionSelectState,
            !app@.search_enabled,
            !app@.info_panel_enabled,
            app@.details is None,
            app@.search == (TextInputView {
                prompt: "Searching: "@,
                buffer: Seq::empty(),
                cursor: 0,
            }),
            app@.table == InstanceTableView::of(Seq::empty()),
            app@.regions.favorites == config@.favorite_regions(),
            app@.regions.selected == first_index(config@.visible_regions().len()),
            is_sorted_from(
                config@.favorite_regions(),
                config@.visible_regions(),
                app@.regions.items,
            ),
    {
        let mut region_select = RegionList::with_items(config.get_visible_regions());
        let ghost first = region_select@.items;
        region_select.set_favorites(config.get_favorite_regions());
        proof {
            lemma_sorted_again(
                Seq::empty(),
                config@.favorite_regions(),
                config@.visible_regions(),
                first,
                region_select@.items,
            );
        }
        let none: Vec<InstanceInfo> = Vec::new();
        assert(none.deep_view() =~= Seq::empty());
        let instances_table_component = InstanceTable::with_items(none);
        App {
            config,
            search_component: TextInput::default(),
            region_select_component: region_select,
            status: AppStatus::RegionSelectState,
            instances_table_component,
            info_panel_enabled: false,
            info_panel_component: InstanceDetails::default(),
            search_enabled: false,
        }
    }

    /// Hands an event to the component that input goes to and returns its
    /// answer.
    pub fn dispatch(&mut self, event: Event) -> (action: Action)
        requires
            old(self).wf(),
        ensures
            final(self).wf(),
            final(self)@ == old(self)@.routed(event),
            action.deep_view() == old(self)@.emitted(event),
    {
        match self.status {
            AppStatus::RegionSelectState => self.region_select_component.handle_action(event),
            AppStatus::MainScreen => {
                if self.search_enabled {
                    self.search_component.handle_action(event)
                } else {
                    self.instances_table_component.handle_action(event)
                }
            },
        }
    }

    /// Carries out an action of the active component.
    pub fn apply(&mut self, action: Action) -> (step: Step)
        requires
            old(self).wf(),
        ensures
            final(self).wf(),
            old(self)@.applied(action.deep_view(), final(self)@, step.deep_view()),
    {
        match self.status {
            AppStatus::RegionSelectState => {
                match action {
                    Action::Exit => Step::Exit,
                    Action::Return(region) => {
                        self.status = AppStatus::MainScreen;
                        Step::Fetch(region)
                    },
                    Action::Hide(region) => {
                        self.config.hide_region(region);
                        self.region_select_component.update_items(
                            self.config.get_visible_regions(),
                        );
                        Step::Persist
                    },
                    Action::Reset => {
                        self.config.reset_hidden_regions();
                        self.region_select_component.update_items(
                            self.config.get_visible_regions(),
                        );
                        Step::Persist
                    },
                    Action::ToggleFavorite(region) => {
                        self.config.toggle_favorite_region(region);
                        self.region_select_component.set_favorites(
                            self.config.get_favorite_regions(),
                        );
                        Step::Persist
                    },
                    _ => Step::Continue,
                }
            },
            AppStatus::MainScreen => {
                if self.search_enabled {
                    match action {
                        Action::Exit => {
                            self.search_enabled = false;
                        },
                        Action::Return(search) => {
                            self.instances_table_component.apply_filter(search);
                            self.search_enabled = false;
                        },
                        Action::PartialReturn(search) => {
                            self.instances_table_component.apply_filter(search);
                        },
                        Action::ReturnWithKey(key) => {
                            match key {
                                KeyCode::Up => {
                                    self.instances_table_component.previous();
                                },
                                KeyCode::Down => {
                                    self.instances_table_component.next();
                                },
                                _ => {},
                            }
                            self.search_enabled = false;
                        },
                        _ => {},
                    }
                    Step::Continue
                } else {
                    match action {
                        Action::Exit => {
                            self.status = AppStatus::RegionSelectState;
                            let none: Vec<InstanceInfo> = Vec::new();
                            assert(none.deep_view() =~= Seq::empty());
                            self.instances_table_component = InstanceTable::with_items(none);
                            Step::Continue
                        },
                        Action::ReturnInstance(instance) => Step::Finish(instance),
                        Action::Search => {
                            self.search_enabled = true;
                            Step::Continue
                        },
                        Action::ToggleInfoPanel => {
                            self.info_panel_enabled = !self.info_panel_enabled;
                            Step::Continue
                        },
                        Action::Select(instance) => {
                            self.info_panel_component.set_instance(instance);
                            Step::Continue
                        },
                        _ => Step::Continue,
                    }
                }
            },
        }
    }

    /// Handles one event: the active component takes it, and its answer is
    /// carried out.
    pub fn step(&mut self, event: Event) -> (step: Step)
        requires
            old(self).wf(),
        ensures
            final(self).wf(),
            old(self)@.routed(event).applied(
                old(self)@.emitted(event),
                final(self)@,
                step.deep_view(),
            ),
    {
        let action = self.dispatch(event);
        self.apply(action)
    }

    /// Takes the instances that were fetched for the picked region: the
    /// table shows them sorted by name, under the search text as filter.
    pub fn show_instances(&mut self, instances: Vec<InstanceInfo>)
        requires
            old(self).wf(),
        ensures
            final(self).wf(),
            old(self)@.shown(instances.deep_view(), final(self)@),
    {
        let sorted = sort_by_name(&instances);
        let search_input = self.search_component.get_value();
        self.instances_table_component = InstanceTable::with_items_and_filter(
            sorted,
            search_input,
        );
    }

    /// Takes what came of fetching the instances of the picked region. With
    /// the instances the table shows them, as `show_instances` says, and the
    /// run goes on. A failure ends the run with its reason; the controller
    /// stays as it is, on the second screen, and nothing is tried again.
    pub fn fetched(&mut self, result: Result<Vec<InstanceInfo>, String>) -> (step: Step)
        requires
            old(self).wf(),
        ensures
            final(self).wf(),
            match result {
                Ok(instances) => {
                    &&& old(self)@.shown(instances.deep_view(), final(self)@)
                    &&& step.deep_view() == StepView::Continue
                },
                Err(why) => final(self)@ == old(self)@ && step.deep_view() == StepView::Abort(why@),
            },
    {
        match result {
            Ok(instances) => {
                self.show_instances(instances);
                Step::Continue
            },
            Err(why) => Step::Abort(why),
        }
    }

    /// What the invariant says of the state: each component is well formed.
    pub proof fn lemma_wf(&self)
        requires
            self.wf(),
        ensures
            self@.regions.wf(),
            self@.search.wf(),
            self@.table.wf(),
    {
    }

    /// The settings.
    pub fn config(&self) -> (r: &Config)
        ensures
            r@ == self@.config,
            self.wf() ==> r.wf(),
    {
        &self.config
    }

    /// The list of regions.
    pub fn region_list(&self) -> (r: &RegionList)
        ensures
            r@ == self@.regions,
            self.wf() ==> r@.wf(),
    {
        &self.region_select_component
    }

    /// The search text.
    pub fn search_input(&self) -> (r: &TextInput)
        ensures
            r@ == self@.search,
            self.wf() ==> r@.wf(),
    {
        &self.search_component
    }

    /// The table of instances.
    pub fn instance_table(&self) -> (r: &InstanceTable)
        ensures
            r@ == self@.table,
            self.wf() ==> r@.wf(),
    {
        &self.instances_table_component
    }

    /// The details panel.
    pub fn instance_details(&self) -> (r: &InstanceDetails)
        ensures
            r@ == self@.details,
    {
        &self.info_panel_component
    }

    /// The index of the tab that stands for the screen shown.
    pub fn selected_tab(&self) -> (r: usize)
        ensures
            r == match self@.status {
                AppStatus::RegionSelectState => 0usize,
                AppStatus::MainScreen => 1usize,
            },
    {
        match self.status {
            AppStatus::RegionSelectState => 0,
            AppStatus::MainScreen => 1,
        }
    }

    /// The shares of the width, in per cent, that the list and the details
    /// panel take: the panel has a quarter while it is shown.
    pub fn panel_shares(&self) -> (r: (u16, u16))
        ensures
            r == if self@.info_panel_enabled {
                (75u16, 25u16)
            } else {
                (100u16, 0u16)
            },
    {
        if self.info_panel_enabled {
            (75, 25)
        } else {
            (100, 0)
        }
    }

    /// The screen that is shown.
    pub fn status(&self) -> (r: AppStatus)
        ensures
            r == self@.status,
    {
        self.status
    }

    /// Whether input goes to the search text.
    pub fn search_enabled(&self) -> (r: bool)
        ensures
            r == self@.search_enabled,
    {
        self.search_enabled
    }

    /// Whether the details panel is shown.
    pub fn info_panel_enabled(&self) -> (r: bool)
        ensures
            r == self@.info_panel_enabled,
    {
        self.info_panel_enabled
    }
}

} // verus!
