//! The vocabulary shared by the components: the input events they take and
//! the actions they answer with.

use vstd::prelude::*;
use crate::aws::InstanceInfo;
use crate::aws::InstanceInfoView;

pub mod instance_details;
pub mod instance_table;
pub mod region_list;
pub mod text_input;

verus! {

/// The key of a key press, as far as any component tells keys apart.
#[derive(Debug, Clone, Copy, PartialEq, Eq, Structural)]
pub enum KeyCode {
    Backspace,
    Enter,
    Left,
    Right,
    Up,
    Down,
    Esc,
    Char(char),
    /// Any other key.
    Other,
}

/// One event of the input source.
#[derive(Debug, Clone, Copy, PartialEq, Eq, Structural)]
pub enum Event {
    Key(KeyCode),
    /// Anything that is not a key press, such as a resize.
    Other,
}

/// What a component asks of its owner after an input event.
#[derive(Debug)]
pub enum Action {
    Noop,
    Exit,
    Return(String),
    ReturnWithKey(KeyCode),
    ReturnInstance(InstanceInfo),
    PartialReturn(String),
    Search,
    ToggleInfoPanel,
    Select(InstanceInfo),
    Hide(String),
    Reset,
    ToggleFavorite(String),
}

/// The mathematical content of an [`Action`].
pub enum ActionView {
    Noop,
    Exit,
    Return(Seq<char>),
    ReturnWithKey(KeyCode),
    ReturnInstance(InstanceInfoView),
    PartialReturn(Seq<char>),
    Search,
    ToggleInfoPanel,
    Select(InstanceInfoView),
    Hide(Seq<char>),
    Reset,
    ToggleFavorite(Seq<char>),
}

impl DeepView for Action {
    type V = ActionView;

    open spec fn deep_view(&self) -> ActionView {
        match self {
            Action::Noop => ActionView::Noop,
            Action::Exit => ActionView::Exit,
            Action::Return(text) => ActionView::Return(text@),
            Action::ReturnWithKey(key) => ActionView::ReturnWithKey(*key),
            Action::ReturnInstance(instance) => ActionView::ReturnInstance(instance.deep_view()),
            Action::PartialReturn(text) => ActionView::PartialReturn(text@),
            Action::Search => ActionView::Search,
            Action::ToggleInfoPanel => ActionView::ToggleInfoPanel,
            Action::Select(instance) => ActionView::Select(instance.deep_view()),
            Action::Hide(region) => ActionView::Hide(region@),
            Action::Reset => ActionView::Reset,
            Action::ToggleFavorite(region) => ActionView::ToggleFavorite(region@),
        }
    }
}

/// A component that takes input events.
pub trait HandleAction {
    /// The component's invariant.
    spec fn well_formed(&self) -> bool;

    /// Takes one event, changes the component accordingly and says what the
    /// owner is asked to do.
    fn handle_action(&mut self, event: Event) -> (action: Action)
        requires
            old(self).well_formed(),
        ensures
            final(self).well_formed(),
    ;
}

} // verus!
