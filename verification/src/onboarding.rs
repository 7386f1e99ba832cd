//! The first-run walkthrough: its steps, the tour of features inside the
//! features step, and what moving forward or back shows.
use vstd::prelude::*;
use crate::window_layout::RightSidebarPanel;

verus! {

/// The number of steps of the walkthrough.
pub const TOTAL_STEPS: usize = 4;

/// The number of features the features step shows, one after another.
pub const FEATURE_COUNT: usize = 3;

/// A step of the walkthrough.
#[derive(Clone, Copy, Debug, PartialEq, Eq, Structural)]
pub enum OnboardingStep {
    Welcome,
    Features,
    WorkspaceSetup,
    Complete,
}

/// The step shown at a position: welcome, then workspace setup, then the
/// features, then the last step for every later position.
pub open spec fn step_at(index: int) -> OnboardingStep {
    if index == 0 {
        OnboardingStep::Welcome
    } else if index == 1 {
        OnboardingStep::WorkspaceSetup
    } else if index == 2 {
        OnboardingStep::Features
    } else {
        OnboardingStep::Complete
    }
}

impl OnboardingStep {
    /// The step shown at position `index`.
    pub fn from_index(index: usize) -> (s: Self)
        ensures
            s == step_at(index as int),
    {
        match index {
            0 => OnboardingStep::Welcome,
            1 => OnboardingStep::WorkspaceSetup,
            2 => OnboardingStep::Features,
            _ => OnboardingStep::Complete,
        }
    }
}

/// The sidebar panel that goes with a feature of the tour.
pub open spec fn panel_for(feature_index: int) -> RightSidebarPanel {
    if feature_index == 1 {
        RightSidebarPanel::FileTree
    } else if feature_index == 2 {
        RightSidebarPanel::DiffList
    } else {
        RightSidebarPanel::Hidden
    }
}

/// The sidebar panel that goes with feature `feature_index` of the tour.
pub fn feature_panel(feature_index: usize) -> (p: RightSidebarPanel)
    ensures
        p == panel_for(feature_index as int),
{
    match feature_index {
        1 => RightSidebarPanel::FileTree,
        2 => RightSidebarPanel::DiffList,
        _ => RightSidebarPanel::Hidden,
    }
}

/// What the window does after a move through the walkthrough.
#[derive(Clone, Copy, Debug, PartialEq, Eq, Structural)]
pub enum OnboardingAction {
    /// Nothing changed.
    Nothing,
    /// Another step is shown.
    Redraw,
    /// Another feature is shown, with this sidebar panel.
    ShowPanel(RightSidebarPanel),
    /// The walkthrough is done.
    Complete,
}

/// Where the walkthrough stands.
pub struct Onboarding {
    pub current_step: usize,
    pub feature_index: usize,
}

/// A state the walkthrough can be in: a step in range, a feature in range,
/// and a feature other than the first only during the features step.
pub open spec fn onboarding_wf(step: int, feature: int) -> bool {
    &&& 0 <= step < TOTAL_STEPS
    &&& 0 <= feature < FEATURE_COUNT
    &&& step_at(step) != OnboardingStep::Features ==> feature == 0
}

/// The state after moving forward: to the next feature during the features
/// step, else to the first feature of the next step; unchanged on the last
/// step, which completes the walkthrough.
pub open spec fn forward(step: int, feature: int) -> (int, int) {
    if step_at(step) == OnboardingStep::Features && feature < FEATURE_COUNT - 1 {
        (step, feature + 1)
    } else if step < TOTAL_STEPS - 1 {
        (step + 1, 0)
    } else {
        (step, feature)
    }
}

/// The state after moving back: to the previous feature during the
/// features step, else to the previous step (at its last feature when that
/// is the features step); unchanged on the first step.
pub open spec fn backward(step: int, feature: int) -> (int, int) {
    if step_at(step) == OnboardingStep::Features && feature > 0 {
        (step, feature - 1)
    } else if step > 0 {
        (step - 1, if step_at(step - 1) == OnboardingStep::Features {
            FEATURE_COUNT - 1
        } else {
            feature
        })
    } else {
        (step, feature)
    }
}

impl Onboarding {
    /// The walkthrough at its first step.
    pub fn new() -> (o: Self)
        ensures
            o.current_step == 0,
            o.feature_index == 0,
    {
        Onboarding { current_step: 0, feature_index: 0 }
    }

    /// The step shown now.
    pub fn current_step_enum(&self) -> (s: OnboardingStep)
        ensures
            s == step_at(self.current_step as int),
    {
        OnboardingStep::from_index(self.current_step)
    }

    /// Moves forward; tells the window what to do.
    pub fn next_step(&mut self) -> (action: OnboardingAction)
        ensures
            (final(self).current_step as int, final(self).feature_index as int) == forward(
                old(self).current_step as int,
                old(self).feature_index as int,
            ),
            action == if step_at(old(self).current_step as int) == OnboardingStep::Features
                && old(self).feature_index < FEATURE_COUNT - 1 {
                OnboardingAction::ShowPanel(panel_for(old(self).feature_index + 1))
            } else if old(self).current_step < TOTAL_STEPS - 1 {
                if step_at(old(self).current_step + 1) == OnboardingStep::Features {
                    OnboardingAction::ShowPanel(panel_for(0))
                } else {
                    OnboardingAction::Redraw
                }
            } else {
                OnboardingAction::Complete
            },
    {
        if self.current_step_enum() == OnboardingStep::Features {
            if self.feature_index < FEATURE_COUNT - 1 {
                self.feature_index = self.feature_index + 1;
                return OnboardingAction::ShowPanel(feature_panel(self.feature_index));
            }
        }
        if self.current_step < TOTAL_STEPS - 1 {
            self.current_step = self.current_step + 1;
            self.feature_index = 0;
            if self.current_step_enum() == OnboardingStep::Features {
                OnboardingAction::ShowPanel(feature_panel(self.feature_index))
            } else {
                OnboardingAction::Redraw
            }
        } else {
            OnboardingAction::Complete
        }
    }

    /// Moves back; tells the window what to do.
    pub fn prev_step(&mut self) -> (action: OnboardingAction)
        ensures
            (final(self).current_step as int, final(self).feature_index as int) == backward(
                old(self).current_step as int,
                old(self).feature_index as int,
            ),
            action == if step_at(old(self).current_step as int) == OnboardingStep::Features
                && old(self).feature_index > 0 {
                OnboardingAction::ShowPanel(panel_for(old(self).feature_index - 1))
            } else if old(self).current_step > 0 {
                if step_at(old(self).current_step - 1) == OnboardingStep::Features {
                    OnboardingAction::ShowPanel(panel_for(FEATURE_COUNT - 1))
                } else {
                    OnboardingAction::Redraw
                }
            } else {
                OnboardingAction::Nothing
            },
    {
        if self.current_step_enum() == OnboardingStep::Features && self.feature_index > 0 {
            self.feature_index = self.feature_index - 1;
            return OnboardingAction::ShowPanel(feature_panel(self.feature_index));
        }
        if self.current_step > 0 {
            self.current_step = self.current_step - 1;
            if self.current_step_enum() == OnboardingStep::Features {
                self.feature_index = FEATURE_COUNT - 1;
                OnboardingAction::ShowPanel(feature_panel(self.feature_index))
            } else {
                OnboardingAction::Redraw
            }
        } else {
            OnboardingAction::Nothing
        }
    }
}

/// Moving forward or back keeps the walkthrough in a state it can be in.
pub proof fn law_moves_keep_state_valid(step: int, feature: int)
    requires
        onboarding_wf(step, feature),
    ensures
        onboarding_wf(forward(step, feature).0, forward(step, feature).1),
        onboarding_wf(backward(step, feature).0, backward(step, feature).1),
{
}

/// Before the last step, moving back undoes moving forward.
pub proof fn law_back_undoes_forward(step: int, feature: int)
    requires
        onboarding_wf(step, feature),
        step < TOTAL_STEPS - 1,
    ensures
        backward(forward(step, feature).0, forward(step, feature).1) == (step, feature),
{
}

/// Away from the very start, moving forward undoes moving back.
pub proof fn law_forward_undoes_back(step: int, feature: int)
    requires
        onboarding_wf(step, feature),
        step > 0 || feature > 0,
    ensures
        forward(backward(step, feature).0, backward(step, feature).1) == (step, feature),
{
}

} // verus!
