//! The steps of a comparison of models: each model runs on a branch of the
//! memory repository of its own, made and entered before the run and left
//! after it; then a judge model gives one verdict per output that was made,
//! and the best output is chosen. The caller performs each step and reports
//! how it went; the decisions are here.
use vstd::prelude::*;
use crate::commands::{best_output, branch_name, choose_best, model_branch};
use crate::text::string_views;

verus! {

/// Where a comparison is.
#[derive(Clone, Copy, PartialEq, Eq, Structural)]
pub enum CompareStage {
    /// The current model's branch is to be made.
    MakeBranch,
    /// The current model's branch is to be entered.
    EnterBranch,
    /// The current model is to run on its branch.
    RunModel,
    /// The original branch is to be entered again.
    LeaveBranch,
    /// The judge is to give its next verdict.
    Judging,
    /// The comparison is over.
    Over,
}

/// A comparison in progress: the models, in order; the time that names its
/// branches; the model being run; the models whose run gave an output, in
/// order; and the judge's verdicts so far, one per output.
pub struct Comparison {
    pub models: Vec<String>,
    pub timestamp: String,
    pub current: usize,
    pub stage: CompareStage,
    pub succeeded: Vec<usize>,
    pub verdicts: Vec<Option<usize>>,
}

/// How the step asked for went.
pub enum CompareEvent {
    /// The branch step or the run succeeded.
    Succeeded,
    /// The branch step or the run failed.
    Failed,
    /// What the judge answered: the number it named, none where asking it
    /// failed.
    Verdict(Option<usize>),
}

/// What the caller does next.
pub enum CompareAction {
    /// Make the branch.
    MakeBranch { branch: String },
    /// Enter the branch.
    EnterBranch { branch: String },
    /// Run the model at this place of the list on the branch entered.
    RunModel { model: usize },
    /// Enter the original branch again.
    LeaveBranch,
    /// Ask the judge for its verdict on the outputs, once more.
    Judge,
    /// No model gave an output.
    AllFailed,
    /// One model alone gave an output (the first of `succeeded`); no judge is asked.
    Single,
    /// The verdicts are in: the output chosen, by place in `succeeded`, if
    /// any, and the output kept, which is the chosen one or else the first.
    Decided { winner: Option<usize>, kept: usize },
}

/// A comparison, texts by their views.
pub struct ComparisonView {
    pub models: Seq<Seq<char>>,
    pub timestamp: Seq<char>,
    pub current: nat,
    pub stage: CompareStage,
    pub succeeded: Seq<usize>,
    pub verdicts: Seq<Option<usize>>,
}

impl View for Comparison {
    type V = ComparisonView;

    open spec fn view(&self) -> ComparisonView {
        ComparisonView {
            models: string_views(self.models@),
            timestamp: self.timestamp@,
            current: self.current as nat,
            stage: self.stage,
            succeeded: self.succeeded@,
            verdicts: self.verdicts@,
        }
    }
}

/// What the caller does next, texts by their views.
pub enum ActionView {
    MakeBranch(Seq<char>),
    EnterBranch(Seq<char>),
    RunModel(usize),
    LeaveBranch,
    Judge,
    AllFailed,
    Single,
    Decided(Option<usize>, usize),
}

impl CompareAction {
    pub open spec fn view_action(self) -> ActionView {
        match self {
            CompareAction::MakeBranch { branch } => ActionView::MakeBranch(branch@),
            CompareAction::EnterBranch { branch } => ActionView::EnterBranch(branch@),
            CompareAction::RunModel { model } => ActionView::RunModel(model),
            CompareAction::LeaveBranch => ActionView::LeaveBranch,
            CompareAction::Judge => ActionView::Judge,
            CompareAction::AllFailed => ActionView::AllFailed,
            CompareAction::Single => ActionView::Single,
            CompareAction::Decided { winner, kept } => ActionView::Decided(winner, kept),
        }
    }
}

/// The verdicts as the numbers `best_output` reads.
pub open spec fn verdict_numbers(v: Seq<Option<usize>>) -> Seq<Option<nat>> {
    v.map_values(|x: Option<usize>| match x {
        Some(n) => Some(n as nat),
        None => None::<nat>,
    })
}

/// The output the verdicts choose, by place.
pub open spec fn chosen(v: Seq<Option<usize>>) -> Option<usize> {
    match best_output(verdict_numbers(v)) {
        Some(i) => Some(i as usize),
        None => None,
    }
}

impl ComparisonView {
    /// The comparison's bookkeeping agrees with its stage: a model is being
    /// run while runs remain; the outputs come from models already tried, in
    /// order; while the judge works there are two outputs or more, and fewer
    /// verdicts than outputs.
    pub open spec fn wf(self) -> bool {
        &&& self.models.len() > 0
        &&& self.current < self.models.len()
        &&& forall|k: int| 0 <= k < self.succeeded.len() ==> #[trigger] self.succeeded[k] <= self.current
        &&& forall|k: int, j: int| 0 <= k < j < self.succeeded.len() ==> self.succeeded[k] < self.succeeded[j]
        &&& (self.stage == CompareStage::MakeBranch || self.stage == CompareStage::EnterBranch || self.stage == CompareStage::RunModel)
            ==> forall|k: int| 0 <= k < self.succeeded.len() ==> #[trigger] self.succeeded[k] < self.current
        &&& self.stage == CompareStage::Judging ==> {
            &&& self.succeeded.len() >= 2
            &&& self.verdicts.len() < self.succeeded.len()
            &&& self.current == self.models.len() - 1
        }
        &&& self.stage != CompareStage::Judging && self.stage != CompareStage::Over ==> self.verdicts.len() == 0
    }

    /// Whether the event is one the stage waits for: a verdict while the
    /// judge works, success or failure of a step otherwise.
    pub open spec fn fits(self, e: CompareEvent) -> bool {
        &&& self.stage != CompareStage::Over
        &&& (self.stage == CompareStage::Judging <==> e is Verdict)
    }

    /// Once the current model is done with: the next model's branch is to be
    /// made; after the last model, the judge is asked where two outputs or
    /// more were made, and otherwise the comparison ends.
    pub open spec fn after_model(self) -> (ComparisonView, ActionView) {
        if self.current < self.models.len() - 1 {
            let n = (self.current + 1) as nat;
            (
                ComparisonView { current: n, stage: CompareStage::MakeBranch, ..self },
                ActionView::MakeBranch(branch_name(self.models[n as int], self.timestamp)),
            )
        } else if self.succeeded.len() == 0 {
            (ComparisonView { stage: CompareStage::Over, ..self }, ActionView::AllFailed)
        } else if self.succeeded.len() == 1 {
            (ComparisonView { stage: CompareStage::Over, ..self }, ActionView::Single)
        } else {
            (ComparisonView { stage: CompareStage::Judging, ..self }, ActionView::Judge)
        }
    }

    /// The next state and action after the event.
    pub open spec fn next(self, e: CompareEvent) -> (ComparisonView, ActionView) {
        let branch = branch_name(self.models[self.current as int], self.timestamp);
        match self.stage {
            CompareStage::MakeBranch => match e {
                CompareEvent::Succeeded => (ComparisonView { stage: CompareStage::EnterBranch, ..self }, ActionView::EnterBranch(branch)),
                _ => self.after_model(),
            },
            CompareStage::EnterBranch => match e {
                CompareEvent::Succeeded => (
                    ComparisonView { stage: CompareStage::RunModel, ..self },
                    ActionView::RunModel(self.current as usize),
                ),
                _ => self.after_model(),
            },
            CompareStage::RunModel => {
                let succeeded = match e {
                    CompareEvent::Succeeded => self.succeeded.push(self.current as usize),
                    _ => self.succeeded,
                };
                (ComparisonView { stage: CompareStage::LeaveBranch, succeeded, ..self }, ActionView::LeaveBranch)
            },
            CompareStage::LeaveBranch => self.after_model(),
            CompareStage::Judging => {
                let verdicts = match e {
                    CompareEvent::Verdict(v) => self.verdicts.push(v),
                    _ => self.verdicts,
                };
                if verdicts.len() < self.succeeded.len() {
                    (ComparisonView { verdicts, ..self }, ActionView::Judge)
                } else {
                    let w = chosen(verdicts);
                    (
                        ComparisonView { stage: CompareStage::Over, verdicts, ..self },
                        ActionView::Decided(w, match w { Some(i) => i, None => 0 }),
                    )
                }
            },
            CompareStage::Over => (self, ActionView::AllFailed),
        }
    }
}

impl Comparison {
    /// A comparison of the models, whose branches are named with
    /// `timestamp`: the first model's branch is to be made. None where there
    /// is no model.
    pub fn start(models: Vec<String>, timestamp: &str) -> (r: Option<(Comparison, CompareAction)>)
        ensures
            r is Some <==> models@.len() > 0,
            r matches Some((c, a)) ==> {
                &&& c@.wf()
                &&& c@.models == string_views(models@)
                &&& c@.timestamp == timestamp@
                &&& c@.current == 0
                &&& c@.stage == CompareStage::MakeBranch
                &&& c@.succeeded.len() == 0
                &&& c@.verdicts.len() == 0
                &&& a.view_action() == ActionView::MakeBranch(branch_name(string_views(models@)[0], timestamp@))
            },
    {
        if models.len() == 0 {
            return None;
        }
        let branch = model_branch(models[0].as_str(), timestamp);
        let c = Comparison {
            models,
            timestamp: timestamp.to_owned(),
            current: 0,
            stage: CompareStage::MakeBranch,
            succeeded: Vec::new(),
            verdicts: Vec::new(),
        };
        Some((c, CompareAction::MakeBranch { branch }))
    }

    fn after_model(&mut self) -> (a: CompareAction)
        requires
            old(self)@.wf(),
            old(self)@.stage == CompareStage::MakeBranch || old(self)@.stage == CompareStage::EnterBranch
                || old(self)@.stage == CompareStage::LeaveBranch,
        ensures
            (final(self)@, a.view_action()) == old(self)@.after_model(),
    {
        if self.current < self.models.len() - 1 {
            self.current = self.current + 1;
            self.stage = CompareStage::MakeBranch;
            let branch = model_branch(self.models[self.current].as_str(), self.timestamp.as_str());
            CompareAction::MakeBranch { branch }
        } else if self.succeeded.len() == 0 {
            self.stage = CompareStage::Over;
            CompareAction::AllFailed
        } else if self.succeeded.len() == 1 {
            self.stage = CompareStage::Over;
            CompareAction::Single
        } else {
            self.stage = CompareStage::Judging;
            CompareAction::Judge
        }
    }

    /// Takes how the step asked for went, and says what comes next (see
    /// `ComparisonView::next`).
    pub fn step(&mut self, e: CompareEvent) -> (a: CompareAction)
        requires
            old(self)@.wf(),
            old(self)@.fits(e),
        ensures
            (final(self)@, a.view_action()) == old(self)@.next(e),
            final(self)@.stage != CompareStage::Over ==> final(self)@.wf(),
            a matches CompareAction::Decided { kept, .. } ==> {
                &&& final(self)@.verdicts.len() == final(self)@.succeeded.len()
                &&& kept < final(self)@.succeeded.len()
            },
            a is Single ==> final(self)@.succeeded.len() == 1,
            a matches CompareAction::RunModel { model } ==> model < final(self)@.models.len(),
    {
        match self.stage {
            CompareStage::MakeBranch => match e {
                CompareEvent::Succeeded => {
                    self.stage = CompareStage::EnterBranch;
                    let branch = model_branch(self.models[self.current].as_str(), self.timestamp.as_str());
                    CompareAction::EnterBranch { branch }
                },
                _ => self.after_model(),
            },
            CompareStage::EnterBranch => match e {
                CompareEvent::Succeeded => {
                    self.stage = CompareStage::RunModel;
                    CompareAction::RunModel { model: self.current }
                },
                _ => self.after_model(),
            },
            CompareStage::RunModel => {
                match e {
                    CompareEvent::Succeeded => self.succeeded.push(self.current),
                    _ => {},
                }
                self.stage = CompareStage::LeaveBranch;
                CompareAction::LeaveBranch
            },
            CompareStage::LeaveBranch => self.after_model(),
            CompareStage::Judging => {
                match e {
                    CompareEvent::Verdict(v) => self.verdicts.push(v),
                    _ => {},
                }
                if self.verdicts.len() < self.succeeded.len() {
                    CompareAction::Judge
                } else {
                    self.stage = CompareStage::Over;
                    let w = choose_best(&self.verdicts);
                    proof {
                        crate::commands::lemma_best_output_is_first_winner(verdict_numbers(self.verdicts@));
                    }
                    let kept = match w {
                        Some(i) => i,
                        None => 0,
                    };
                    CompareAction::Decided { winner: w, kept }
                }
            },
            CompareStage::Over => CompareAction::AllFailed,
        }
    }
}

} // verus!
