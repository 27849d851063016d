//! The four stages an explanation passes through, and the order they run in.
//!
//! A `Pipeline` holds one value per stage, whatever the caller uses to run that
//! stage (the model-backed stages of this module, or anything else), and runs a
//! request through them one `step` at a time: each step takes what the last stage
//! produced and says which stage runs next, with what, and whether to tell the hook;
//! or finishes with the explanation or the first error. Running a stage (asking a
//! model, awaiting its reply) is left to the caller.
use crate::error::Error;
use crate::model::{audience_text, jargon_text, Explanation, Request, Topic};
use crate::text::{contains, lemma_contains_concat};
use vstd::prelude::*;

pub mod critique;
pub mod explain;
pub mod ground;
pub mod resolve;

use crate::pipeline::critique::LlmCritic;
use crate::pipeline::explain::{explain_user_text, LlmExplainer};
use crate::pipeline::ground::LlmGrounder;
use crate::pipeline::resolve::{context_block, resolve_user_text, LlmResolver};

verus! {

/// The stages, in the order they can run.
#[derive(Debug, Clone, Copy, PartialEq, Eq, Structural)]
pub enum Stage {
    /// Work out which concept the user actually meant.
    Resolve,
    /// Say it simply.
    Explain,
    /// Attack the explanation for oversimplification, then repair it.
    Critique,
    /// Attach sources for the load-bearing claims.
    Ground,
}

pub open spec fn stage_text(stage: Stage) -> Seq<char> {
    match stage {
        Stage::Resolve => "resolve"@,
        Stage::Explain => "explain"@,
        Stage::Critique => "critique"@,
        Stage::Ground => "ground"@,
    }
}

impl Stage {
    /// The name the stage is announced and reported under.
    pub fn name(self) -> (r: &'static str)
        ensures
            r@ == stage_text(self),
    {
        match self {
            Stage::Resolve => "resolve",
            Stage::Explain => "explain",
            Stage::Critique => "critique",
            Stage::Ground => "ground",
        }
    }
}

/// The stages that run: resolve and explain always, then critique when there is a
/// critic, then ground when there is a grounder.
pub open spec fn stage_plan(critic: bool, grounder: bool) -> Seq<Stage> {
    seq![Stage::Resolve, Stage::Explain] + (if critic {
        seq![Stage::Critique]
    } else {
        seq![]
    }) + (if grounder {
        seq![Stage::Ground]
    } else {
        seq![]
    })
}

/// The position of `stage` in `plan`.
pub open spec fn position(plan: Seq<Stage>, stage: Stage) -> Option<int>
    decreases plan.len(),
{
    if plan.len() == 0 {
        None
    } else if plan.last() == stage {
        Some(plan.len() - 1)
    } else {
        position(plan.drop_last(), stage)
    }
}

/// The stage after `done` in `plan`: the first one when nothing has run, and none
/// after the last one.
pub open spec fn next_in_plan(plan: Seq<Stage>, done: Option<Stage>) -> Option<Stage> {
    match done {
        None => if plan.len() > 0 {
            Some(plan[0])
        } else {
            None
        },
        Some(s) => match position(plan, s) {
            Some(i) => if i + 1 < plan.len() {
                Some(plan[i + 1])
            } else {
                None
            },
            None => None,
        },
    }
}

/// The explanation pipeline: one value per stage, the optional ones optional, and an
/// optional hook that is told as each stage starts.
pub struct Pipeline<R, E, C, G, H> {
    resolver: R,
    explainer: E,
    critic: Option<C>,
    grounder: Option<G>,
    on_stage: Option<H>,
}

impl<L: Clone, H> Pipeline<LlmResolver<L>, LlmExplainer<L>, LlmCritic<L>, LlmGrounder<L>, H> {
    /// The default wiring: every stage backed by the same model.
    pub fn new(llm: L) -> (r: Self)
        ensures
            r.parts().2 is Some,
            r.parts().3 is Some,
            r.parts().4 is None,
            vstd::pervasive::cloned(llm, r.parts().0.model()),
            vstd::pervasive::cloned(llm, r.parts().1.model()),
            vstd::pervasive::cloned(llm, r.parts().2->0.model()),
            r.parts().3->0.model() == llm,
    {
        Pipeline {
            resolver: LlmResolver::new(llm.clone()),
            explainer: LlmExplainer::new(llm.clone()),
            critic: Some(LlmCritic::new(llm.clone())),
            grounder: Some(LlmGrounder::new(llm)),
            on_stage: None,
        }
    }
}

impl<R, E, C, G, H> Pipeline<R, E, C, G, H> {
    /// The stages and the hook: resolver, explainer, critic, grounder, hook.
    pub closed spec fn parts(&self) -> (R, E, Option<C>, Option<G>, Option<H>) {
        (self.resolver, self.explainer, self.critic, self.grounder, self.on_stage)
    }

    /// A pipeline from its stages, with no hook.
    pub fn from_stages(resolver: R, explainer: E, critic: Option<C>, grounder: Option<G>) -> (r: Self)
        ensures
            r.parts() == (resolver, explainer, critic, grounder, None::<H>),
    {
        Pipeline { resolver, explainer, critic, grounder, on_stage: None }
    }

    pub fn with_resolver(self, resolver: R) -> (r: Self)
        ensures
            r.parts() == (resolver, self.parts().1, self.parts().2, self.parts().3, self.parts().4),
    {
        Pipeline { resolver, ..self }
    }

    pub fn with_explainer(self, explainer: E) -> (r: Self)
        ensures
            r.parts() == (self.parts().0, explainer, self.parts().2, self.parts().3, self.parts().4),
    {
        Pipeline { explainer, ..self }
    }

    /// Replaces the critic; `None` skips the critique stage.
    pub fn with_critic(self, critic: Option<C>) -> (r: Self)
        ensures
            r.parts() == (self.parts().0, self.parts().1, critic, self.parts().3, self.parts().4),
    {
        Pipeline { critic, ..self }
    }

    /// Replaces the grounder; `None` skips the ground stage.
    pub fn with_grounder(self, grounder: Option<G>) -> (r: Self)
        ensures
            r.parts() == (self.parts().0, self.parts().1, self.parts().2, grounder, self.parts().4),
    {
        Pipeline { grounder, ..self }
    }

    /// Sets the hook that is called as each stage starts.
    pub fn on_stage(self, hook: H) -> (r: Self)
        ensures
            r.parts() == (self.parts().0, self.parts().1, self.parts().2, self.parts().3, Some(hook)),
    {
        Pipeline { on_stage: Some(hook), ..self }
    }

    pub fn resolver(&self) -> (r: &R)
        ensures
            *r == self.parts().0,
    {
        &self.resolver
    }

    pub fn explainer(&self) -> (r: &E)
        ensures
            *r == self.parts().1,
    {
        &self.explainer
    }

    pub fn critic(&self) -> (r: Option<&C>)
        ensures
            r == match self.parts().2 {
                Some(c) => Some(&c),
                None => None,
            },
    {
        self.critic.as_ref()
    }

    pub fn grounder(&self) -> (r: Option<&G>)
        ensures
            r == match self.parts().3 {
                Some(g) => Some(&g),
                None => None,
            },
    {
        self.grounder.as_ref()
    }

    /// The hook to tell as each stage starts, if any.
    pub fn hook(&self) -> (r: Option<&H>)
        ensures
            r == match self.parts().4 {
                Some(h) => Some(&h),
                None => None,
            },
    {
        self.on_stage.as_ref()
    }

    /// The stages this pipeline runs, in order.
    pub fn plan(&self) -> (r: Vec<Stage>)
        ensures
            r@ == stage_plan(self.parts().2 is Some, self.parts().3 is Some),
    {
        let mut r: Vec<Stage> = Vec::new();
        r.push(Stage::Resolve);
        r.push(Stage::Explain);
        if self.critic.is_some() {
            r.push(Stage::Critique);
        }
        if self.grounder.is_some() {
            r.push(Stage::Ground);
        }
        assert(r@ =~= stage_plan(self.parts().2 is Some, self.parts().3 is Some));
        r
    }

    /// The stage to run after `done` (after nothing, when `done` is `None`), or `None`
    /// when the explanation is finished.
    pub fn next_stage(&self, done: Option<Stage>) -> (r: Option<Stage>)
        ensures
            r == next_in_plan(stage_plan(self.parts().2 is Some, self.parts().3 is Some), done),
    {
        let critic = self.critic.is_some();
        let grounder = self.grounder.is_some();
        let ghost plan = stage_plan(critic, grounder);
        proof {
            lemma_plan_positions(critic, grounder);
        }
        match done {
            None => Some(Stage::Resolve),
            Some(Stage::Resolve) => Some(Stage::Explain),
            Some(Stage::Explain) => if critic {
                Some(Stage::Critique)
            } else if grounder {
                Some(Stage::Ground)
            } else {
                None
            },
            Some(Stage::Critique) => if critic && grounder {
                Some(Stage::Ground)
            } else {
                None
            },
            Some(Stage::Ground) => None,
        }
    }

    /// After `done` has run: the next stage of the plan with what it takes, or the
    /// finished explanation.
    fn advance(&self, done: Stage, topic: Topic, draft: Option<Explanation>) -> (r: (RunState, RunAction))
        ensures
            r == advance(
                stage_plan(self.parts().2 is Some, self.parts().3 is Some),
                self.parts().4 is Some,
                done,
                topic,
                draft,
            ),
    {
        let announce = self.on_stage.is_some();
        match self.next_stage(Some(done)) {
            None => match draft {
                Some(x) => (RunState { phase: RunPhase::Finished }, RunAction::Finish(Ok(x))),
                None => (RunState { phase: RunPhase::Finished }, RunAction::Finish(Err(Error::OutOfTurn))),
            },
            Some(next) => {
                let state = RunState { phase: RunPhase::Awaiting(next) };
                match next {
                    Stage::Resolve => (state, RunAction::Resolve { announce }),
                    Stage::Explain => (state, RunAction::Explain { announce, topic }),
                    Stage::Critique => match draft {
                        Some(x) => (state, RunAction::Critique { announce, topic, draft: x }),
                        None => (RunState { phase: RunPhase::Finished }, RunAction::Finish(Err(Error::OutOfTurn))),
                    },
                    Stage::Ground => match draft {
                        Some(x) => (state, RunAction::Ground { announce, topic, draft: x }),
                        None => (RunState { phase: RunPhase::Finished }, RunAction::Finish(Err(Error::OutOfTurn))),
                    },
                }
            },
        }
    }

    /// One step of a run: given where the run stands and what just happened, where it
    /// stands next and what the caller is to do. A failed stage finishes the run with
    /// its error; each stage of the plan is started in turn, told to the hook when
    /// there is one; once the plan is done the run finishes with the last explanation.
    pub fn step(&self, state: RunState, event: StageEvent) -> (r: (RunState, RunAction))
        ensures
            r == run_step(
                stage_plan(self.parts().2 is Some, self.parts().3 is Some),
                self.parts().4 is Some,
                state,
                event,
            ),
    {
        proof {
            lemma_plan_positions(self.parts().2 is Some, self.parts().3 is Some);
        }
        match event {
            StageEvent::Failed(e) => (RunState { phase: RunPhase::Finished }, RunAction::Finish(Err(e))),
            StageEvent::Begin => match state.phase {
                RunPhase::Ready => (
                    RunState { phase: RunPhase::Awaiting(Stage::Resolve) },
                    RunAction::Resolve { announce: self.on_stage.is_some() },
                ),
                _ => (RunState { phase: RunPhase::Finished }, RunAction::Finish(Err(Error::OutOfTurn))),
            },
            StageEvent::Resolved(t) => match state.phase {
                RunPhase::Awaiting(Stage::Resolve) => self.advance(Stage::Resolve, t, None),
                _ => (RunState { phase: RunPhase::Finished }, RunAction::Finish(Err(Error::OutOfTurn))),
            },
            StageEvent::Drafted(t, x) => match state.phase {
                RunPhase::Awaiting(s) => if s != Stage::Resolve {
                    self.advance(s, t, Some(x))
                } else {
                    (RunState { phase: RunPhase::Finished }, RunAction::Finish(Err(Error::OutOfTurn)))
                },
                _ => (RunState { phase: RunPhase::Finished }, RunAction::Finish(Err(Error::OutOfTurn))),
            },
        }
    }
}

// ---------------------------------------------------------------------------
// Running the stages

/// Where a run stands: not begun, waiting for a stage's outcome, or finished.
#[derive(Debug, Clone, Copy, PartialEq, Eq, Structural)]
pub enum RunPhase {
    Ready,
    Awaiting(Stage),
    Finished,
}

/// The state of one run of a pipeline, between two steps.
#[derive(Debug)]
pub struct RunState {
    pub phase: RunPhase,
}

impl RunState {
    /// A run that has not begun.
    pub fn new() -> (r: Self)
        ensures
            r.phase == RunPhase::Ready,
    {
        RunState { phase: RunPhase::Ready }
    }
}

/// What the caller hands the next step: the go-ahead, or the outcome of the stage
/// it was asked to run. The topic goes back with each draft, so that the next stage
/// can be handed it.
#[derive(Debug)]
pub enum StageEvent {
    /// Start the run.
    Begin,
    /// The resolve stage named this topic.
    Resolved(Topic),
    /// The explain, critique or ground stage produced this explanation, for this topic.
    Drafted(Topic, Explanation),
    /// The stage failed with this error.
    Failed(Error),
}

/// What the caller is to do next: run a stage (telling the hook first when
/// `announce` is set) with what that stage takes, or finish with this outcome.
#[derive(Debug)]
pub enum RunAction {
    Resolve { announce: bool },
    Explain { announce: bool, topic: Topic },
    Critique { announce: bool, topic: Topic, draft: Explanation },
    Ground { announce: bool, topic: Topic, draft: Explanation },
    Finish(Result<Explanation, Error>),
}

/// The end of a run that was handed an outcome it was not waiting for.
pub open spec fn out_of_turn() -> (RunState, RunAction) {
    (
        RunState { phase: RunPhase::Finished },
        RunAction::Finish(Err(Error::OutOfTurn)),
    )
}

/// After `done` has run, with `topic` resolved and `draft` the latest explanation:
/// start the next stage of the plan, or finish with the draft once the plan is done.
pub open spec fn advance(
    plan: Seq<Stage>,
    announce: bool,
    done: Stage,
    topic: Topic,
    draft: Option<Explanation>,
) -> (RunState, RunAction) {
    match next_in_plan(plan, Some(done)) {
        None => match draft {
            Some(x) => (RunState { phase: RunPhase::Finished }, RunAction::Finish(Ok(x))),
            None => out_of_turn(),
        },
        Some(next) => {
            let state = RunState { phase: RunPhase::Awaiting(next) };
            match next {
                Stage::Resolve => (state, RunAction::Resolve { announce }),
                Stage::Explain => (state, RunAction::Explain { announce, topic }),
                Stage::Critique => match draft {
                    Some(x) => (state, RunAction::Critique { announce, topic, draft: x }),
                    None => out_of_turn(),
                },
                Stage::Ground => match draft {
                    Some(x) => (state, RunAction::Ground { announce, topic, draft: x }),
                    None => out_of_turn(),
                },
            }
        },
    }
}

/// One step of a run of `plan`: a failure finishes the run with that error; the
/// go-ahead starts the first stage; the outcome of the awaited stage starts the next
/// stage of the plan, or finishes with the last explanation. Anything else finishes
/// the run with the out-of-turn error.
pub open spec fn run_step(plan: Seq<Stage>, announce: bool, state: RunState, event: StageEvent) -> (
    RunState,
    RunAction,
) {
    match event {
        StageEvent::Failed(e) => (RunState { phase: RunPhase::Finished }, RunAction::Finish(Err(e))),
        StageEvent::Begin => match state.phase {
            RunPhase::Ready => match next_in_plan(plan, None) {
                Some(Stage::Resolve) => (
                    RunState { phase: RunPhase::Awaiting(Stage::Resolve) },
                    RunAction::Resolve { announce },
                ),
                _ => out_of_turn(),
            },
            _ => out_of_turn(),
        },
        StageEvent::Resolved(t) => match state.phase {
            RunPhase::Awaiting(Stage::Resolve) => advance(plan, announce, Stage::Resolve, t, None),
            _ => out_of_turn(),
        },
        StageEvent::Drafted(t, x) => match state.phase {
            RunPhase::Awaiting(s) => if s != Stage::Resolve {
                advance(plan, announce, s, t, Some(x))
            } else {
                out_of_turn()
            },
            _ => out_of_turn(),
        },
    }
}

/// The stage an action runs.
pub open spec fn action_stage(a: RunAction) -> Option<Stage> {
    match a {
        RunAction::Resolve { .. } => Some(Stage::Resolve),
        RunAction::Explain { .. } => Some(Stage::Explain),
        RunAction::Critique { .. } => Some(Stage::Critique),
        RunAction::Ground { .. } => Some(Stage::Ground),
        RunAction::Finish(_) => None,
    }
}

/// Whether an action tells the hook before its stage runs.
pub open spec fn action_announces(a: RunAction) -> bool {
    match a {
        RunAction::Resolve { announce } => announce,
        RunAction::Explain { announce, .. } => announce,
        RunAction::Critique { announce, .. } => announce,
        RunAction::Ground { announce, .. } => announce,
        RunAction::Finish(_) => false,
    }
}

/// The topic an action hands its stage.
pub open spec fn action_topic(a: RunAction) -> Option<Topic> {
    match a {
        RunAction::Explain { topic, .. } => Some(topic),
        RunAction::Critique { topic, .. } => Some(topic),
        RunAction::Ground { topic, .. } => Some(topic),
        _ => None,
    }
}

/// The explanation an action hands its stage.
pub open spec fn action_draft(a: RunAction) -> Option<Explanation> {
    match a {
        RunAction::Critique { draft, .. } => Some(draft),
        RunAction::Ground { draft, .. } => Some(draft),
        _ => None,
    }
}

/// The actions a run takes for a sequence of events, one per event.
pub open spec fn run_actions(
    plan: Seq<Stage>,
    announce: bool,
    state: RunState,
    events: Seq<StageEvent>,
) -> Seq<RunAction>
    decreases events.len(),
{
    if events.len() == 0 {
        seq![]
    } else {
        let (next, action) = run_step(plan, announce, state, events[0]);
        seq![action] + run_actions(plan, announce, next, events.drop_first())
    }
}

/// The events of a run in which every stage succeeds: the go-ahead, the resolved
/// topic, then one explanation per later stage.
pub open spec fn successful_events(topic: Topic, drafts: Seq<Explanation>) -> Seq<StageEvent> {
    seq![StageEvent::Begin, StageEvent::Resolved(topic)] + drafts.map_values(
        |x: Explanation| StageEvent::Drafted(topic, x),
    )
}

proof fn lemma_plan_positions(critic: bool, grounder: bool)
    ensures
        ({
            let plan = stage_plan(critic, grounder);
            &&& position(plan, Stage::Resolve) == Some(0int)
            &&& position(plan, Stage::Explain) == Some(1int)
            &&& position(plan, Stage::Critique) == if critic {
                Some(2int)
            } else {
                None
            }
            &&& position(plan, Stage::Ground) == if grounder {
                Some(plan.len() - 1)
            } else {
                None
            }
        }),
{
    let plan = stage_plan(critic, grounder);
    let base = seq![Stage::Resolve, Stage::Explain];
    let with_c = base + (if critic {
        seq![Stage::Critique]
    } else {
        seq![]
    });
    assert(plan == with_c + (if grounder {
        seq![Stage::Ground]
    } else {
        seq![]
    }));
    assert(base.drop_last() =~= seq![Stage::Resolve]);
    assert(seq![Stage::Resolve].drop_last() =~= Seq::<Stage>::empty());
    reveal_with_fuel(position, 5);
    if critic {
        assert(with_c.drop_last() =~= base);
    } else {
        assert(with_c =~= base);
    }
    if grounder {
        assert(plan.drop_last() =~= with_c);
    } else {
        assert(plan =~= with_c);
    }
}

/// The stages run in the order resolve, explain, critique, ground, each at most once:
/// starting from nothing and asking for the next stage each time visits exactly the
/// plan, in order, and then stops.
pub proof fn stages_run_in_order(critic: bool, grounder: bool)
    ensures
        ({
            let plan = stage_plan(critic, grounder);
            &&& next_in_plan(plan, None) == Some(plan[0])
            &&& forall|i: int|
                0 <= i < plan.len() - 1 ==> next_in_plan(plan, Some(#[trigger] plan[i])) == Some(
                    plan[i + 1],
                )
            &&& next_in_plan(plan, Some(plan.last())) is None
            &&& plan[0] == Stage::Resolve
            &&& plan[1] == Stage::Explain
            &&& (critic <==> plan.contains(Stage::Critique))
            &&& (grounder <==> plan.contains(Stage::Ground))
        }),
{
    lemma_plan_positions(critic, grounder);
    let plan = stage_plan(critic, grounder);
    assert forall|i: int| 0 <= i < plan.len() - 1 implies next_in_plan(
        plan,
        Some(#[trigger] plan[i]),
    ) == Some(plan[i + 1]) by {
        if i >= 2 {
            assert(critic && grounder);
            assert(plan[2] == Stage::Critique);
        }
    }
    if critic {
        assert(plan[2] == Stage::Critique);
    } else {
        assert forall|i: int| 0 <= i < plan.len() implies plan[i] != Stage::Critique by {}
    }
    if grounder {
        assert(plan[plan.len() - 1] == Stage::Ground);
    } else {
        assert forall|i: int| 0 <= i < plan.len() implies plan[i] != Stage::Ground by {}
    }
}

/// A failed stage finishes the run with its error, whatever the run was waiting for;
/// and a finished run starts no stage again, whatever it is handed.
pub proof fn a_failure_ends_the_run(
    plan: Seq<Stage>,
    announce: bool,
    state: RunState,
    error: Error,
    later: StageEvent,
)
    ensures
        run_step(plan, announce, state, StageEvent::Failed(error)) == (
            RunState { phase: RunPhase::Finished },
            RunAction::Finish(Err(error)),
        ),
        run_step(plan, announce, RunState { phase: RunPhase::Finished }, later).0.phase
            == RunPhase::Finished,
        run_step(plan, announce, RunState { phase: RunPhase::Finished }, later).1 is Finish,
{
}

proof fn lemma_step_after(plan: Seq<Stage>, announce: bool, s: Stage, topic: Topic, x: Explanation, i: int)
    requires
        plan.len() >= 2,
        plan[0] == Stage::Resolve,
        plan[1] == Stage::Explain,
        1 <= i < plan.len(),
        s == plan[i],
        s != Stage::Resolve,
        next_in_plan(plan, Some(s)) == (if i + 1 < plan.len() { Some(plan[i + 1]) } else { None::<Stage> }),
        i + 1 < plan.len() ==> (plan[i + 1] == Stage::Critique || plan[i + 1] == Stage::Ground),
    ensures
        run_step(plan, announce, RunState { phase: RunPhase::Awaiting(s) }, StageEvent::Drafted(topic, x))
            == (if i + 1 < plan.len() {
            (
                RunState { phase: RunPhase::Awaiting(plan[i + 1]) },
                if plan[i + 1] == Stage::Critique {
                    RunAction::Critique { announce, topic, draft: x }
                } else {
                    RunAction::Ground { announce, topic, draft: x }
                },
            )
        } else {
            (RunState { phase: RunPhase::Finished }, RunAction::Finish(Ok(x)))
        }),
{
}

/// A run in which every stage succeeds runs exactly the stages of the plan, in order,
/// each once and each told to the hook when there is one; every stage after resolve
/// is handed the resolved topic, every stage after explain the explanation the stage
/// before it produced; and the run finishes with the last explanation.
pub proof fn a_successful_run_follows_its_plan(
    critic: bool,
    grounder: bool,
    announce: bool,
    topic: Topic,
    drafts: Seq<Explanation>,
)
    requires
        drafts.len() + 1 == stage_plan(critic, grounder).len(),
    ensures
        ({
            let plan = stage_plan(critic, grounder);
            let actions = run_actions(
                plan,
                announce,
                RunState { phase: RunPhase::Ready },
                successful_events(topic, drafts),
            );
            &&& actions.len() == plan.len() + 1
            &&& forall|i: int|
                0 <= i < plan.len() ==> action_stage(#[trigger] actions[i]) == Some(plan[i])
                    && action_announces(actions[i]) == announce
            &&& forall|i: int| 1 <= i < plan.len() ==> action_topic(#[trigger] actions[i]) == Some(topic)
            &&& forall|i: int|
                2 <= i < plan.len() ==> action_draft(#[trigger] actions[i]) == Some(drafts[i - 2])
            &&& actions[plan.len() as int] == RunAction::Finish(Ok(drafts.last()))
        }),
{
    let plan = stage_plan(critic, grounder);
    lemma_plan_positions(critic, grounder);
    stages_run_in_order(critic, grounder);
    let events = successful_events(topic, drafts);
    let n = plan.len();
    assert(events.len() == n + 1);
    let s0 = RunState { phase: RunPhase::Ready };
    let s1 = RunState { phase: RunPhase::Awaiting(Stage::Resolve) };
    let s2 = RunState { phase: RunPhase::Awaiting(Stage::Explain) };
    assert(events[0] == StageEvent::Begin);
    assert(events[1] == StageEvent::Resolved(topic));
    assert(run_step(plan, announce, s0, events[0]) == (s1, RunAction::Resolve { announce }));
    assert(run_step(plan, announce, s1, events[1]) == (s2, RunAction::Explain { announce, topic }));
    let e2 = events.drop_first().drop_first();
    assert(e2 =~= drafts.map_values(|x: Explanation| StageEvent::Drafted(topic, x)));
    assert(events.drop_first()[0] == events[1]);
    reveal_with_fuel(run_actions, 3);
    let tail2 = run_actions(plan, announce, s2, e2);
    assert(run_actions(plan, announce, s0, events) == seq![RunAction::Resolve { announce }, RunAction::Explain { announce, topic }] + tail2);
    // the drafted events: one per stage from explain on
    if critic && grounder {
        assert(plan =~= seq![Stage::Resolve, Stage::Explain, Stage::Critique, Stage::Ground]);
        lemma_step_after(plan, announce, Stage::Explain, topic, drafts[0], 1);
        lemma_step_after(plan, announce, Stage::Critique, topic, drafts[1], 2);
        lemma_step_after(plan, announce, Stage::Ground, topic, drafts[2], 3);
        assert(e2[0] == StageEvent::Drafted(topic, drafts[0]));
        assert(e2.drop_first()[0] == StageEvent::Drafted(topic, drafts[1]));
        assert(e2.drop_first().drop_first()[0] == StageEvent::Drafted(topic, drafts[2]));
        assert(e2.drop_first().drop_first().drop_first().len() == 0);
        let s3 = RunState { phase: RunPhase::Awaiting(Stage::Critique) };
        let s4 = RunState { phase: RunPhase::Awaiting(Stage::Ground) };
        let e3 = e2.drop_first();
        let e4 = e3.drop_first();
        assert(run_actions(plan, announce, s4, e4) == seq![RunAction::Finish(Ok(drafts[2]))]);
        assert(run_actions(plan, announce, s3, e3) == seq![
            RunAction::Ground { announce, topic, draft: drafts[1] },
        ] + run_actions(plan, announce, s4, e4));
        assert(tail2 == seq![
            RunAction::Critique { announce, topic, draft: drafts[0] },
        ] + run_actions(plan, announce, s3, e3));
        let a = run_actions(plan, announce, s0, events);
        assert(a =~= seq![
            RunAction::Resolve { announce },
            RunAction::Explain { announce, topic },
            RunAction::Critique { announce, topic, draft: drafts[0] },
            RunAction::Ground { announce, topic, draft: drafts[1] },
            RunAction::Finish(Ok(drafts[2])),
        ]);
    } else if critic {
        assert(plan =~= seq![Stage::Resolve, Stage::Explain, Stage::Critique]);
        lemma_step_after(plan, announce, Stage::Explain, topic, drafts[0], 1);
        lemma_step_after(plan, announce, Stage::Critique, topic, drafts[1], 2);
        assert(e2[0] == StageEvent::Drafted(topic, drafts[0]));
        assert(e2.drop_first()[0] == StageEvent::Drafted(topic, drafts[1]));
        assert(e2.drop_first().drop_first().len() == 0);
        let a = run_actions(plan, announce, s0, events);
        assert(a =~= seq![
            RunAction::Resolve { announce },
            RunAction::Explain { announce, topic },
            RunAction::Critique { announce, topic, draft: drafts[0] },
            RunAction::Finish(Ok(drafts[1])),
        ]);
    } else if grounder {
        assert(plan =~= seq![Stage::Resolve, Stage::Explain, Stage::Ground]);
        lemma_step_after(plan, announce, Stage::Explain, topic, drafts[0], 1);
        lemma_step_after(plan, announce, Stage::Ground, topic, drafts[1], 2);
        assert(e2[0] == StageEvent::Drafted(topic, drafts[0]));
        assert(e2.drop_first()[0] == StageEvent::Drafted(topic, drafts[1]));
        assert(e2.drop_first().drop_first().len() == 0);
        let a = run_actions(plan, announce, s0, events);
        assert(a =~= seq![
            RunAction::Resolve { announce },
            RunAction::Explain { announce, topic },
            RunAction::Ground { announce, topic, draft: drafts[0] },
            RunAction::Finish(Ok(drafts[1])),
        ]);
    } else {
        assert(plan =~= seq![Stage::Resolve, Stage::Explain]);
        lemma_step_after(plan, announce, Stage::Explain, topic, drafts[0], 1);
        assert(e2[0] == StageEvent::Drafted(topic, drafts[0]));
        assert(e2.drop_first().len() == 0);
        let a = run_actions(plan, announce, s0, events);
        assert(a =~= seq![
            RunAction::Resolve { announce },
            RunAction::Explain { announce, topic },
            RunAction::Finish(Ok(drafts[0])),
        ]);
    }
}

/// The explain prompt names the audience of the requested level and its jargon rule.
pub proof fn level_shapes_the_explain_prompt(topic: Topic, request: Request)
    ensures
        contains(explain_user_text(topic, request), audience_text(request.level)),
        contains(explain_user_text(topic, request), jargon_text(request.level)),
{
    let pre = "Concept: "@ + topic.canonical@ + "\nField: "@ + topic.domain@
        + "\n\nExplain it to "@;
    let ctx = context_block("\n\nGround the explanation in this code:\n"@, request.context);
    let aud = audience_text(request.level);
    let jar = jargon_text(request.level);
    assert(explain_user_text(topic, request) =~= pre + aud + (".\n"@ + jar + ctx));
    lemma_contains_concat(pre, aud, ".\n"@ + jar + ctx);
    assert(explain_user_text(topic, request) =~= (pre + aud + ".\n"@) + jar + ctx);
    lemma_contains_concat(pre + aud + ".\n"@, jar, ctx);
}

/// Code given with a request reaches both the resolve prompt and the explain prompt.
pub proof fn code_context_reaches_resolve_and_explain(topic: Topic, request: Request)
    requires
        request.context is Some,
    ensures
        contains(resolve_user_text(request), request.context->0@),
        contains(explain_user_text(topic, request), request.context->0@),
{
    let c = request.context->0@;
    let r_pre = "Term: "@ + request.query@ + "\n\nThe user is asking about this code:\n"@;
    assert(resolve_user_text(request) =~= r_pre + c + seq![]);
    lemma_contains_concat(r_pre, c, seq![]);
    let e_pre = "Concept: "@ + topic.canonical@ + "\nField: "@ + topic.domain@
        + "\n\nExplain it to "@ + audience_text(request.level) + ".\n"@ + jargon_text(
        request.level,
    ) + "\n\nGround the explanation in this code:\n"@;
    assert(explain_user_text(topic, request) =~= e_pre + c + seq![]);
    lemma_contains_concat(e_pre, c, seq![]);
}

} // verus!
