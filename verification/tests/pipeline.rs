//! The pipeline driven stage by stage against a scripted model, with replies read by
//! `serde_json` the way the binary reads them.

use plainly::error::Error;
use plainly::llm::mock::MockLlm;
use plainly::llm::strip_fences;
use plainly::model::{Citation, CodeExample, Explanation, Level, Request, Topic};
use plainly::pipeline::critique::Critiqued;
use plainly::pipeline::explain::Draft;
use plainly::pipeline::ground::Grounded;
use plainly::pipeline::{Pipeline, RunAction, RunPhase, RunState, Stage, StageEvent};
use serde_json::Value;

const RESOLVE: &str = r#"{
  "canonical": "CAP theorem (distributed systems)",
  "domain": "distributed systems",
  "other_readings": ["CAP as in Common Agricultural Policy"]
}"#;

const EXPLAIN: &str = r#"{
  "summary": "When the network splits, you choose consistency or availability.",
  "plain": "A distributed database keeps copies of your data.\n\nWhen the machines cannot talk, each copy must either refuse to answer or risk answering with stale data.",
  "analogy": "Two shopkeepers sharing one notebook who lose their phone line.",
  "analogy_limits": ["Real partitions are partial and intermittent, not a clean cut."],
  "example": null
}"#;

const CRITIQUE: &str = r#"{
  "summary": "When the network splits, you choose consistency or availability.",
  "plain": "A distributed database keeps copies of your data.\n\nWhen the machines cannot talk, each copy must either refuse to answer or risk answering with stale data.",
  "analogy": "Two shopkeepers sharing one notebook who lose their phone line.",
  "analogy_limits": [
    "Real partitions are partial and intermittent, not a clean cut.",
    "The choice is per-operation, not one setting for the whole system."
  ],
  "example": null,
  "corrections": ["Dropped the claim that CA systems exist in practice."],
  "caveats": ["Vendor availability numbers were not verified."]
}"#;

const GROUND: &str = r#"{
  "citations": [
    {
      "title": "Brewer's Conjecture and the Feasibility of Consistent, Available, Partition-Tolerant Web Services",
      "url": null,
      "supports": "The formal statement of the trade-off."
    }
  ]
}"#;

fn request() -> Request {
    Request { query: "CAP theorem".to_string(), context: None, level: Level::Fifteen }
}

fn text(v: &Value, key: &str) -> String {
    v.get(key).and_then(Value::as_str).unwrap_or_default().to_string()
}

fn texts(v: &Value, key: &str) -> Vec<String> {
    v.get(key)
        .and_then(Value::as_array)
        .map(|items| items.iter().filter_map(Value::as_str).map(str::to_string).collect())
        .unwrap_or_default()
}

fn example(v: &Value) -> Option<CodeExample> {
    let e = v.get("example")?;
    if e.is_null() {
        return None;
    }
    Some(CodeExample { language: text(e, "language"), code: text(e, "code"), commentary: text(e, "commentary") })
}

fn object(raw: &str) -> Result<Value, String> {
    let v: Value = serde_json::from_str(strip_fences(raw)).map_err(|e| e.to_string())?;
    if v.is_object() {
        Ok(v)
    } else {
        Err("expected an object".to_string())
    }
}

fn resolved(v: Value) -> Topic {
    Topic {
        canonical: text(&v, "canonical"),
        domain: text(&v, "domain"),
        other_readings: texts(&v, "other_readings"),
        request: None,
    }
}

fn drafted(v: Value) -> Draft {
    Draft {
        summary: text(&v, "summary"),
        plain: text(&v, "plain"),
        analogy: text(&v, "analogy"),
        analogy_limits: texts(&v, "analogy_limits"),
        example: example(&v),
    }
}

fn critiqued(v: Value) -> Critiqued {
    Critiqued {
        summary: text(&v, "summary"),
        plain: text(&v, "plain"),
        analogy: text(&v, "analogy"),
        analogy_limits: texts(&v, "analogy_limits"),
        example: example(&v),
        corrections: texts(&v, "corrections"),
        caveats: texts(&v, "caveats"),
    }
}

fn grounded(v: Value) -> Grounded {
    Grounded {
        citations: v
            .get("citations")
            .and_then(Value::as_array)
            .map(|cs| {
                cs.iter()
                    .map(|c| Citation {
                        title: text(c, "title"),
                        url: c.get("url").and_then(Value::as_str).map(str::to_string),
                        supports: text(c, "supports"),
                    })
                    .collect()
            })
            .unwrap_or_default(),
    }
}

fn event<T>(result: Result<T, Error>, make: impl FnOnce(T) -> StageEvent) -> StageEvent {
    match result {
        Ok(value) => make(value),
        Err(error) => StageEvent::Failed(error),
    }
}

/// Runs a pipeline with `Pipeline::step` deciding every move, asking `mock` for each
/// stage's reply; returns the outcome and the stages the hook was told of.
fn run_announced(
    critic: bool,
    grounder: bool,
    mock: &mut MockLlm,
    request: &Request,
) -> (Result<Explanation, Error>, Vec<Stage>) {
    let mut pipeline: Pipeline<_, _, _, _, ()> = Pipeline::new(()).on_stage(());
    if !critic {
        pipeline = pipeline.with_critic(None);
    }
    if !grounder {
        pipeline = pipeline.with_grounder(None);
    }
    let mut told = Vec::new();
    let mut state = RunState::new();
    let mut ev = StageEvent::Begin;
    loop {
        let (next, action) = pipeline.step(state, ev);
        state = next;
        ev = match action {
            RunAction::Resolve { announce } => {
                if announce {
                    told.push(Stage::Resolve);
                }
                let resolver = pipeline.resolver();
                match mock.complete(&resolver.prompt(request)) {
                    Err(e) => StageEvent::Failed(e),
                    Ok(raw) => {
                        let parsed = object(&raw).map(resolved);
                        event(resolver.finish(parsed, &raw, request), StageEvent::Resolved)
                    }
                }
            }
            RunAction::Explain { announce, topic } => {
                if announce {
                    told.push(Stage::Explain);
                }
                let explainer = pipeline.explainer();
                match mock.complete(&explainer.prompt(&topic, request)) {
                    Err(e) => StageEvent::Failed(e),
                    Ok(raw) => {
                        let parsed = object(&raw).map(drafted);
                        let result = explainer.finish(&topic, request, parsed, &raw);
                        event(result, |x| StageEvent::Drafted(topic, x))
                    }
                }
            }
            RunAction::Critique { announce, topic, draft } => {
                if announce {
                    told.push(Stage::Critique);
                }
                let critic = pipeline.critic().unwrap();
                let draft_json = serde_json::to_string(&draft.summary).unwrap();
                match mock.complete(&critic.prompt(&topic, &draft, &draft_json)) {
                    Err(e) => StageEvent::Failed(e),
                    Ok(raw) => {
                        let parsed = object(&raw).map(critiqued);
                        event(critic.finish(draft, parsed, &raw), |x| StageEvent::Drafted(topic, x))
                    }
                }
            }
            RunAction::Ground { announce, topic, draft } => {
                if announce {
                    told.push(Stage::Ground);
                }
                let grounder = pipeline.grounder().unwrap();
                match mock.complete(&grounder.prompt(&topic, &draft)) {
                    Err(e) => StageEvent::Failed(e),
                    Ok(raw) => {
                        let parsed = object(&raw).map(grounded);
                        event(grounder.finish(draft, parsed, &raw), |x| StageEvent::Drafted(topic, x))
                    }
                }
            }
            RunAction::Finish(result) => return (result, told),
        };
    }
}

fn run(critic: bool, grounder: bool, mock: &mut MockLlm, request: &Request) -> Result<Explanation, Error> {
    run_announced(critic, grounder, mock, request).0
}

fn replies(items: &[&str]) -> Vec<String> {
    items.iter().map(|s| s.to_string()).collect()
}

#[test]
fn full_pipeline_runs_every_stage_in_order() {
    let mut mock = MockLlm::new(replies(&[RESOLVE, EXPLAIN, CRITIQUE, GROUND]));
    let explanation = run(true, true, &mut mock, &request()).unwrap();

    assert_eq!(mock.stages(), vec!["resolve", "explain", "critique", "ground"]);
    assert_eq!(explanation.topic, "CAP theorem (distributed systems)");
    assert_eq!(explanation.level, Level::Fifteen);
    assert_eq!(explanation.corrections.len(), 1);
    assert_eq!(explanation.caveats.len(), 1);
    assert_eq!(explanation.citations.len(), 1);
    // The critic's extra caveat must survive into the final artifact.
    assert_eq!(explanation.analogy_limits.len(), 2);
}

#[test]
fn fast_mode_skips_critique_and_grounding() {
    let mut mock = MockLlm::new(replies(&[RESOLVE, EXPLAIN]));
    let explanation = run(false, false, &mut mock, &request()).unwrap();

    assert_eq!(mock.stages(), vec!["resolve", "explain"]);
    assert!(explanation.corrections.is_empty());
    assert!(explanation.citations.is_empty());
}

#[test]
fn level_shapes_the_explain_prompt() {
    let mut mock = MockLlm::new(replies(&[RESOLVE, EXPLAIN]));
    let mut request = request();
    request.level = Level::Five;
    run(false, false, &mut mock, &request).unwrap();

    let explain_prompt = mock
        .prompts()
        .into_iter()
        .find(|prompt| prompt.stage == "explain")
        .expect("the explain stage ran");
    assert!(explain_prompt.user.contains("5-year-old"));
    assert!(explain_prompt.user.contains("zero jargon"));
}

#[test]
fn code_context_reaches_both_resolve_and_explain() {
    let mut mock = MockLlm::new(replies(&[RESOLVE, EXPLAIN]));
    let mut request = request();
    request.context = Some("fn takes_ownership(s: String) {}".to_string());
    run(false, false, &mut mock, &request).unwrap();

    for prompt in mock.prompts() {
        assert!(prompt.user.contains("takes_ownership"), "stage '{}' lost the code context", prompt.stage);
    }
}

#[test]
fn malformed_model_output_names_the_stage() {
    let mut mock = MockLlm::new(replies(&[RESOLVE, "not json at all"]));
    let error = run(false, false, &mut mock, &request()).unwrap_err();
    let message = error.message();
    assert!(message.contains("explain"), "unhelpful error: {message}");
}

#[test]
fn fenced_json_is_tolerated() {
    let fenced = format!("```json\n{RESOLVE}\n```");
    let mut mock = MockLlm::new(vec![fenced, EXPLAIN.to_string()]);
    let explanation = run(false, false, &mut mock, &request()).unwrap();
    assert_eq!(explanation.topic, "CAP theorem (distributed systems)");
}

#[test]
fn the_resolved_topic_remembers_its_request() {
    let mut mock = MockLlm::new(replies(&[RESOLVE]));
    let pipeline: Pipeline<_, _, _, _, ()> = Pipeline::new(());
    let resolver = pipeline.resolver();
    let prompt = resolver.prompt(&request());
    assert_eq!(prompt.user, "Term: CAP theorem");
    assert!(prompt.json);
    let raw = mock.complete(&prompt).unwrap();
    let v = object(&raw).unwrap();
    let parsed = Ok(Topic {
        canonical: text(&v, "canonical"),
        domain: text(&v, "domain"),
        other_readings: texts(&v, "other_readings"),
        request: None,
    });
    let topic = resolver.finish(parsed, &raw, &request()).unwrap();
    assert_eq!(topic.request.unwrap().query, "CAP theorem");
    assert_eq!(topic.other_readings.len(), 1);
}

#[test]
fn stage_prompts_are_built_from_their_inputs() {
    let pipeline: Pipeline<_, _, _, _, ()> = Pipeline::new(());
    let topic = Topic {
        canonical: "Monads".into(),
        domain: "functional programming".into(),
        other_readings: vec![],
        request: None,
    };
    let mut request = request();
    request.level = Level::Expert;
    request.context = Some("x >>= f".into());
    let p = pipeline.explainer().prompt(&topic, &request);
    assert_eq!(p.stage, "explain");
    assert_eq!(
        p.user,
        format!(
            "Concept: Monads\nField: functional programming\n\nExplain it to {}.\n{}\n\nGround the explanation in this code:\nx >>= f",
            Level::Expert.audience(),
            Level::Expert.jargon_policy()
        )
    );
    let draft = Explanation {
        topic: "Monads".into(),
        level: Level::Expert,
        summary: "S".into(),
        plain: "P".into(),
        analogy: String::new(),
        analogy_limits: vec![],
        example: None,
        corrections: vec![],
        caveats: vec![],
        citations: vec![],
    };
    let c = pipeline.critic().unwrap().prompt(&topic, &draft, "{}");
    assert_eq!(c.user, "Concept: Monads\nField: functional programming\nAudience level: expert\n\nDraft explanation:\n{}");
    let g = pipeline.grounder().unwrap().prompt(&topic, &draft);
    assert_eq!(g.user, "Concept: Monads\nField: functional programming\n\nExplanation:\nP\n\nS");
    assert_eq!(g.stage, "ground");
}

#[test]
fn the_plan_follows_the_configured_stages() {
    let full: Pipeline<_, _, _, _, ()> = Pipeline::new(());
    assert_eq!(full.plan(), vec![Stage::Resolve, Stage::Explain, Stage::Critique, Stage::Ground]);
    let no_critic = Pipeline::<_, _, _, _, ()>::new(()).with_critic(None);
    assert_eq!(no_critic.plan(), vec![Stage::Resolve, Stage::Explain, Stage::Ground]);
    assert_eq!(no_critic.next_stage(Some(Stage::Explain)), Some(Stage::Ground));
    assert_eq!(no_critic.next_stage(Some(Stage::Ground)), None);
    let hooked = full.on_stage(());
    assert!(hooked.hook().is_some());
    assert_eq!(Stage::Critique.name(), "critique");
}

#[test]
fn each_stage_is_announced_once_in_order() {
    let mut mock = MockLlm::new(replies(&[RESOLVE, EXPLAIN, CRITIQUE, GROUND]));
    let (result, told) = run_announced(true, true, &mut mock, &request());
    assert!(result.is_ok());
    assert_eq!(told, vec![Stage::Resolve, Stage::Explain, Stage::Critique, Stage::Ground]);
}

#[test]
fn a_failed_stage_ends_the_run_with_its_error() {
    let mut mock = MockLlm::new(replies(&[RESOLVE]));
    let (result, told) = run_announced(true, true, &mut mock, &request());
    let error = result.unwrap_err();
    assert_eq!(error.message(), "MockLlm ran out of replies at stage 'explain'");
    assert_eq!(told, vec![Stage::Resolve, Stage::Explain]);
    assert_eq!(mock.stages(), vec!["resolve", "explain"]);
}

#[test]
fn an_outcome_out_of_turn_finishes_the_run() {
    let pipeline: Pipeline<_, _, _, _, ()> = Pipeline::new(());
    let topic = Topic { canonical: "t".into(), domain: "d".into(), other_readings: vec![], request: None };
    let (state, action) = pipeline.step(RunState::new(), StageEvent::Resolved(topic));
    assert_eq!(state.phase, RunPhase::Finished);
    match action {
        RunAction::Finish(Err(e)) => assert_eq!(e.message(), "a stage outcome came out of turn"),
        other => panic!("expected the out-of-turn error, got {other:?}"),
    }
    let (state, action) = pipeline.step(state, StageEvent::Begin);
    assert_eq!(state.phase, RunPhase::Finished);
    assert!(matches!(action, RunAction::Finish(Err(_))));
}

#[test]
fn without_a_hook_nothing_is_announced() {
    let pipeline: Pipeline<_, _, _, _, ()> = Pipeline::new(());
    let (state, action) = pipeline.step(RunState::new(), StageEvent::Begin);
    assert_eq!(state.phase, RunPhase::Awaiting(Stage::Resolve));
    assert!(matches!(action, RunAction::Resolve { announce: false }));
}
