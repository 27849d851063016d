use plainly::error::Error;
use plainly::llm::mock::MockLlm;
use plainly::llm::openai::{check_status, completions_url, first_choice, normalize_base_url, provider_id};
use plainly::llm::{malformed_reply, strip_fences, Prompt};

fn prompt(stage: &'static str) -> Prompt {
    Prompt { stage, system: "sys".to_string(), user: format!("user {stage}"), json: true }
}

#[test]
fn strips_json_fences() {
    assert_eq!(strip_fences("```json\n{\"a\":1}\n```"), "{\"a\":1}");
    assert_eq!(strip_fences("```\n{\"a\":1}\n```"), "{\"a\":1}");
    assert_eq!(strip_fences("  {\"a\":1}  "), "{\"a\":1}");
}

#[test]
fn fence_edge_cases() {
    assert_eq!(strip_fences("```json{\"a\":1}```"), "{\"a\":1}");
    assert_eq!(strip_fences("```\r\n\r\n x \n```  "), "x");
    assert_eq!(strip_fences("```"), "");
    assert_eq!(strip_fences("``"), "``");
    assert_eq!(strip_fences("```yaml\na: 1\n```"), "yaml\na: 1");
    assert_eq!(strip_fences("\u{3000}plain\u{a0}"), "plain");
}

#[test]
fn mock_replays_its_script_and_records_prompts() {
    let mut mock = MockLlm::new(vec!["one".to_string(), "two".to_string()]);
    assert_eq!(mock.complete(&prompt("resolve")).unwrap(), "one");
    assert_eq!(mock.complete(&prompt("explain")).unwrap(), "two");
    match mock.complete(&prompt("critique")) {
        Err(Error::Input(m)) => assert_eq!(m, "MockLlm ran out of replies at stage 'critique'"),
        other => panic!("unexpected {other:?}"),
    }
    assert_eq!(mock.stages(), vec!["resolve", "explain", "critique"]);
    let prompts = mock.prompts();
    assert_eq!(prompts.len(), 3);
    assert_eq!(prompts[1].user, "user explain");
    assert_eq!(mock.id(), "mock");
}

#[test]
fn a_malformed_reply_names_its_stage() {
    let e = malformed_reply("explain", "not json at all", "expected value".to_string());
    let m = e.message();
    assert!(m.contains("explain"), "unhelpful error: {m}");
    assert_eq!(
        m,
        "the model replied with something that was not valid JSON for stage 'explain': expected value\n---\nnot json at all\n---"
    );
}

#[test]
fn error_messages() {
    assert_eq!(
        Error::MissingApiKey.message(),
        "no API key found: set PLAINLY_API_KEY (or pass --api-key)"
    );
    let api = Error::Api { provider: "https://x".to_string(), status: 503, body: "busy".to_string() };
    assert_eq!(api.message(), "the https://x API returned 503: busy");
    assert_eq!(Error::Transport("dns".to_string()).message(), "could not reach the model provider");
    let io = Error::Io { path: "a.rs".to_string(), source: "denied".to_string() };
    assert_eq!(io.message(), "could not read a.rs: denied");
    assert_eq!(Error::Input("x".to_string()).message(), "x");
    let zero = Error::Api { provider: "p".to_string(), status: 0, body: String::new() };
    assert_eq!(zero.message(), "the p API returned 0: ");
}

#[test]
fn provider_addresses() {
    assert_eq!(normalize_base_url("http://localhost:11434/v1//"), "http://localhost:11434/v1");
    assert_eq!(normalize_base_url("https://api.openai.com/v1"), "https://api.openai.com/v1");
    assert_eq!(
        completions_url("https://api.openai.com/v1"),
        "https://api.openai.com/v1/chat/completions"
    );
    assert_eq!(provider_id("http://h/v1", "llama3"), "http://h/v1::llama3");
}

#[test]
fn provider_replies() {
    assert_eq!(check_status("p", 200, "ok".to_string()).unwrap(), "ok");
    assert_eq!(check_status("p", 299, "ok".to_string()).unwrap(), "ok");
    match check_status("p", 401, "denied".to_string()) {
        Err(Error::Api { provider, status, body }) => {
            assert_eq!((provider.as_str(), status, body.as_str()), ("p", 401, "denied"))
        }
        other => panic!("unexpected {other:?}"),
    }
    assert!(check_status("p", 199, String::new()).is_err());
    assert_eq!(first_choice("p", 200, vec!["a".to_string(), "b".to_string()]).unwrap(), "a");
    match first_choice("p", 200, vec![]) {
        Err(Error::Api { body, status, .. }) => {
            assert_eq!(body, "the provider returned no choices");
            assert_eq!(status, 200);
        }
        other => panic!("unexpected {other:?}"),
    }
}
