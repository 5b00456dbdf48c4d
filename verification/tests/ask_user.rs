use qaqh_workspace::ask_user::{normalize_ask_user, AskUserError, NormalizedAsk, NormalizedAskMode};
use qaqh_workspace::json::Json;

fn from_value(v: serde_json::Value) -> Json {
    match v {
        serde_json::Value::Null => Json::Null,
        serde_json::Value::Bool(b) => Json::Bool(b),
        serde_json::Value::Number(n) => match (n.as_u64(), n.as_i64()) {
            (Some(u), _) => Json::Uint(u),
            (None, Some(i)) => Json::Int(i),
            _ => Json::Float(n.to_string()),
        },
        serde_json::Value::String(s) => Json::Str(s),
        serde_json::Value::Array(a) => Json::Arr(a.into_iter().map(from_value).collect()),
        serde_json::Value::Object(o) => {
            Json::Obj(o.into_iter().map(|(k, v)| (k, from_value(v))).collect())
        }
    }
}

fn json(text: &str) -> Json {
    from_value(serde_json::from_str(text).unwrap())
}

fn ask(text: &str) -> Result<NormalizedAsk, AskUserError> {
    normalize_ask_user(&json(text))
}

#[test]
fn old_format_single_question() {
    let value = ask(r#"{"question": "Choose A or B?", "options": ["A", "B"], "allow_custom": false}"#).unwrap();
    assert_eq!(value.mode, NormalizedAskMode::Single);
    assert_eq!(value.questions[0].id, "q1");
    assert_eq!(value.questions[0].question, "Choose A or B?");
    assert_eq!(value.questions[0].options.len(), 2);
    assert_eq!(value.questions[0].allow_custom, false);
}

#[test]
fn new_format_batch_questions() {
    let value = ask(
        r#"{"questions": [
            { "id": "arch", "question": "Which architecture?", "options": ["A", "B", "C"] },
            { "id": "strat", "question": "Strategy?", "allow_custom": true }
        ]}"#,
    )
    .unwrap();
    assert_eq!(value.mode, NormalizedAskMode::Batch);
    assert_eq!(value.questions.len(), 2);
    assert_eq!(value.questions[1].id, "strat");
    assert_eq!(value.questions[1].allow_custom, true);
}

#[test]
fn auto_id_generation() {
    let value = ask(
        r#"{"questions": [{ "question": "Q1?" }, { "question": "Q2?" }, { "question": "Q3?" }], "mode": "batch"}"#,
    )
    .unwrap();
    let qs = &value.questions;
    assert_eq!(qs[0].id, "q1");
    assert_eq!(qs[1].id, "q2");
    assert_eq!(qs[2].id, "q3");
}

#[test]
fn empty_questions_error() {
    assert!(ask(r#"{ "questions": [] }"#).is_err());
}

#[test]
fn missing_question_in_array_error() {
    assert!(ask(r#"{"questions": [{ "id": "q1", "question": "Valid?" }, { "id": "q2" }]}"#).is_err());
}

#[test]
fn old_format_no_options() {
    let value = ask(r#"{ "question": "What do you think?" }"#).unwrap();
    let q = &value.questions[0];
    assert_eq!(q.question, "What do you think?");
    assert!(q.options.is_empty());
    assert_eq!(q.allow_custom, true);
}

#[test]
fn multi_question_input_derives_batch_without_mode() {
    let ask = ask(
        r#"{"questions": [
            { "id": "arch", "question": "Architecture?", "options": ["A", "B"], "allow_custom": false },
            { "question": "Strategy?", "allow_custom": true }
        ]}"#,
    )
    .unwrap();

    assert_eq!(ask.mode, NormalizedAskMode::Batch);
    assert_eq!(ask.questions[0].id, "arch");
    assert_eq!(ask.questions[1].id, "q2");
}

#[test]
fn duplicate_question_ids_are_rejected() {
    let error = ask(
        r#"{"questions": [
            { "id": "same", "question": "First?", "allow_custom": true },
            { "id": "same", "question": "Second?", "allow_custom": true }
        ]}"#,
    )
    .unwrap_err();

    assert_eq!(error.code, "DUPLICATE_QUESTION_ID");
}

#[test]
fn duplicate_options_are_rejected() {
    let error =
        ask(r#"{"question": "Pick one", "options": ["A", "A"], "allow_custom": false}"#).unwrap_err();
    assert_eq!(error.code, "DUPLICATE_OPTION");
}

#[test]
fn unanswerable_question_is_rejected() {
    let error = ask(r#"{"question": "Blocked", "options": [], "allow_custom": false}"#).unwrap_err();
    assert_eq!(error.code, "UNANSWERABLE_QUESTION");
}

#[test]
fn blank_option_is_rejected_before_presenting_the_prompt() {
    let error = ask(r#"{"question": "Blocked", "options": ["   "], "allow_custom": false}"#).unwrap_err();
    assert_eq!(error.code, "INVALID_OPTION");
}

#[test]
fn explicit_blank_question_id_is_rejected() {
    let error = ask(
        r#"{"questions": [{ "id": "  ", "question": "Question?", "allow_custom": true }]}"#,
    )
    .unwrap_err();
    assert_eq!(error.code, "INVALID_QUESTION_ID");
}

#[test]
fn options_are_offered_without_white_space_around_them() {
    let value = ask(r#"{"question": "Pick one", "options": [" A ", "B\t"]}"#).unwrap();
    assert_eq!(value.questions[0].options, vec!["A", "B"]);
    let error = ask(r#"{"question": "Pick one", "options": ["A", " A"]}"#).unwrap_err();
    assert_eq!(error.code, "DUPLICATE_OPTION");
}
