use pincer_chat::assistant::{
    finish_title, needs_title, Answer, AnswerEvent, AnswerState, Assistant, ModelPull, PullEvent,
    PullState, TitleDraft,
};
use pincer_chat::database::Database;
use pincer_chat::error::Error;
use pincer_chat::prompts::THREAD_TITLE_PROMPT;
use pincer_chat::types::{ChatResponse, Message, PullModelResponse, Role};

fn chunk(content: &str, done: bool) -> ChatResponse {
    ChatResponse {
        model: String::from("m"),
        created_at: String::from("2024-01-01T00:00:00Z"),
        message: Message::new(Role::Assistant, String::from(content)),
        done,
        total_duration: None,
        load_duration: None,
        prompt_eval_count: None,
        prompt_eval_duration: None,
        eval_count: None,
        eval_duration: None,
    }
}

fn session() -> (Assistant, Database) {
    let mut assistant = Assistant::new();
    assistant.set_model(String::from("llama3.2:1b"));
    let mut database = Database::new(String::from("memory"));
    database.run_migrations();
    (assistant, database)
}

#[test]
fn hello_scenario_streams_into_an_assistant_message() {
    let (assistant, mut database) = session();
    let thread = database.create_thread("New Thread").unwrap();
    let messages = database.get_messages(thread.id);
    assert_eq!(messages[0].role.as_str(), "system");

    database
        .create_message(thread.id, String::from("Hello"), Role::User)
        .unwrap();
    let (message_id, request) = assistant.begin_answer(&mut database, thread.id).unwrap();
    assert_eq!(request.messages.len(), 2);
    assert_eq!(request.messages[1].content, "Hello");
    assert_eq!(request.model, "llama3.2:1b");
    assert!(request.stream);

    let before_tokens = database.get_messages(thread.id);
    assert_eq!(before_tokens.len(), 3);
    assert_eq!(before_tokens[2].id, message_id);
    assert_eq!(before_tokens[2].role, Role::Assistant);
    assert_eq!(before_tokens[2].content, "");

    let mut answer = Answer::new(message_id);
    for part in ["Hi", " there", "!"] {
        answer.on_event(&mut database, AnswerEvent::Chunk(chunk(part, false)));
        assert_eq!(answer.state, AnswerState::Streaming);
    }
    answer.on_event(&mut database, AnswerEvent::Chunk(chunk("", true)));
    assert_eq!(answer.state, AnswerState::Done);

    let after = database.get_messages(thread.id);
    assert_eq!(after[2].content, "Hi there!");
    assert_eq!(after[2].role.as_str(), "assistant");
}

#[test]
fn answers_need_a_selected_model() {
    let assistant = Assistant::new();
    let mut database = Database::new(String::from("memory"));
    let thread = database.create_thread("t").unwrap();
    assert_eq!(
        assistant.begin_answer(&mut database, thread.id).unwrap_err(),
        Error::ModelNotSelected
    );
    assert_eq!(database.get_messages(thread.id).len(), 1);
    assert_eq!(
        assistant.generate_answer(Vec::new()).unwrap_err(),
        Error::ModelNotSelected
    );
}

#[test]
fn chat_request_carries_model_and_settings() {
    let (mut assistant, _) = session();
    assistant.set_temperature(200);
    assistant.set_top_k(10);
    assistant.set_top_p(750);
    let request = assistant
        .generate_answer(vec![Message::new(Role::User, String::from("q"))])
        .unwrap();
    assert_eq!(request.options.temperature_milli, 200);
    assert_eq!(request.options.top_k, 10);
    assert_eq!(request.options.top_p_milli, 750);
    assert_eq!(request.options.seed, 42);
    assistant.reset_parameters();
    let parameters = assistant.parameters();
    assert_eq!(parameters.temperature_milli, 500);
    assert_eq!(parameters.top_k, 40);
    assert_eq!(parameters.top_p_milli, 900);
    assert_eq!(parameters.model.as_deref(), Some("llama3.2:1b"));
}

#[test]
fn title_is_due_once_after_the_first_exchange() {
    let (assistant, mut database) = session();
    let thread = database.create_thread("New Thread").unwrap();
    database
        .create_message(thread.id, String::from("What is Rust?"), Role::User)
        .unwrap();
    let history = database.thread_history(thread.id).unwrap();
    assert!(!needs_title(&history));
    assert!(assistant.title_request(&history).is_none());

    database
        .create_message(thread.id, String::from("A language."), Role::Assistant)
        .unwrap();
    let history = database.thread_history(thread.id).unwrap();
    assert!(needs_title(&history));
    let request = assistant.title_request(&history).unwrap().unwrap();
    assert_eq!(request.messages[0].role, Role::System);
    assert_eq!(request.messages[0].content, THREAD_TITLE_PROMPT);
    assert_eq!(request.messages[1].content, "<query>What is Rust?</query>");

    database
        .create_message(thread.id, String::from("More?"), Role::User)
        .unwrap();
    let history = database.thread_history(thread.id).unwrap();
    assert!(!needs_title(&history));
    database
        .create_message(thread.id, String::from("Sure."), Role::Assistant)
        .unwrap();
    let history = database.thread_history(thread.id).unwrap();
    assert!(!needs_title(&history));
}

#[test]
fn title_is_cleaned_before_it_is_stored() {
    let (_, mut database) = session();
    let thread = database.create_thread("New Thread").unwrap();
    finish_title(
        &mut database,
        thread.id,
        "<think>let me see\nok</think>Rust\n Basics",
    )
    .unwrap();
    assert_eq!(database.get_thread(thread.id).unwrap().title, "Rust Basics");
    assert!(finish_title(&mut database, 999, "x").is_err());
}

#[test]
fn pull_against_an_unreachable_backend_leaves_model_unselected() {
    let mut assistant = Assistant::new();
    let mut pull = ModelPull::new(String::from("x"));
    pull.on_event(PullEvent::Failed(Error::BackendUnreachable));
    assert_eq!(pull.progress, 0);
    assert_eq!(pull.state, PullState::Failed(Error::BackendUnreachable));
    assert_eq!(assistant.pull_model(pull), Err(Error::BackendUnreachable));
    assert!(assistant.parameters().model.is_none());
}

#[test]
fn a_completed_pull_selects_the_model() {
    let mut assistant = Assistant::new();
    let mut pull = ModelPull::new(String::from("x"));
    for status in ["pulling manifest", "verifying", "success"] {
        pull.on_event(PullEvent::Progress(PullModelResponse {
            status: String::from(status),
            digest: None,
            total: Some(10),
            completed: Some(10),
        }));
    }
    pull.on_event(PullEvent::Finished);
    pull.on_event(PullEvent::Failed(Error::StreamDecode));
    assert_eq!(pull.progress, 3);
    assert_eq!(pull.state, PullState::Succeeded);
    assert_eq!(assistant.pull_model(pull), Ok(()));
    assert_eq!(assistant.parameters().model.as_deref(), Some("x"));
}

#[test]
fn an_answer_reports_each_appended_delta_and_stops_at_the_end() {
    let (assistant, mut database) = session();
    let thread = database.create_thread("t").unwrap();
    database.create_message(thread.id, String::from("q"), Role::User).unwrap();
    let (id, _) = assistant.begin_answer(&mut database, thread.id).unwrap();
    let mut answer = Answer::new(id);
    assert_eq!(answer.on_event(&mut database, AnswerEvent::Chunk(chunk("a", false))).as_deref(), Some("a"));
    assert_eq!(answer.on_event(&mut database, AnswerEvent::Chunk(chunk("", false))), None);
    assert_eq!(answer.on_event(&mut database, AnswerEvent::Failed(Error::StreamDecode)), None);
    assert_eq!(answer.state, AnswerState::Failed(Error::StreamDecode));
    assert_eq!(answer.on_event(&mut database, AnswerEvent::Chunk(chunk("b", false))), None);
    assert_eq!(database.get_messages(thread.id)[2].content, "a");
}

#[test]
fn a_title_draft_gathers_the_chunks_in_order() {
    let mut draft = TitleDraft::new();
    draft.on_event(AnswerEvent::Chunk(chunk("<think>x</think>", false)));
    draft.on_event(AnswerEvent::Chunk(chunk("Rust", false)));
    draft.on_event(AnswerEvent::Chunk(chunk("", false)));
    draft.on_event(AnswerEvent::Chunk(chunk(" Basics", false)));
    draft.on_event(AnswerEvent::Chunk(chunk("ignored", true)));
    draft.on_event(AnswerEvent::Chunk(chunk("late", false)));
    assert_eq!(draft.state, AnswerState::Done);
    assert_eq!(draft.text, "<think>x</think>Rust Basics");
    let mut ended = TitleDraft::new();
    ended.on_event(AnswerEvent::Chunk(chunk("partial", false)));
    ended.on_event(AnswerEvent::Ended);
    assert_eq!(ended.state, AnswerState::Done);
    assert_eq!(ended.text, "partial");
}

#[test]
fn every_trace_is_removed_from_a_title() {
    let (_, mut database) = session();
    let thread = database.create_thread("New Thread").unwrap();
    finish_title(&mut database, thread.id, "<think>a</think>b<think>c</think>").unwrap();
    assert_eq!(database.get_thread(thread.id).unwrap().title, "b");
    finish_title(&mut database, thread.id, "</think>x<think>y").unwrap();
    assert_eq!(database.get_thread(thread.id).unwrap().title, "x");
}
