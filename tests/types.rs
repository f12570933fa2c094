use pincer_chat::error::Error;
use pincer_chat::startup::{default_model, startup_step, StartupEvent, StartupScreenState};
use pincer_chat::stream::LineBuffer;
use pincer_chat::text::{find_text, remove_newlines, remove_think_tags, same_text};
use pincer_chat::types::{
    ListModelResponse, ListModelSingleModelResponse, Message, ModelDetails, PullModelRequest, Role,
};

#[test]
fn roles_round_trip_through_their_text() {
    for role in [Role::System, Role::User, Role::Assistant, Role::Tool] {
        assert_eq!(Role::parse(role.as_str()), Some(role));
    }
    assert_eq!(Role::User.as_str(), "user");
    assert_eq!(Role::parse("robot"), None);
    assert_eq!(Role::parse("User"), None);
    assert_eq!(Role::parse(""), None);
    assert_eq!(Role::decode("tool"), Ok(Role::Tool));
    assert_eq!(
        Role::decode("robot"),
        Err(Error::Storage(pincer_chat::error::StorageError::UnknownRole))
    );
}

#[test]
fn update_appends_content_of_the_same_role() {
    let mut message = Message::new(Role::Assistant, String::from("Hi"));
    let part = Message::new(Role::Assistant, String::from(" there"));
    assert_eq!(message.update(&part), Ok(()));
    assert_eq!(message.content, "Hi there");
    assert_eq!(message.role, Role::Assistant);
}

#[test]
fn update_with_another_role_is_refused_and_changes_nothing() {
    let mut message = Message::new(Role::Assistant, String::from("Hi"));
    let part = Message::new(Role::User, String::from("x"));
    assert_eq!(message.update(&part), Err(Error::RoleMismatch));
    assert_eq!(message.update(&part), Err(Error::RoleMismatch));
    assert_eq!(message.content, "Hi");
    assert_eq!(message.role, Role::Assistant);
}

#[test]
fn think_traces_are_removed() {
    assert_eq!(remove_think_tags("<think>hmm</think>Title"), "Title");
    assert_eq!(remove_think_tags("A <think>x</think>B"), "A B");
    assert_eq!(remove_think_tags("reasoning</think>Title"), "Title");
    assert_eq!(remove_think_tags("Title<think>never closed"), "Title");
    assert_eq!(remove_think_tags("Plain title"), "Plain title");
    assert_eq!(remove_think_tags(""), "");
    assert_eq!(remove_think_tags("<think>a</think>b<think>c</think>"), "b");
    assert_eq!(remove_think_tags("</think>x<think>y"), "x");
    assert_eq!(remove_think_tags("1<think>a</think>2<think>b</think>3"), "123");
}

#[test]
fn line_breaks_are_removed() {
    assert_eq!(remove_newlines("a\nb\n\nc\n"), "abc");
    assert_eq!(remove_newlines("\n"), "");
    assert_eq!(remove_newlines("no breaks"), "no breaks");
}

#[test]
fn text_search_finds_the_first_occurrence() {
    assert_eq!(find_text("abcabc", "bc"), Some(1));
    assert_eq!(find_text("abc", "x"), None);
    assert_eq!(find_text("ab", "abc"), None);
    assert!(same_text("ab", "ab"));
    assert!(!same_text("ab", "abc"));
}

#[test]
fn lines_are_split_across_pieces() {
    let mut buffer = LineBuffer::new();
    let lines = buffer.push(b"{\"a\":1}\n{\"b\"");
    assert_eq!(lines, vec![b"{\"a\":1}".to_vec()]);
    let lines = buffer.push(b":2}\n\n{\"c\":3}");
    assert_eq!(lines, vec![b"{\"b\":2}".to_vec(), Vec::new()]);
    assert_eq!(buffer.finish(), Some(b"{\"c\":3}".to_vec()));
    assert_eq!(buffer.finish(), None);
    assert!(buffer.push(b"").is_empty());
}

#[test]
fn startup_probes_lists_migrates_and_finishes() {
    let mut state = StartupScreenState::Start;
    state = startup_step(state, StartupEvent::Begin);
    assert_eq!(state, StartupScreenState::CheckOllama);
    state = startup_step(state, StartupEvent::BackendChecked(false));
    assert_eq!(state, StartupScreenState::OllamaNotRunning);
    state = startup_step(state, StartupEvent::Retry);
    assert_eq!(state, StartupScreenState::CheckOllama);
    state = startup_step(state, StartupEvent::BackendChecked(true));
    assert_eq!(state, StartupScreenState::ListModels);
    state = startup_step(state, StartupEvent::ModelsListed);
    assert_eq!(state, StartupScreenState::RunningDatabaseMigrations);
    assert_eq!(
        startup_step(state, StartupEvent::MigrationsRan(false)),
        StartupScreenState::DatabaseMigrationsFailed
    );
    state = startup_step(state, StartupEvent::MigrationsRan(true));
    assert_eq!(state, StartupScreenState::End);
    assert_eq!(startup_step(state, StartupEvent::Retry), StartupScreenState::End);
}

fn listed(name: &str) -> ListModelSingleModelResponse {
    ListModelSingleModelResponse {
        name: String::from(name),
        modified_at: String::new(),
        size: 1,
        digest: String::new(),
        details: ModelDetails {
            format: String::from("gguf"),
            family: String::from("llama"),
            families: None,
            parameter_size: String::from("1B"),
            quantization_level: String::from("Q8_0"),
        },
    }
}

#[test]
fn model_names_and_default_model() {
    let response = ListModelResponse {
        models: vec![listed("qwen3:4b"), listed("llama3.2:1b")],
    };
    let names = response.model_names();
    assert_eq!(names, vec!["qwen3:4b", "llama3.2:1b"]);
    assert_eq!(default_model(&names), "qwen3:4b");
    assert_eq!(default_model(&Vec::new()), "llama3.2:1b");
}

#[test]
fn pull_request_is_streamed_and_secure() {
    let request = PullModelRequest::for_model(String::from("x"));
    assert_eq!(request.model, "x");
    assert!(!request.insecure);
    assert!(request.stream);
}
