use pincer_chat::database::Database;
use pincer_chat::error::{Error, StorageError};
use pincer_chat::notification::DatabaseNotifierMessage;
use pincer_chat::types::Role;

fn setup() -> Database {
    let mut database = Database::new(String::from("memory"));
    database.run_migrations();
    database
}

#[test]
fn test_creating_thread() {
    let mut database = setup();
    let result = database.create_thread("Test Thread Title");
    assert!(result.is_ok(), "Error: {:?}", result.as_ref().err());
    let thread = result.unwrap();
    assert!(thread.id > 0);
    assert_eq!(thread.title, "Test Thread Title");

    let messages = database.get_messages(thread.id);
    assert_eq!(messages.len(), 1);
    assert_eq!(messages[0].role.as_str(), "system");
}

#[test]
fn test_updating_thread_title() {
    let mut database = setup();
    let result = database.create_thread("Test Thread Title");
    assert!(result.is_ok());
    let thread = result.unwrap();
    assert!(thread.id > 0);
    assert_eq!(thread.title, "Test Thread Title");

    database
        .update_thread_title(thread.id, String::from("A Different Title"))
        .expect("Updating thread title should work");

    let thread = database
        .get_thread(thread.id)
        .expect("Getting thread by id should work");
    assert_eq!(thread.title, "A Different Title");
}

#[test]
fn migrations_run_twice_apply_nothing_the_second_time() {
    let mut database = Database::new(String::from("memory"));
    assert_eq!(database.run_migrations(), 2);
    database.create_thread("kept").unwrap();
    assert_eq!(database.run_migrations(), 0);
    assert_eq!(database.get_threads().len(), 1);
    assert_eq!(database.database_url(), "memory");
}

#[test]
fn every_thread_opens_with_a_system_message() {
    let mut database = setup();
    let a = database.create_thread("a").unwrap();
    let b = database.create_thread("b").unwrap();
    database.create_message(a.id, String::from("hi"), Role::User).unwrap();
    database.create_message(b.id, String::from("yo"), Role::User).unwrap();
    for thread in database.get_threads() {
        let messages = database.get_messages(thread.id);
        assert!(!messages.is_empty());
        assert_eq!(messages[0].role, Role::System);
        assert!(messages.iter().all(|m| m.thread_id == thread.id));
    }
}

#[test]
fn appends_concatenate_in_order_across_interleaved_writes() {
    let mut database = setup();
    let a = database.create_thread("a").unwrap();
    let b = database.create_thread("b").unwrap();
    let ma = database.create_message(a.id, String::new(), Role::Assistant).unwrap();
    let mb = database.create_message(b.id, String::new(), Role::Assistant).unwrap();
    database.update_message(ma.id, String::from("c1"));
    database.update_message(mb.id, String::from("x"));
    database.create_message(b.id, String::from("other"), Role::User).unwrap();
    database.update_thread_title(a.id, String::from("renamed")).unwrap();
    database.update_message(ma.id, String::from("c2"));
    database.create_thread("c").unwrap();
    database.update_message(mb.id, String::from("y"));
    database.update_message(ma.id, String::from("c3"));
    let messages = database.get_messages(a.id);
    assert_eq!(messages[1].content, "c1c2c3");
    assert_eq!(messages[1].role, Role::Assistant);
    let messages = database.get_messages(b.id);
    assert_eq!(messages[1].content, "xy");
    assert_eq!(messages[2].content, "other");
}

#[test]
fn appending_to_an_unknown_message_changes_nothing() {
    let mut database = setup();
    let a = database.create_thread("a").unwrap();
    let before = database.get_messages(a.id);
    database.update_message(9999, String::from("lost"));
    let after = database.get_messages(a.id);
    assert_eq!(before.len(), after.len());
    assert_eq!(before[0].content, after[0].content);
}

#[test]
fn threads_are_listed_most_recently_updated_first() {
    let mut database = setup();
    let a = database.create_thread("a").unwrap();
    let b = database.create_thread("b").unwrap();
    let c = database.create_thread("c").unwrap();
    let ids: Vec<i64> = database.get_threads().iter().map(|t| t.id).collect();
    assert_eq!(ids, vec![c.id, b.id, a.id]);
    database.update_thread_title(a.id, String::from("a2")).unwrap();
    let ids: Vec<i64> = database.get_threads().iter().map(|t| t.id).collect();
    assert_eq!(ids, vec![a.id, c.id, b.id]);
    database.create_message(b.id, String::from("hello"), Role::User).unwrap();
    let threads = database.get_threads();
    let ids: Vec<i64> = threads.iter().map(|t| t.id).collect();
    assert_eq!(ids, vec![b.id, a.id, c.id]);
    assert!(threads[0].last_updated_at >= threads[1].last_updated_at);
    assert!(threads[1].last_updated_at >= threads[2].last_updated_at);
    assert_eq!(threads[0].created_at, b.created_at);
}

#[test]
fn deleting_a_thread_removes_its_messages() {
    let mut database = setup();
    let a = database.create_thread("a").unwrap();
    let b = database.create_thread("b").unwrap();
    database.create_message(a.id, String::from("hi"), Role::User).unwrap();
    database.delete_thread(a.id);
    assert_eq!(database.get_messages(a.id).len(), 0);
    assert_eq!(
        database.get_thread(a.id).unwrap_err(),
        Error::Storage(StorageError::ThreadNotFound(a.id))
    );
    assert_eq!(database.get_threads().len(), 1);
    assert_eq!(database.get_threads()[0].id, b.id);
    database.delete_thread(12345);
    assert_eq!(database.get_threads().len(), 1);
}

#[test]
fn writes_to_an_unknown_thread_are_refused() {
    let mut database = setup();
    assert_eq!(
        database.create_message(7, String::from("x"), Role::User).unwrap_err(),
        Error::Storage(StorageError::ThreadNotFound(7))
    );
    assert_eq!(
        database.update_thread_title(7, String::from("x")).unwrap_err(),
        Error::Storage(StorageError::ThreadNotFound(7))
    );
    assert!(database.thread_history(7).is_none());
}

#[test]
fn created_rows_get_fresh_ids_and_ticks() {
    let mut database = setup();
    let a = database.create_thread("a").unwrap();
    let b = database.create_thread("b").unwrap();
    assert_eq!(a.id, 1);
    assert_eq!(b.id, 2);
    assert_eq!(a.created_at, 1);
    assert_eq!(b.created_at, 2);
    let m = database.create_message(a.id, String::from("q"), Role::User).unwrap();
    assert_eq!(m.id, 3);
    assert_eq!(m.created_at, 3);
    assert_eq!(m.thread_id, a.id);
    let history = database.thread_history(a.id).unwrap();
    assert_eq!(history.len(), 2);
    assert_eq!(history[0].content, pincer_chat::prompts::ASSISTANT_SYSTEM_PROMPT);
    assert_eq!(history[1].content, "q");
}

#[test]
fn store_changes_reach_subscribers() {
    let mut database = setup();
    let listener = database.subscribe();
    let a = database.create_thread("a").unwrap();
    let m = database.create_message(a.id, String::new(), Role::Assistant).unwrap();
    database.update_message(m.id, String::from("tok"));
    database.update_thread_title(a.id, String::from("named")).unwrap();
    let events = database.receive(listener);
    assert_eq!(events.len(), 4);
    assert!(matches!(&events[0], DatabaseNotifierMessage::NewThread(t) if t.id == a.id));
    assert!(matches!(&events[1], DatabaseNotifierMessage::NewMessage(x) if x.id == m.id));
    assert!(matches!(&events[2], DatabaseNotifierMessage::UpdateMessage(d) if d == "tok"));
    assert!(matches!(&events[3], DatabaseNotifierMessage::UpdateThread(t) if t.title == "named"));
    database.get_messages(a.id);
    let events = database.receive(listener);
    assert!(matches!(&events[0], DatabaseNotifierMessage::GetThreadMessages(v) if v.len() == 2));
    database.unsubscribe(listener);
    database.create_thread("b").unwrap();
    assert_eq!(database.receive(listener).len(), 0);
}

fn thread_row(id: i64, updated: i64) -> pincer_chat::models::Thread {
    pincer_chat::models::Thread {
        id,
        title: format!("t{id}"),
        created_at: 1,
        last_updated_at: updated,
    }
}

fn message_row(id: i64, thread_id: i64, role: Role, content: &str) -> pincer_chat::models::Message {
    pincer_chat::models::Message {
        id,
        thread_id,
        created_at: id,
        content: String::from(content),
        role,
    }
}

#[test]
fn restore_rebuilds_threads_and_resumes_counters() {
    let threads = vec![thread_row(7, 20), thread_row(3, 10)];
    let messages = vec![
        message_row(1, 3, Role::System, "s3"),
        message_row(2, 7, Role::System, "s7"),
        message_row(4, 3, Role::User, "q"),
    ];
    let mut database =
        Database::restore(String::from("file.db"), threads, messages).expect("rows are valid");
    let ids: Vec<i64> = database.get_threads().iter().map(|t| t.id).collect();
    assert_eq!(ids, vec![7, 3]);
    let history = database.thread_history(3).unwrap();
    assert_eq!(history.len(), 2);
    assert_eq!(history[1].content, "q");
    let thread = database.create_thread("next").unwrap();
    assert_eq!(thread.id, 8);
    assert_eq!(thread.created_at, 21);
    let message = database.thread_history(thread.id).unwrap();
    assert_eq!(message[0].id, 5);
}

#[test]
fn restore_refuses_inconsistent_rows() {
    let inconsistent = Some(Error::Storage(StorageError::Inconsistent));
    // A thread whose first message is not a system message.
    let r = Database::restore(
        String::new(),
        vec![thread_row(1, 1)],
        vec![message_row(1, 1, Role::User, "q")],
    );
    assert_eq!(r.err(), inconsistent);
    // A thread with no message at all.
    let r = Database::restore(String::new(), vec![thread_row(1, 1)], Vec::new());
    assert_eq!(r.err(), inconsistent);
    // A message without its thread.
    let r = Database::restore(
        String::new(),
        vec![thread_row(1, 1)],
        vec![message_row(1, 1, Role::System, "s"), message_row(2, 9, Role::User, "x")],
    );
    assert_eq!(r.err(), inconsistent);
    // Threads out of order, and a duplicate id.
    let rows = vec![message_row(1, 1, Role::System, "s"), message_row(2, 2, Role::System, "s")];
    let r = Database::restore(String::new(), vec![thread_row(1, 1), thread_row(2, 5)], rows);
    assert_eq!(r.err(), inconsistent);
    let rows = vec![message_row(1, 1, Role::System, "s")];
    let r = Database::restore(String::new(), vec![thread_row(1, 1), thread_row(1, 1)], rows);
    assert_eq!(r.err(), inconsistent);
    // Messages out of creation order, and two messages sharing an id.
    let rows = vec![message_row(2, 1, Role::System, "s"), message_row(1, 1, Role::User, "q")];
    let r = Database::restore(String::new(), vec![thread_row(1, 5)], rows);
    assert_eq!(r.err(), inconsistent);
    let rows = vec![message_row(1, 1, Role::System, "s"), message_row(1, 2, Role::System, "s")];
    let r = Database::restore(String::new(), vec![thread_row(2, 5), thread_row(1, 5)], rows);
    assert_eq!(r.err(), inconsistent);
    // No rows at all is an empty store.
    assert_eq!(
        Database::restore(String::new(), Vec::new(), Vec::new())
            .unwrap()
            .get_threads()
            .len(),
        0
    );
}

#[test]
fn a_session_opens_on_the_latest_thread_or_a_new_one() {
    let mut database = setup();
    let first = database.latest_or_new_thread().unwrap();
    assert_eq!(first.title, "New Thread");
    assert_eq!(database.get_threads().len(), 1);
    let second = database.create_thread("b").unwrap();
    let opened = database.latest_or_new_thread().unwrap();
    assert_eq!(opened.id, second.id);
    assert_eq!(database.get_threads().len(), 2);
}

#[test]
fn messages_come_back_in_creation_order_with_fresh_ids() {
    let mut database = setup();
    let a = database.create_thread("a").unwrap();
    let b = database.create_thread("b").unwrap();
    let mut ids = Vec::new();
    for (thread, text) in [(a.id, "1"), (b.id, "2"), (a.id, "3"), (b.id, "4"), (a.id, "5")] {
        ids.push(database.create_message(thread, String::from(text), Role::User).unwrap().id);
    }
    let mut sorted = ids.clone();
    sorted.dedup();
    assert_eq!(sorted.len(), ids.len());
    let messages = database.get_messages(a.id);
    let contents: Vec<&str> = messages.iter().map(|m| m.content.as_str()).collect();
    assert_eq!(contents[1..], ["1", "3", "5"]);
    assert!(messages.windows(2).all(|w| w[0].id < w[1].id && w[0].created_at <= w[1].created_at));
}

#[test]
fn a_title_update_moves_the_stamp_forward() {
    let mut database = setup();
    let a = database.create_thread("a").unwrap();
    database.create_thread("b").unwrap();
    database.update_thread_title(a.id, String::from("renamed")).unwrap();
    let updated = database.get_thread(a.id).unwrap();
    assert!(updated.last_updated_at > a.last_updated_at);
    assert_eq!(updated.created_at, a.created_at);
}
