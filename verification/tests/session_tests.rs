use note_shell::session::SessionStore;
use note_shell::session::User;
use note_shell::session::create_user;

#[test]
fn fresh_session_holds_blank_record() {
    let store = SessionStore::new();
    let u = store.get_current();
    assert_eq!(u.id, 0);
    assert_eq!(u.username, "");
    assert_eq!(u.password, "");
}

#[test]
fn set_then_get_returns_the_stored_record() {
    let mut store = SessionStore::new();
    let u = User { id: 7, username: String::from("ada"), password: String::from("pw") };
    let echoed = store.set_current(u);
    assert_eq!(echoed.id, 7);
    assert_eq!(echoed.username, "ada");
    assert_eq!(echoed.password, "pw");
    let read_back = store.get_current();
    assert_eq!(read_back.id, 7);
    assert_eq!(read_back.username, "ada");
    assert_eq!(read_back.password, "pw");
}

#[test]
fn second_set_replaces_wholesale() {
    let mut store = SessionStore::new();
    store.set_current(User { id: 1, username: String::from("a"), password: String::from("x") });
    store.set_current(User { id: 2, username: String::from("b"), password: String::from("y") });
    let u = store.get_current();
    assert_eq!(u.id, 2);
    assert_eq!(u.username, "b");
    assert_eq!(u.password, "y");
}

#[test]
fn create_user_echoes_the_name() {
    let r = create_user("ada");
    assert_eq!(r, Ok(String::from("User ada would be created")));
}

#[test]
fn shared_session_replaces_atomically() {
    let shared = note_shell::session::SharedSession::new();
    let first = shared.get_current();
    assert_eq!(first.id, 0);
    shared.set_current(User { id: 3, username: String::from("eve"), password: String::from("p") });
    shared.set_current(User { id: 4, username: String::from("kay"), password: String::from("q") });
    let held = shared.get_current();
    assert_eq!(held.id, 4);
    assert_eq!(held.username, "kay");
}
