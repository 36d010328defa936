use talkback::message::Message;
use talkback::sessions::{AnonymSession, SessionError};
use talkback::user::User;

fn data() -> (String, String, String, String) {
    (
        String::from("login"),
        String::from("password"),
        String::from("This is test message #1."),
        String::from("This is test message #2."),
    )
}

fn fresh() -> AnonymSession {
    AnonymSession::new(&Vec::new()).unwrap()
}

#[test]
fn new_session_with_user_and_message() {
    let (login, password, message1, message2) = data();

    let mut session = fresh();

    let valid_session = session.register(&login, &password).unwrap();

    assert_eq!(valid_session.get_messages(0).len(), 0);

    valid_session.add_message(&login, &message1);
    assert_eq!(valid_session.get_messages(0).len(), 1);

    valid_session.add_message(&login, &message2);
    assert_eq!(valid_session.get_messages(0).len(), 2);
}

#[test]
fn register_error() {
    let (login, password, _, _) = data();

    let mut session = fresh();

    assert!(if let Err(SessionError::EmptyLogin) = session.register("", &password) {
        true
    } else {
        false
    });

    assert!(if let Err(SessionError::EmptyPassword) = session.register("test_login", "") {
        true
    } else {
        false
    });

    assert!(if let Err(SessionError::PasswordTooSmall) = session.register("test_login", "test") {
        true
    } else {
        false
    });

    session.register(&login, &password).unwrap();

    assert!(if let Err(SessionError::LoginExists) = session.register(&login, "test") {
        true
    } else {
        false
    });
}

#[test]
fn auth_error() {
    let (login, password, _, _) = data();

    let mut session = fresh();

    session.register(&login, &password).unwrap();

    assert!(if let Err(SessionError::EmptyLogin) = session.auth("", &password) {
        true
    } else {
        false
    });

    assert!(if let Err(SessionError::EmptyPassword) = session.auth(&login, "") {
        true
    } else {
        false
    });

    assert!(if let Err(SessionError::LoginNotFound) = session.auth("not_exist", &password) {
        true
    } else {
        false
    });

    assert!(if let Err(SessionError::AuthFailed) = session.auth(&login, "wrong_password") {
        true
    } else {
        false
    });
}

#[test]
fn users_storage() {
    let stored = {
        let mut session = fresh();

        session.register("test1", "password").expect("Can't register user!");
        session.register("test2", "password").expect("Can't register user!");

        session.storage()
    };

    {
        let lines: Vec<String> = stored.lines().map(String::from).collect();
        let mut session = AnonymSession::new(&lines).expect("Users storage is invalid!");

        session.auth("test1", "password").expect("Can't find registered user!");
        session.auth("test2", "password").expect("Can't find registered user!");
    }

    assert_eq!(
        stored,
        "test1;5f4dcc3b5aa765d61d8327deb882cf99\ntest2;5f4dcc3b5aa765d61d8327deb882cf99\n"
    );
}

#[test]
fn messages_from_offset() {
    let (login, password, message1, message2) = data();
    let mut session = fresh();
    let valid_session = session.register(&login, &password).unwrap();

    valid_session.add_message(&login, &message1);
    valid_session.add_message(&login, &message2);

    assert_eq!(valid_session.get_messages(0).len(), 2);
    assert_eq!(valid_session.get_messages(1).len(), 1);
    assert_eq!(valid_session.get_messages(2).len(), 0);
    assert_eq!(valid_session.get_messages(3).len(), 0);
    assert_eq!(valid_session.get_messages(usize::MAX).len(), 0);

    assert_eq!(
        valid_session.get_messages(1).get(0).unwrap().format(),
        "<b>login</b>: This is test message #2."
    );
    assert_eq!(
        valid_session.get_messages(0).get(0).unwrap().format(),
        "<b>login</b>: This is test message #1."
    );
}

#[test]
fn messages_are_shared_by_all_who_sign_in() {
    let mut session = fresh();
    session.register("first", "password").unwrap().add_message("first", "one");
    session.register("second", "password").unwrap().add_message("second", "two");

    let seen = session.auth("first", "password").unwrap().get_messages(0);
    assert_eq!(seen.len(), 2);
    assert_eq!(seen[0].format(), "<b>first</b>: one");
    assert_eq!(seen[1].format(), "<b>second</b>: two");
}

#[test]
fn message_format_marks_login_bold() {
    let message = Message::new(7, String::from("ann"), String::from("hello there"));
    assert_eq!(message.format(), "<b>ann</b>: hello there");
    assert_eq!(message.clone().format(), "<b>ann</b>: hello there");
    assert_eq!(Message::new(0, String::new(), String::new()).format(), "<b></b>: ");
}

#[test]
fn refused_sign_up_leaves_users_unchanged() {
    let mut session = fresh();
    session.register("login", "password").unwrap();
    let before = session.storage();

    assert!(session.register("", "password").is_err());
    assert!(session.register("login", "another password").is_err());
    assert!(session.register("other", "").is_err());
    assert!(session.register("other", "12345").is_err());

    assert_eq!(session.storage(), before);
    assert!(session.auth("login", "password").is_ok());
}

#[test]
fn sign_up_checks_login_before_password() {
    let mut session = fresh();
    session.register("login", "password").unwrap();

    assert!(matches!(session.register("", ""), Err(SessionError::EmptyLogin)));
    assert!(matches!(session.register("login", ""), Err(SessionError::LoginExists)));
    assert!(matches!(session.auth("", ""), Err(SessionError::EmptyLogin)));
    assert!(matches!(session.auth("nobody", ""), Err(SessionError::EmptyPassword)));
}

#[test]
fn password_length_counts_bytes() {
    let mut session = fresh();

    assert!(matches!(session.register("a", "12345"), Err(SessionError::PasswordTooSmall)));
    assert!(session.register("a", "123456").is_ok());
    // three letters of two bytes each
    assert!(session.register("b", "\u{e9}\u{e9}\u{e9}").is_ok());
    assert!(matches!(session.register("c", "\u{e9}\u{e9}x"), Err(SessionError::PasswordTooSmall)));
}

#[test]
fn stored_line_without_semicolon_is_refused() {
    assert!(AnonymSession::new(&vec![String::from("no separator")]).is_none());
    assert!(AnonymSession::new(&vec![String::from("a;b"), String::new()]).is_none());
    assert!(AnonymSession::new(&vec![String::from(";")]).is_some());
}

#[test]
fn stored_lines_are_read_back() {
    let lines = vec![
        String::from("ann;5f4dcc3b5aa765d61d8327deb882cf99"),
        String::from("bob;d41d8cd98f00b204e9800998ecf8427e;ignored"),
    ];
    let mut session = AnonymSession::new(&lines).unwrap();

    assert!(session.auth("ann", "password").is_ok());
    assert!(matches!(session.auth("ann", "Password"), Err(SessionError::AuthFailed)));
    assert!(matches!(session.auth("bob", "password"), Err(SessionError::AuthFailed)));
    assert_eq!(
        session.storage(),
        "ann;5f4dcc3b5aa765d61d8327deb882cf99\nbob;d41d8cd98f00b204e9800998ecf8427e\n"
    );
}

#[test]
fn stored_login_given_twice_keeps_last_hash_and_first_place() {
    let lines = vec![
        String::from("ann;0000"),
        String::from("bob;1111"),
        String::from("ann;5f4dcc3b5aa765d61d8327deb882cf99"),
    ];
    let mut session = AnonymSession::new(&lines).unwrap();

    assert!(session.auth("ann", "password").is_ok());
    assert_eq!(session.storage(), "ann;5f4dcc3b5aa765d61d8327deb882cf99\nbob;1111\n");
}

#[test]
fn empty_session_stores_nothing() {
    assert_eq!(fresh().storage(), "");
}

#[test]
fn hashes_password_with_md5() {
    let user = User::new(String::from("u"), String::from("password"));
    assert_eq!(user.format(), "u;5f4dcc3b5aa765d61d8327deb882cf99");

    let empty = User::new(String::from("e"), String::new());
    assert_eq!(empty.format(), "e;d41d8cd98f00b204e9800998ecf8427e");

    let letters = User::new(String::new(), String::from("abcdefghijklmnopqrstuvwxyz"));
    assert_eq!(letters.format(), ";c3fcd3d76192e4007dfb496cca67e13b");
}

#[test]
fn user_auth_compares_hashes() {
    let user = User::new(String::from("u"), String::from("password"));
    assert!(user.auth(String::from("password")));
    assert!(!user.auth(String::from("password ")));
    assert!(!user.auth(String::new()));

    let filled = User::fill(String::from("u"), String::from("5f4dcc3b5aa765d61d8327deb882cf99"));
    assert!(filled.auth(String::from("password")));
    assert_eq!(filled.format(), "u;5f4dcc3b5aa765d61d8327deb882cf99");

    let upper = User::fill(String::from("u"), String::from("5F4DCC3B5AA765D61D8327DEB882CF99"));
    assert!(!upper.auth(String::from("password")));
}
