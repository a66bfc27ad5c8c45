use ext_infer::error::InferError;
use ext_infer::prompt::{Message, Prompt};

fn pairs(p: &Prompt) -> Vec<(String, String)> {
    p.messages().iter().map(|m| (m.role(), m.content())).collect()
}

#[test]
fn factories_start_with_one_message() {
    let p = Prompt::system("You are helpful.".to_string());
    assert_eq!(pairs(&p), vec![("system".to_string(), "You are helpful.".to_string())]);
    let p = Prompt::user("Hello!".to_string());
    assert_eq!(pairs(&p), vec![("user".to_string(), "Hello!".to_string())]);
    assert_eq!(p.count(), 1);
    assert!(!p.is_empty());
}

#[test]
fn with_methods_append_and_leave_receiver_untouched() {
    let base = Prompt::system("a".to_string());
    let longer = base.with_user("b".to_string()).with_assistant("c".to_string()).with_system("d".to_string());
    assert_eq!(base.count(), 1);
    assert_eq!(pairs(&base), vec![("system".to_string(), "a".to_string())]);
    assert_eq!(
        pairs(&longer),
        vec![
            ("system".to_string(), "a".to_string()),
            ("user".to_string(), "b".to_string()),
            ("assistant".to_string(), "c".to_string()),
            ("system".to_string(), "d".to_string()),
        ]
    );
    assert_eq!(longer.count(), 4);
    assert_eq!(longer.last_role().as_deref(), Some("system"));
    assert_eq!(base.with_user("x".to_string()).last_role().as_deref(), Some("user"));
}

#[test]
fn messages_slice_matches_messages() {
    let p = Prompt::user("hi".to_string()).with_assistant("hello".to_string());
    let slice: Vec<(String, String)> = p.messages_slice().iter().map(|m| (m.role_owned(), m.content_owned())).collect();
    assert_eq!(slice, pairs(&p));
}

#[test]
fn direct_construction_is_refused() {
    match Prompt::__construct() {
        Err(InferError::InvalidConstruction(m)) => {
            assert_eq!(m, "use Displace\\Infer\\Prompt::system() or Prompt::user() to start a prompt")
        }
        _ => panic!("expected a construction error"),
    }
    match Message::__construct() {
        Err(e) => assert_eq!(
            e.to_string(),
            "Displace\\Infer\\Message is produced by Prompt; do not instantiate directly"
        ),
        Ok(_) => panic!("expected a construction error"),
    }
}
