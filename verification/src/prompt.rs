//! Fluent, immutable chat-prompt construction.
//!
//! A prompt starts from a factory (`system()` or `user()`); every `with*`
//! method returns a new prompt with one more message, the receiver untouched.
use vstd::prelude::*;
use crate::error::{InferError, construction_error, is_construction_error};

verus! {

pub const ROLE_SYSTEM: &'static str = "system";
pub const ROLE_USER: &'static str = "user";
pub const ROLE_ASSISTANT: &'static str = "assistant";

/// The roles a message can have.
pub open spec fn is_role(role: Seq<char>) -> bool {
    role == ROLE_SYSTEM@ || role == ROLE_USER@ || role == ROLE_ASSISTANT@
}

/// A single message in a chat prompt: its role and its verbatim content.
pub struct Message {
    role: String,
    content: String,
}

impl View for Message {
    type V = (Seq<char>, Seq<char>);

    closed spec fn view(&self) -> (Seq<char>, Seq<char>) {
        (self.role@, self.content@)
    }
}

impl Message {
    /// Every message carries one of the three roles.
    #[verifier::type_invariant]
    closed spec fn has_known_role(self) -> bool {
        is_role(self.role@)
    }

    /// Direct construction is refused: messages come from `Prompt`.
    pub fn __construct() -> (r: Result<Self, InferError>)
        ensures
            r matches Err(e) && is_construction_error(e,
                "Displace\\Infer\\Message is produced by Prompt; do not instantiate directly"@),
    {
        Err(construction_error("Displace\\Infer\\Message is produced by Prompt; do not instantiate directly"))
    }

    /// One of `"system"`, `"user"` or `"assistant"`.
    pub fn role(&self) -> (r: String)
        ensures
            r@ == self@.0,
            is_role(r@),
    {
        proof {
            use_type_invariant(self);
        }
        self.role.clone()
    }

    /// The verbatim message body.
    pub fn content(&self) -> (r: String)
        ensures
            r@ == self@.1,
    {
        self.content.clone()
    }

    /// A message with the given role and content.
    pub fn new(role: &str, content: String) -> (m: Self)
        requires
            is_role(role@),
        ensures
            m@ == (role@, content@),
    {
        Message { role: role.to_owned(), content }
    }

    /// The role, as handed to the chat template.
    pub fn role_owned(&self) -> (r: String)
        ensures
            r@ == self@.0,
    {
        self.role.clone()
    }

    /// The content, as handed to the chat template.
    pub fn content_owned(&self) -> (r: String)
        ensures
            r@ == self@.1,
    {
        self.content.clone()
    }
}

impl Clone for Message {
    fn clone(&self) -> (r: Self)
        ensures
            r@ == self@,
    {
        proof {
            use_type_invariant(self);
        }
        Message { role: self.role.clone(), content: self.content.clone() }
    }
}

/// Ordered list of chat messages.
pub struct Prompt {
    messages: Vec<Message>,
}

/// The `(role, content)` pairs of a list of messages.
pub open spec fn message_views(messages: Seq<Message>) -> Seq<(Seq<char>, Seq<char>)> {
    messages.map_values(|m: Message| m@)
}

impl View for Prompt {
    type V = Seq<(Seq<char>, Seq<char>)>;

    closed spec fn view(&self) -> Seq<(Seq<char>, Seq<char>)> {
        message_views(self.messages@)
    }
}

/// Copies a list of messages.
fn clone_messages(messages: &Vec<Message>) -> (out: Vec<Message>)
    ensures
        message_views(out@) == message_views(messages@),
{
    let mut out: Vec<Message> = Vec::new();
    let mut i: usize = 0;
    while i < messages.len()
        invariant
            i <= messages@.len(),
            message_views(out@) == message_views(messages@.take(i as int)),
        decreases messages@.len() - i,
    {
        let m = messages[i].clone();
        assert(m@ == messages@[i as int]@);
        let ghost before = out@;
        out.push(m);
        proof {
            assert(out@ == before.push(m));
            assert(messages@.take(i + 1) =~= messages@.take(i as int).push(messages@[i as int]));
            assert(message_views(out@) =~= message_views(before).push(m@));
            assert(message_views(messages@.take(i + 1)) =~= message_views(messages@.take(i as int)).push(m@));
        }
        i = i + 1;
        assert(message_views(out@) =~= message_views(messages@.take(i as int)));
    }
    assert(messages@.take(i as int) =~= messages@);
    out
}

impl Prompt {
    /// Direct construction is refused: use `Prompt::system()` or `Prompt::user()`.
    pub fn __construct() -> (r: Result<Self, InferError>)
        ensures
            r matches Err(e) && is_construction_error(e,
                "use Displace\\Infer\\Prompt::system() or Prompt::user() to start a prompt"@),
    {
        Err(construction_error("use Displace\\Infer\\Prompt::system() or Prompt::user() to start a prompt"))
    }

    /// A prompt holding one system message.
    pub fn system(content: String) -> (p: Self)
        ensures
            p@ == seq![(ROLE_SYSTEM@, content@)],
    {
        let p = Prompt { messages: vec![Message::new(ROLE_SYSTEM, content)] };
        assert(p@ =~= seq![(ROLE_SYSTEM@, content@)]);
        p
    }

    /// A prompt holding one user message.
    pub fn user(content: String) -> (p: Self)
        ensures
            p@ == seq![(ROLE_USER@, content@)],
    {
        let p = Prompt { messages: vec![Message::new(ROLE_USER, content)] };
        assert(p@ =~= seq![(ROLE_USER@, content@)]);
        p
    }

    /// A new prompt with a system message appended; the receiver is unchanged.
    pub fn with_system(&self, content: String) -> (p: Self)
        ensures
            p@ == self@.push((ROLE_SYSTEM@, content@)),
    {
        self.appended(ROLE_SYSTEM, content)
    }

    /// A new prompt with a user message appended; the receiver is unchanged.
    pub fn with_user(&self, content: String) -> (p: Self)
        ensures
            p@ == self@.push((ROLE_USER@, content@)),
    {
        self.appended(ROLE_USER, content)
    }

    /// A new prompt with an assistant message appended; the receiver is unchanged.
    pub fn with_assistant(&self, content: String) -> (p: Self)
        ensures
            p@ == self@.push((ROLE_ASSISTANT@, content@)),
    {
        self.appended(ROLE_ASSISTANT, content)
    }

    /// The messages, in order.
    pub fn messages(&self) -> (r: Vec<Message>)
        ensures
            message_views(r@) == self@,
    {
        clone_messages(&self.messages)
    }

    /// The role of the last message, or `None` for an empty prompt.
    pub fn last_role(&self) -> (r: Option<String>)
        ensures
            match r {
                Some(role) => self@.len() > 0 && role@ == self@.last().0,
                None => self@.len() == 0,
            },
    {
        let n = self.messages.len();
        if n == 0 {
            None
        } else {
            Some(self.messages[n - 1].role_owned())
        }
    }

    /// Number of messages.
    pub fn count(&self) -> (r: usize)
        ensures
            r == self@.len(),
    {
        self.messages.len()
    }

    /// Whether the prompt holds no message.
    pub fn is_empty(&self) -> (r: bool)
        ensures
            r == (self@.len() == 0),
    {
        self.messages.len() == 0
    }

    fn appended(&self, role: &str, content: String) -> (p: Self)
        requires
            is_role(role@),
        ensures
            p@ == self@.push((role@, content@)),
    {
        let mut messages = clone_messages(&self.messages);
        messages.push(Message::new(role, content));
        let p = Prompt { messages };
        assert(p@ =~= self@.push((role@, content@)));
        p
    }

    /// The messages as a slice, for rendering through a chat template.
    pub fn messages_slice(&self) -> (r: &[Message])
        ensures
            message_views(r@) == self@,
    {
        self.messages.as_slice()
    }
}

} // verus!
