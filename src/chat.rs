//! Chat messages for model requests, and the text that a model render
//! shows.
use vstd::prelude::*;
use crate::text::{chars_of, push_char, same_chars};

verus! {

/// The author of a chat message.
#[derive(Clone, Copy, PartialEq, Eq, Debug, Structural)]
pub enum Role {
    System,
    User,
    Assistant,
}

/// The role that `s` names, if any.
pub open spec fn role_named(s: Seq<char>) -> Option<Role> {
    if s == seq!['s', 'y', 's', 't', 'e', 'm'] {
        Some(Role::System)
    } else if s == seq!['u', 's', 'e', 'r'] {
        Some(Role::User)
    } else if s == seq!['a', 's', 's', 'i', 's', 't', 'a', 'n', 't'] {
        Some(Role::Assistant)
    } else {
        None
    }
}

/// Reads a role from its name: `system`, `user` or `assistant`.
pub fn parse_role(name: &str) -> (r: Option<Role>)
    ensures
        r == role_named(name@),
{
    let cs = chars_of(name);
    let system = vec!['s', 'y', 's', 't', 'e', 'm'];
    let user = vec!['u', 's', 'e', 'r'];
    let assistant = vec!['a', 's', 's', 'i', 's', 't', 'a', 'n', 't'];
    assert(system@ =~= seq!['s', 'y', 's', 't', 'e', 'm']);
    assert(user@ =~= seq!['u', 's', 'e', 'r']);
    assert(assistant@ =~= seq!['a', 's', 's', 'i', 's', 't', 'a', 'n', 't']);
    if same_chars(&cs, &system) {
        Some(Role::System)
    } else if same_chars(&cs, &user) {
        Some(Role::User)
    } else if same_chars(&cs, &assistant) {
        Some(Role::Assistant)
    } else {
        None
    }
}

/// One message of a chat request.
pub struct ChatMessage {
    pub role: Role,
    pub content: String,
    pub name: Option<String>,
}

/// The error for a message whose role is not known.
pub open spec fn unknown_role(role: Seq<char>) -> Seq<char> {
    "unknown role `"@ + role + "`"@
}

/// Builds a chat message from a role name, its content and an optional
/// author name; a role that is not known is refused.
pub fn from_message_parts(role: &str, content: String, name: Option<String>) -> (r: Result<
    ChatMessage,
    String,
>)
    ensures
        match role_named(role@) {
            Some(known) => r matches Ok(m) && m.role == known && m.content == content && m.name
                == name,
            None => r matches Err(e) && e@ == unknown_role(role@),
        },
{
    match parse_role(role) {
        Some(known) => Ok(ChatMessage { role: known, content, name }),
        None => {
            let mut e = "unknown role `".to_string();
            e.append(role);
            e.append("`");
            Err(e)
        },
    }
}

/// `s` with each backslash followed by `n` turned into a line break,
/// reading from the left.
pub open spec fn unescape_newlines_of(s: Seq<char>) -> Seq<char>
    decreases s.len(),
{
    if s.len() == 0 {
        Seq::empty()
    } else if s.len() >= 2 && s[0] == '\\' && s[1] == 'n' {
        seq!['\n'] + unescape_newlines_of(s.subrange(2, s.len() as int))
    } else {
        seq![s[0]] + unescape_newlines_of(s.subrange(1, s.len() as int))
    }
}

/// Turns each escaped `\n` of `s` into a line break.
pub fn unescape_newlines(s: &str) -> (r: String)
    ensures
        r@ == unescape_newlines_of(s@),
{
    let cs = chars_of(s);
    let n = cs.len();
    let mut r = String::new();
    let mut i: usize = 0;
    assert(cs@.subrange(0, n as int) =~= cs@);
    assert(Seq::<char>::empty() + unescape_newlines_of(cs@) =~= unescape_newlines_of(cs@));
    while i < n
        invariant
            n == cs@.len(),
            cs@ == s@,
            i <= n,
            unescape_newlines_of(s@) == r@ + unescape_newlines_of(cs@.subrange(i as int, n as int)),
        decreases n - i,
    {
        let ghost rest = cs@.subrange(i as int, n as int);
        if i + 1 < n && cs[i] == '\\' && cs[i + 1] == 'n' {
            push_char(&mut r, '\n');
            assert(rest.subrange(2, rest.len() as int) =~= cs@.subrange(i + 2, n as int));
            i += 2;
        } else {
            push_char(&mut r, cs[i]);
            assert(rest.subrange(1, rest.len() as int) =~= cs@.subrange(i + 1, n as int));
            i += 1;
        }
    }
    assert(cs@.subrange(n as int, n as int) =~= Seq::<char>::empty());
    assert(r@ + Seq::<char>::empty() =~= r@);
    r
}

/// The prompt as typed, with escaped line breaks turned into real ones
/// when `replace_newlines` is set.
pub fn prepare_prompt(raw: &str, replace_newlines: bool) -> (r: String)
    ensures
        r@ == if replace_newlines {
            unescape_newlines_of(raw@)
        } else {
            raw@
        },
{
    if replace_newlines {
        unescape_newlines(raw)
    } else {
        raw.to_string()
    }
}

/// The text of a model render: the prompt in bold and the model in
/// italics on the first line, then the answer so far.
pub open spec fn completion_text_of(prompt: Seq<char>, model: Seq<char>, answer: Seq<char>) -> Seq<
    char,
> {
    "**"@ + prompt + "** (*"@ + model + "*)\n"@ + answer
}

/// Builds the text of a model render.
pub fn completion_text(prompt: &str, model: &str, answer: &str) -> (r: String)
    ensures
        r@ == completion_text_of(prompt@, model@, answer@),
{
    let mut r = "**".to_string();
    r.append(prompt);
    r.append("** (*");
    r.append(model);
    r.append("*)\n");
    r.append(answer);
    r
}

} // verus!
