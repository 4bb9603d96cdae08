use vstd::prelude::*;

use crate::text::{chars_of, push_chars, same_chars};

verus! {

/// What the user asked for at the prompt.
#[derive(Debug, Clone, PartialEq, Eq)]
pub enum UserCommand {
    Close,
    KeepAlive,
    ListUsers,
    CreateRoom(String),
    ListRooms,
    JoinRoom(String),
    DeleteRoom(String),
}

/// The content of a user command: room names as character sequences.
pub enum UserCommandView {
    Close,
    KeepAlive,
    ListUsers,
    CreateRoom(Seq<char>),
    ListRooms,
    JoinRoom(Seq<char>),
    DeleteRoom(Seq<char>),
}

impl View for UserCommand {
    type V = UserCommandView;

    open spec fn view(&self) -> UserCommandView {
        match self {
            UserCommand::Close => UserCommandView::Close,
            UserCommand::KeepAlive => UserCommandView::KeepAlive,
            UserCommand::ListUsers => UserCommandView::ListUsers,
            UserCommand::CreateRoom(n) => UserCommandView::CreateRoom(n@),
            UserCommand::ListRooms => UserCommandView::ListRooms,
            UserCommand::JoinRoom(n) => UserCommandView::JoinRoom(n@),
            UserCommand::DeleteRoom(n) => UserCommandView::DeleteRoom(n@),
        }
    }
}

/// The line after `str::trim`.
pub uninterp spec fn trimmed(s: Seq<char>) -> Seq<char>;

/// Relies on `str::trim`: the line without its leading and trailing white space.
/// The result depends on the characters alone.
#[verifier::external_body]
fn trim_line(s: &str) -> (r: &str)
    ensures
        r@ == trimmed(s@),
{
    s.trim()
}

/// `t` begins with `p`.
pub open spec fn has_prefix(t: Seq<char>, p: Seq<char>) -> bool {
    p.len() <= t.len() && t.take(p.len() as int) == p
}

/// The room command that a line starting with `keyword` asks for, with the
/// usage text to show instead when it is malformed: the line must be the
/// keyword, then exactly one word with no space in it.
pub open spec fn room_request(
    t: Seq<char>,
    keyword: Seq<char>,
    make: spec_fn(Seq<char>) -> UserCommandView,
    usage: Seq<char>,
) -> (UserCommandView, Option<Seq<char>>) {
    let rest = t.skip(keyword.len() as int);
    if rest.contains(' ') {
        (UserCommandView::KeepAlive, Some(usage))
    } else {
        (make(rest), None)
    }
}

/// What a trimmed input line asks for, with the text to show the user, if any.
pub open spec fn parse_line(t: Seq<char>) -> (UserCommandView, Option<Seq<char>>) {
    if t.len() == 0 {
        (UserCommandView::KeepAlive, None)
    } else if t == "create room"@ {
        (UserCommandView::KeepAlive, Some("Usage: create room <name>"@))
    } else if has_prefix(t, "create room "@) {
        room_request(
            t,
            "create room "@,
            |n: Seq<char>| UserCommandView::CreateRoom(n),
            "Usage: create room <name>"@,
        )
    } else if t == "delete room"@ {
        (UserCommandView::KeepAlive, Some("Usage: delete room <name>"@))
    } else if has_prefix(t, "delete room "@) {
        room_request(
            t,
            "delete room "@,
            |n: Seq<char>| UserCommandView::DeleteRoom(n),
            "Usage: delete room <name>"@,
        )
    } else if t == "join room"@ {
        (UserCommandView::KeepAlive, Some("Usage: join room <name>"@))
    } else if has_prefix(t, "join room "@) {
        room_request(
            t,
            "join room "@,
            |n: Seq<char>| UserCommandView::JoinRoom(n),
            "Usage: join room <name>"@,
        )
    } else if t == "list users"@ {
        (UserCommandView::ListUsers, None)
    } else if t == "list rooms"@ {
        (UserCommandView::ListRooms, None)
    } else if t == "exit"@ {
        (UserCommandView::Close, None)
    } else {
        (UserCommandView::KeepAlive, Some("Unknown command"@))
    }
}

/// The view of a parsed line.
pub open spec fn parsed_view(r: (UserCommand, Option<String>)) -> (UserCommandView, Option<Seq<char>>) {
    (r.0@, match r.1 {
        Some(m) => Some(m@),
        None => None,
    })
}

fn starts_with(t: &Vec<char>, p: &Vec<char>) -> (r: bool)
    ensures
        r == has_prefix(t@, p@),
{
    if p.len() > t.len() {
        return false;
    }
    let mut i: usize = 0;
    while i < p.len()
        invariant
            p@.len() <= t@.len(),
            i <= p@.len(),
            forall|j: int| 0 <= j < i ==> t@[j] == p@[j],
        decreases p@.len() - i,
    {
        if t[i] != p[i] {
            assert(t@.take(p@.len() as int)[i as int] != p@[i as int]);
            return false;
        }
        i = i + 1;
    }
    assert(t@.take(p@.len() as int) =~= p@);
    true
}

fn room_argument(t: &Vec<char>, from: usize) -> (r: Option<String>)
    requires
        from <= t@.len(),
    ensures
        t@.skip(from as int).contains(' ') ==> r is None,
        !t@.skip(from as int).contains(' ') ==> (r matches Some(n) && n@ == t@.skip(from as int)),
{
    let ghost rest = t@.skip(from as int);
    let mut name: Vec<char> = Vec::new();
    let mut i: usize = from;
    while i < t.len()
        invariant
            from <= i <= t@.len(),
            rest == t@.skip(from as int),
            name@ == t@.subrange(from as int, i as int),
            forall|j: int| from <= j < i ==> t@[j] != ' ',
        decreases t@.len() - i,
    {
        if t[i] == ' ' {
            assert(rest[i - from] == ' ');
            return None;
        }
        name.push(t[i]);
        i = i + 1;
        assert(name@ =~= t@.subrange(from as int, i as int));
    }
    assert(name@ =~= rest);
    assert(!rest.contains(' ')) by {
        if rest.contains(' ') {
            let j = choose|j: int| 0 <= j < rest.len() && rest[j] == ' ';
            assert(t@[j + from] == ' ');
        }
    }
    let mut s = String::new();
    push_chars(&mut s, &name);
    Some(s)
}

fn message(s: &str) -> (r: Option<String>)
    ensures
        r matches Some(m) && m@ == s@,
{
    Some(String::from_str(s))
}

/// The prompt's line parser.
pub struct UserInputHandler {}

impl UserInputHandler {
    /// What a trimmed line asks for, with the text to show the user, if any.
    pub fn parse_trimmed(line: &str) -> (r: (UserCommand, Option<String>))
        ensures
            parsed_view(r) == parse_line(line@),
    {
        let t = chars_of(line);
        if t.len() == 0 {
            return (UserCommand::KeepAlive, None);
        }
        if same_chars(&t, &chars_of("create room")) {
            return (UserCommand::KeepAlive, message("Usage: create room <name>"));
        }
        if starts_with(&t, &chars_of("create room ")) {
            proof {
                reveal_strlit("create room ");
            }
            return match room_argument(&t, 12) {
                Some(n) => (UserCommand::CreateRoom(n), None),
                None => (UserCommand::KeepAlive, message("Usage: create room <name>")),
            };
        }
        if same_chars(&t, &chars_of("delete room")) {
            return (UserCommand::KeepAlive, message("Usage: delete room <name>"));
        }
        if starts_with(&t, &chars_of("delete room ")) {
            proof {
                reveal_strlit("delete room ");
            }
            return match room_argument(&t, 12) {
                Some(n) => (UserCommand::DeleteRoom(n), None),
                None => (UserCommand::KeepAlive, message("Usage: delete room <name>")),
            };
        }
        if same_chars(&t, &chars_of("join room")) {
            return (UserCommand::KeepAlive, message("Usage: join room <name>"));
        }
        if starts_with(&t, &chars_of("join room ")) {
            proof {
                reveal_strlit("join room ");
            }
            return match room_argument(&t, 10) {
                Some(n) => (UserCommand::JoinRoom(n), None),
                None => (UserCommand::KeepAlive, message("Usage: join room <name>")),
            };
        }
        if same_chars(&t, &chars_of("list users")) {
            return (UserCommand::ListUsers, None);
        }
        if same_chars(&t, &chars_of("list rooms")) {
            return (UserCommand::ListRooms, None);
        }
        if same_chars(&t, &chars_of("exit")) {
            return (UserCommand::Close, None);
        }
        (UserCommand::KeepAlive, message("Unknown command"))
    }

    /// What an input line asks for, once trimmed, with the text to show the
    /// user (a usage hint, or that the command is unknown), if any.
    pub fn handle(input: &str) -> (r: (UserCommand, Option<String>))
        ensures
            parsed_view(r) == parse_line(trimmed(input@)),
    {
        Self::parse_trimmed(trim_line(input))
    }
}

} // verus!
