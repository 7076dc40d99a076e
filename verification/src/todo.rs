//! A single task and its one-line textual form.
use vstd::prelude::*;
use vstd::string::StringExecFns;
use crate::text::{decimal, decimal_string, join, joined, views};
use crate::timestamp::Timestamp;

verus! {

/// A task of the list.
#[derive(Debug, Clone, PartialEq)]
pub struct Todo {
    /// Its number, by which commands name it.
    pub id: u32,
    /// What is to be done.
    pub content: String,
    /// Whether it is done.
    pub completed: bool,
    /// When it was added.
    pub created_at: Timestamp,
    /// 0 normal, 1 high, 2 urgent (other values count as normal).
    pub priority: u8,
    /// When it was marked done, if it is.
    pub completed_at: Option<Timestamp>,
    /// Free-form labels.
    pub tags: Vec<String>,
}

/// How urgent a priority value reads.
#[derive(Clone, Copy, Debug, PartialEq, Eq, Structural)]
pub enum PriorityLevel {
    Normal,
    High,
    Urgent,
}

impl PriorityLevel {
    pub open spec fn spec_of(p: u8) -> PriorityLevel {
        if p == 2 {
            PriorityLevel::Urgent
        } else if p == 1 {
            PriorityLevel::High
        } else {
            PriorityLevel::Normal
        }
    }

    /// The level of a priority value: 2 is urgent, 1 is high, any other is normal.
    pub fn of(p: u8) -> (l: PriorityLevel)
        ensures
            l == Self::spec_of(p),
    {
        if p == 2 {
            PriorityLevel::Urgent
        } else if p == 1 {
            PriorityLevel::High
        } else {
            PriorityLevel::Normal
        }
    }
}

/// The status mark of a task: a check mark when done, a circle when not.
pub open spec fn status_mark(completed: bool) -> Seq<char> {
    if completed {
        seq!['\u{2705}']
    } else {
        seq!['\u{2b55}']
    }
}

/// The priority mark of a task: `!!` for urgent, `!` for high, a blank otherwise.
pub open spec fn priority_mark(p: u8) -> Seq<char> {
    match PriorityLevel::spec_of(p) {
        PriorityLevel::Urgent => seq!['!', '!'],
        PriorityLevel::High => seq!['!'],
        PriorityLevel::Normal => seq![' '],
    }
}

/// The tag part of a task's line: empty without tags, else ` [a, b]`.
pub open spec fn tags_label(tags: Seq<String>) -> Seq<char> {
    if tags.len() == 0 {
        Seq::empty()
    } else {
        seq![' ', '['] + joined(views(tags), seq![',', ' ']) + seq![']']
    }
}

/// The one-line form of a task: `[id] status mark content tags`.
pub open spec fn line_of(t: Todo) -> Seq<char> {
    seq!['['] + decimal(t.id as nat) + seq![']', ' '] + status_mark(t.completed) + seq![' ']
        + priority_mark(t.priority) + seq![' '] + t.content@ + tags_label(t.tags@)
}

impl Todo {
    /// The pending task that `new_at` builds.
    pub open spec fn new_at_spec(
        id: u32,
        content: String,
        priority: u8,
        tags: Vec<String>,
        created_at: Timestamp,
    ) -> Todo {
        Todo { id, content, completed: false, created_at, priority, completed_at: None, tags }
    }

    /// A pending task created at `created_at`, never completed.
    pub fn new_at(
        id: u32,
        content: String,
        priority: u8,
        tags: Vec<String>,
        created_at: Timestamp,
    ) -> (t: Todo)
        ensures
            t == Todo::new_at_spec(id, content, priority, tags, created_at),
    {
        Todo { id, content, completed: false, created_at, priority, completed_at: None, tags }
    }

    /// A pending task created now.
    pub fn new(id: u32, content: String, priority: u8, tags: Vec<String>) -> (t: Todo)
        ensures
            t == Todo::new_at_spec(id, content, priority, tags, t.created_at),
            call_ensures(Timestamp::now, (), t.created_at),
    {
        Todo::new_at(id, content, priority, tags, Timestamp::now())
    }

    /// The one-line form of the task, as `line_of` gives it.
    pub fn to_string(&self) -> (s: String)
        ensures
            s@ == line_of(*self),
    {
        proof {
            reveal_strlit("[");
            reveal_strlit("] ");
            reveal_strlit(" ");
            reveal_strlit("\u{2705}");
            reveal_strlit("\u{2b55}");
            reveal_strlit("!!");
            reveal_strlit("!");
            reveal_strlit(" [");
            reveal_strlit(", ");
            reveal_strlit("]");
        }
        let mut s = "[".to_owned();
        let id = decimal_string(self.id);
        s.append(id.as_str());
        s.append("] ");
        if self.completed {
            s.append("\u{2705}");
        } else {
            s.append("\u{2b55}");
        }
        s.append(" ");
        match PriorityLevel::of(self.priority) {
            PriorityLevel::Urgent => s.append("!!"),
            PriorityLevel::High => s.append("!"),
            PriorityLevel::Normal => s.append(" "),
        }
        s.append(" ");
        s.append(self.content.as_str());
        if self.tags.len() > 0 {
            s.append(" [");
            let tags = join(&self.tags, ", ");
            s.append(tags.as_str());
            s.append("]");
        }
        proof {
            let t = *self;
            assert("[".view() =~= seq!['[']);
            assert("] ".view() =~= seq![']', ' ']);
            assert(" ".view() =~= seq![' ']);
            assert("\u{2705}".view() =~= seq!['\u{2705}']);
            assert("\u{2b55}".view() =~= seq!['\u{2b55}']);
            assert("!!".view() =~= seq!['!', '!']);
            assert("!".view() =~= seq!['!']);
            assert(" [".view() =~= seq![' ', '[']);
            assert(", ".view() =~= seq![',', ' ']);
            assert("]".view() =~= seq![']']);
            assert(s@ =~= line_of(t));
        }
        s
    }
}

impl<'a> From<&'a str> for Todo {
    /// A pending normal-priority task with id 0, no tags, created now.
    fn from(value: &'a str) -> (t: Todo)
        ensures
            t.id == 0,
            t.content@ == value@,
            !t.completed,
            t.priority == 0,
            t.completed_at is None,
            t.tags@.len() == 0,
            call_ensures(Timestamp::now, (), t.created_at),
    {
        Todo::new(0, value.to_owned(), 0, Vec::new())
    }
}

impl<'a> vstd::std_specs::convert::FromSpecImpl<&'a str> for Todo {
    open spec fn obeys_from_spec() -> bool {
        false
    }

    open spec fn from_spec(v: &'a str) -> Todo {
        vstd::pervasive::arbitrary()
    }
}

} // verus!
