//! The read-only commands: which tasks a listing shows and in what order,
//! and which tasks a search finds.
use vstd::prelude::*;
use vstd::string::StringExecFns;
use crate::text::{contains, is_substring, join, joined, same_text, views};
use crate::todo::Todo;

verus! {

/// The order in which a listing shows its tasks.
#[derive(Clone, Copy, Debug, PartialEq, Eq, Structural)]
pub enum SortOrder {
    /// As the tasks stand in the list.
    Id,
    /// Highest priority first; equal priorities as they stand in the list.
    Priority,
    /// Oldest first; equal creation times as they stand in the list.
    Created,
}

/// The text `priority`.
pub open spec fn priority_word() -> Seq<char> {
    seq!['p', 'r', 'i', 'o', 'r', 'i', 't', 'y']
}

/// The text `created`.
pub open spec fn created_word() -> Seq<char> {
    seq!['c', 'r', 'e', 'a', 't', 'e', 'd']
}

impl SortOrder {
    pub open spec fn spec_parse(s: Seq<char>) -> SortOrder {
        if s == priority_word() {
            SortOrder::Priority
        } else if s == created_word() {
            SortOrder::Created
        } else {
            SortOrder::Id
        }
    }

    /// `priority` and `created` name those orders; any other text keeps the
    /// list's own order.
    pub fn parse(s: &str) -> (r: SortOrder)
        ensures
            r == Self::spec_parse(s@),
    {
        proof {
            reveal_strlit("priority");
            reveal_strlit("created");
            assert("priority"@ =~= priority_word());
            assert("created"@ =~= created_word());
        }
        if same_text(s, "priority") {
            SortOrder::Priority
        } else if same_text(s, "created") {
            SortOrder::Created
        } else {
            SortOrder::Id
        }
    }
}

/// The text of an optional string.
pub open spec fn opt_view(o: Option<&str>) -> Option<Seq<char>> {
    match o {
        Some(g) => Some(g@),
        None => None,
    }
}

/// A task is shown by a listing: it is pending (or `all` is set), its
/// priority is above `priority` (when given), and `tag` (when given) occurs
/// in its tags written one after another.
pub open spec fn listed(t: Todo, all: bool, priority: Option<u8>, tag: Option<Seq<char>>) -> bool {
    &&& (all || !t.completed)
    &&& (match priority {
        Some(p) => t.priority > p,
        None => true,
    })
    &&& (match tag {
        Some(g) => is_substring(joined(views(t.tags@), Seq::empty()), g),
        None => true,
    })
}

/// The sort key of the task at position `i`: compared lexicographically, the
/// position last, so that equal keys keep the list's order.
pub open spec fn sort_key(order: SortOrder, t: Todo, i: int) -> (int, int, int) {
    match order {
        SortOrder::Id => (0, 0, i),
        SortOrder::Priority => (-(t.priority as int), 0, i),
        SortOrder::Created => (t.created_at.secs as int, t.created_at.nanos as int, i),
    }
}

/// Lexicographic "less than" on key triples.
pub open spec fn key_lt(a: (int, int, int), b: (int, int, int)) -> bool {
    a.0 < b.0 || (a.0 == b.0 && (a.1 < b.1 || (a.1 == b.1 && a.2 < b.2)))
}

/// The task at position `a` comes before the one at position `b`.
pub open spec fn precedes(order: SortOrder, s: Seq<Todo>, a: int, b: int) -> bool {
    key_lt(sort_key(order, s[a], a), sort_key(order, s[b], b))
}

/// `r` holds the positions of exactly the tasks of `s` that `keep` picks,
/// each once, in the order `order`.
pub open spec fn is_ordered_selection(
    s: Seq<Todo>,
    r: Seq<usize>,
    keep: spec_fn(Todo) -> bool,
    order: SortOrder,
) -> bool {
    &&& forall|a: int| 0 <= a < r.len() ==> #[trigger] r[a] < s.len() && keep(s[r[a] as int])
    &&& forall|j: usize| j < s.len() && keep(s[j as int]) ==> #[trigger] r.contains(j)
    &&& forall|a: int, b: int|
        0 <= a < b < r.len() ==> precedes(order, s, #[trigger] r[a] as int, #[trigger] r[b] as int)
}

/// What a listing shows: the positions of the listed tasks, in the listing's order.
pub open spec fn is_listing(
    s: Seq<Todo>,
    r: Seq<usize>,
    all: bool,
    priority: Option<u8>,
    tag: Option<Seq<char>>,
    order: SortOrder,
) -> bool {
    is_ordered_selection(s, r, |t: Todo| listed(t, all, priority, tag), order)
}

/// What a search finds: the positions of the tasks whose text holds
/// `keyword`, in the list's order.
pub open spec fn is_search_result(s: Seq<Todo>, r: Seq<usize>, keyword: Seq<char>) -> bool {
    is_ordered_selection(s, r, |t: Todo| is_substring(t.content@, keyword), SortOrder::Id)
}

fn precedes_exec(todos: &Vec<Todo>, order: SortOrder, a: usize, b: usize) -> (r: bool)
    requires
        a < todos@.len(),
        b < todos@.len(),
    ensures
        r == precedes(order, todos@, a as int, b as int),
{
    match order {
        SortOrder::Id => a < b,
        SortOrder::Priority => {
            let pa = todos[a].priority;
            let pb = todos[b].priority;
            pa > pb || (pa == pb && a < b)
        },
        SortOrder::Created => {
            let ca = todos[a].created_at;
            let cb = todos[b].created_at;
            ca.secs < cb.secs || (ca.secs == cb.secs && (ca.nanos < cb.nanos || (ca.nanos
                == cb.nanos && a < b)))
        },
    }
}

fn is_listed(t: &Todo, all: bool, priority: Option<u8>, tag: Option<&str>) -> (r: bool)
    ensures
        r == listed(*t, all, priority, opt_view(tag)),
{
    if !all && t.completed {
        return false;
    }
    match priority {
        Some(p) => {
            if !(t.priority > p) {
                return false;
            }
        },
        None => {},
    }
    match tag {
        Some(g) => {
            proof {
                reveal_strlit("");
                assert(""@ =~= Seq::<char>::empty());
            }
            let all_tags = join(&t.tags, "");
            contains(all_tags.as_str(), g)
        },
        None => true,
    }
}

/// Puts position `i` into `r` where `order` wants it. Every position in `r`
/// is below `i`.
fn insert_ordered(todos: &Vec<Todo>, order: SortOrder, r: &mut Vec<usize>, i: usize)
    requires
        i < todos@.len(),
        forall|a: int| 0 <= a < old(r)@.len() ==> #[trigger] old(r)@[a] < i,
        forall|a: int, b: int|
            0 <= a < b < old(r)@.len() ==> precedes(
                order,
                todos@,
                #[trigger] old(r)@[a] as int,
                #[trigger] old(r)@[b] as int,
            ),
    ensures
        exists|pos: int| 0 <= pos <= old(r)@.len() && final(r)@ == old(r)@.insert(pos, i),
        forall|a: int, b: int|
            0 <= a < b < final(r)@.len() ==> precedes(
                order,
                todos@,
                #[trigger] final(r)@[a] as int,
                #[trigger] final(r)@[b] as int,
            ),
{
    let mut pos = r.len();
    while pos > 0 && precedes_exec(todos, order, i, r[pos - 1])
        invariant
            pos <= r@.len(),
            r@ == old(r)@,
            i < todos@.len(),
            forall|a: int| 0 <= a < r@.len() ==> #[trigger] r@[a] < i,
            forall|q: int| pos <= q < r@.len() ==> precedes(order, todos@, i as int, #[trigger] r@[q] as int),
        decreases pos,
    {
        pos = pos - 1;
    }
    let ghost before = r@;
    proof {
        if pos > 0 {
            // the entry just before the gap comes before `i`: keys differ in the position
            assert(!precedes(order, todos@, i as int, before[pos - 1] as int));
            assert(before[pos - 1] < i);
            assert(precedes(order, todos@, before[pos - 1] as int, i as int));
        }
    }
    r.insert(pos, i);
    assert(r@ == before.insert(pos as int, i));
    assert forall|a: int, b: int| 0 <= a < b < r@.len() implies precedes(
        order,
        todos@,
        #[trigger] r@[a] as int,
        #[trigger] r@[b] as int,
    ) by {
        if b < pos {
            assert(r@[a] == before[a] && r@[b] == before[b]);
        } else if b == pos {
            assert(r@[a] == before[a]);
            if a < pos - 1 {
                assert(precedes(order, todos@, before[a] as int, before[pos - 1] as int));
            }
        } else if a == pos {
            assert(r@[b] == before[b - 1]);
        } else if a < pos {
            assert(r@[a] == before[a] && r@[b] == before[b - 1]);
        } else {
            assert(r@[a] == before[a - 1] && r@[b] == before[b - 1]);
        }
    }
}

/// The positions of the tasks a listing shows, in the listing's order.
pub fn list(
    todos: &Vec<Todo>,
    all: bool,
    priority: Option<u8>,
    tag: Option<&str>,
    order: SortOrder,
) -> (r: Vec<usize>)
    ensures
        is_listing(todos@, r@, all, priority, opt_view(tag), order),
{
    let ghost keep = |t: Todo| listed(t, all, priority, opt_view(tag));
    let mut r: Vec<usize> = Vec::new();
    let mut i: usize = 0;
    while i < todos.len()
        invariant
            i <= todos@.len(),
            keep == (|t: Todo| listed(t, all, priority, opt_view(tag))),
            forall|a: int| 0 <= a < r@.len() ==> #[trigger] r@[a] < i && keep(todos@[r@[a] as int]),
            forall|j: usize| j < i && keep(todos@[j as int]) ==> #[trigger] r@.contains(j),
            forall|a: int, b: int|
                0 <= a < b < r@.len() ==> precedes(
                    order,
                    todos@,
                    #[trigger] r@[a] as int,
                    #[trigger] r@[b] as int,
                ),
        decreases todos@.len() - i,
    {
        if is_listed(&todos[i], all, priority, tag) {
            let ghost before = r@;
            insert_ordered(todos, order, &mut r, i);
            proof {
                let pos = choose|pos: int| 0 <= pos <= before.len() && r@ == before.insert(pos, i);
                assert(r@[pos] == i);
                assert forall|a: int| 0 <= a < r@.len() implies #[trigger] r@[a] < i + 1 && keep(
                    todos@[r@[a] as int],
                ) by {
                    if a < pos {
                        assert(r@[a] == before[a]);
                    } else if a > pos {
                        assert(r@[a] == before[a - 1]);
                    }
                }
                assert forall|j: usize| j < i + 1 && keep(todos@[j as int]) implies #[trigger] r@.contains(
                    j,
                ) by {
                    if j < i {
                        assert(before.contains(j));
                        let w = choose|w: int| 0 <= w < before.len() && before[w] == j;
                        if w < pos {
                            assert(r@[w] == before[w]);
                        } else {
                            assert(r@[w + 1] == before[w]);
                        }
                    }
                }
            }
        }
        i = i + 1;
    }
    r
}

/// The positions of the tasks whose text holds `keyword`, in the list's order.
pub fn search(todos: &Vec<Todo>, keyword: &str) -> (r: Vec<usize>)
    ensures
        is_search_result(todos@, r@, keyword@),
{
    let ghost keep = |t: Todo| is_substring(t.content@, keyword@);
    let mut r: Vec<usize> = Vec::new();
    let mut i: usize = 0;
    while i < todos.len()
        invariant
            i <= todos@.len(),
            keep == (|t: Todo| is_substring(t.content@, keyword@)),
            forall|a: int| 0 <= a < r@.len() ==> #[trigger] r@[a] < i && keep(todos@[r@[a] as int]),
            forall|j: usize| j < i && keep(todos@[j as int]) ==> #[trigger] r@.contains(j),
            forall|a: int, b: int|
                0 <= a < b < r@.len() ==> precedes(
                    SortOrder::Id,
                    todos@,
                    #[trigger] r@[a] as int,
                    #[trigger] r@[b] as int,
                ),
        decreases todos@.len() - i,
    {
        if contains(todos[i].content.as_str(), keyword) {
            let ghost before = r@;
            r.push(i);
            proof {
                assert(r@[before.len() as int] == i);
                assert forall|j: usize| j < i + 1 && keep(todos@[j as int]) implies #[trigger] r@.contains(
                    j,
                ) by {
                    if j < i {
                        assert(before.contains(j));
                        let w = choose|w: int| 0 <= w < before.len() && before[w] == j;
                        assert(r@[w] == before[w]);
                    }
                }
            }
        }
        i = i + 1;
    }
    r
}

} // verus!
