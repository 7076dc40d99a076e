//! The commands that change a task list: add, mark done or pending, edit,
//! remove, clear the completed ones.
use vstd::prelude::*;
use crate::timestamp::Timestamp;
use crate::todo::Todo;

verus! {

broadcast use vstd::seq_lib::group_seq_properties;

/// The largest id in `s`, or 0 when `s` is empty.
pub open spec fn max_id(s: Seq<Todo>) -> nat
    decreases s.len(),
{
    if s.len() == 0 {
        0
    } else {
        let m = max_id(s.drop_last());
        if s.last().id > m {
            s.last().id as nat
        } else {
            m
        }
    }
}

/// Some task of `s` has the id `id`.
pub open spec fn has_id(s: Seq<Todo>, id: u32) -> bool {
    exists|j: int| 0 <= j < s.len() && #[trigger] s[j].id == id
}

/// The position of the first task of `s` with the id `id`, or -1 when there is none.
pub open spec fn find_id(s: Seq<Todo>, id: u32) -> int
    decreases s.len(),
{
    if s.len() == 0 {
        -1
    } else {
        let k = find_id(s.drop_last(), id);
        if k >= 0 {
            k
        } else if s.last().id == id {
            s.len() - 1
        } else {
            -1
        }
    }
}

/// The tasks of `s` whose id is not `id`, in their order.
pub open spec fn without_id(s: Seq<Todo>, id: u32) -> Seq<Todo> {
    s.filter(|t: Todo| t.id != id)
}

/// The pending tasks of `s`, in their order.
pub open spec fn pending_only(s: Seq<Todo>) -> Seq<Todo> {
    s.filter(|t: Todo| !t.completed)
}

/// The completed tasks of `s`, in their order.
pub open spec fn completed_only(s: Seq<Todo>) -> Seq<Todo> {
    s.filter(|t: Todo| t.completed)
}

/// `t` with its completion state set: done or not, and when.
pub open spec fn with_state(t: Todo, done: bool, stamp: Option<Timestamp>) -> Todo {
    Todo { completed: done, completed_at: stamp, ..t }
}

/// `s` with the first task of id `id` (if any) given that completion state.
pub open spec fn marked(s: Seq<Todo>, id: u32, done: bool, stamp: Option<Timestamp>) -> Seq<Todo> {
    let k = find_id(s, id);
    if k < 0 {
        s
    } else {
        s.update(k, with_state(s[k], done, stamp))
    }
}

/// Every id of `s` is at most `max_id(s)`, and `max_id(s)` is one of them
/// when `s` is not empty.
pub proof fn lemma_max_id(s: Seq<Todo>)
    ensures
        forall|j: int| 0 <= j < s.len() ==> #[trigger] s[j].id <= max_id(s),
        s.len() > 0 ==> has_id(s, max_id(s) as u32),
        s.len() == 0 ==> max_id(s) == 0,
        max_id(s) <= u32::MAX,
    decreases s.len(),
{
    if s.len() > 0 {
        let p = s.drop_last();
        lemma_max_id(p);
        assert forall|j: int| 0 <= j < s.len() implies #[trigger] s[j].id <= max_id(s) by {
            if j < s.len() - 1 {
                assert(s[j] == p[j]);
            }
        }
        if s.last().id <= max_id(p) && p.len() > 0 {
            let w = choose|j: int| 0 <= j < p.len() && #[trigger] p[j].id == max_id(p) as u32;
            assert(s[w] == p[w]);
        } else {
            assert(s[s.len() - 1].id == max_id(s) as u32);
        }
    }
}

/// `find_id` is the position of the first task with that id.
pub proof fn lemma_find_id(s: Seq<Todo>, id: u32)
    ensures
        find_id(s, id) == -1 <==> !has_id(s, id),
        find_id(s, id) >= 0 ==> {
            &&& find_id(s, id) < s.len()
            &&& s[find_id(s, id)].id == id
            &&& forall|j: int| 0 <= j < find_id(s, id) ==> #[trigger] s[j].id != id
        },
        find_id(s, id) >= -1,
    decreases s.len(),
{
    if s.len() > 0 {
        let p = s.drop_last();
        lemma_find_id(p, id);
        let k = find_id(p, id);
        if k >= 0 {
            assert(s[k] == p[k]);
            assert forall|j: int| 0 <= j < k implies #[trigger] s[j].id != id by {
                assert(s[j] == p[j]);
            }
        } else {
            assert forall|j: int| 0 <= j < s.len() - 1 implies #[trigger] s[j].id != id by {
                assert(s[j] == p[j]);
                if p[j].id == id {
                    assert(has_id(p, id));
                }
            }
            if s.last().id != id {
                if has_id(s, id) {
                    let w = choose|j: int| 0 <= j < s.len() && #[trigger] s[j].id == id;
                    assert(false);
                }
            } else {
                assert(has_id(s, id));
            }
        }
    }
}

proof fn lemma_without_id_push(s: Seq<Todo>, t: Todo, id: u32)
    ensures
        without_id(s.push(t), id) == if t.id != id {
            without_id(s, id).push(t)
        } else {
            without_id(s, id)
        },
{
    reveal(Seq::filter);
    assert(s.push(t).drop_last() =~= s);
}

proof fn lemma_pending_push(s: Seq<Todo>, t: Todo)
    ensures
        pending_only(s.push(t)) == if !t.completed {
            pending_only(s).push(t)
        } else {
            pending_only(s)
        },
        completed_only(s.push(t)) == if t.completed {
            completed_only(s).push(t)
        } else {
            completed_only(s)
        },
{
    reveal(Seq::filter);
    assert(s.push(t).drop_last() =~= s);
}

proof fn lemma_has_id_push(s: Seq<Todo>, t: Todo, id: u32)
    ensures
        has_id(s.push(t), id) == (has_id(s, id) || t.id == id),
{
    let q = s.push(t);
    if has_id(s, id) {
        let w = choose|j: int| 0 <= j < s.len() && #[trigger] s[j].id == id;
        assert(q[w] == s[w]);
    }
    if t.id == id {
        assert(q[s.len() as int].id == id);
    }
    if has_id(q, id) && !(t.id == id) {
        let w = choose|j: int| 0 <= j < q.len() && #[trigger] q[j].id == id;
        assert(s[w] == q[w]);
    }
}

/// The id the next added task gets: one more than the largest id in the
/// list (1 for an empty list); `None` when that does not fit in a `u32`.
pub fn next_id(todos: &Vec<Todo>) -> (r: Option<u32>)
    ensures
        r is Some <==> max_id(todos@) < u32::MAX,
        r matches Some(n) ==> n == max_id(todos@) + 1,
{
    let mut m: u32 = 0;
    let mut i: usize = 0;
    while i < todos.len()
        invariant
            i <= todos@.len(),
            m == max_id(todos@.take(i as int)),
        decreases todos@.len() - i,
    {
        assert(todos@.take(i + 1).drop_last() =~= todos@.take(i as int));
        if todos[i].id > m {
            m = todos[i].id;
        }
        i = i + 1;
    }
    assert(todos@.take(todos@.len() as int) =~= todos@);
    if m < u32::MAX {
        Some(m + 1)
    } else {
        None
    }
}

/// Appends a new pending task created at `created_at`, whose id is one
/// more than the largest id in the list; returns that id.
pub fn add_at(
    todos: &mut Vec<Todo>,
    content: String,
    priority: u8,
    tags: Vec<String>,
    created_at: Timestamp,
) -> (id: u32)
    requires
        max_id(old(todos)@) < u32::MAX,
    ensures
        id == max_id(old(todos)@) + 1,
        final(todos)@ == old(todos)@.push(
            Todo::new_at_spec(id, content, priority, tags, created_at),
        ),
{
    let id = match next_id(todos) {
        Some(n) => n,
        None => 0,
    };
    todos.push(Todo::new_at(id, content, priority, tags, created_at));
    id
}

/// Appends a new pending task created now, whose id is one more than the
/// largest id in the list; returns that id.
pub fn add(todos: &mut Vec<Todo>, content: String, priority: u8, tags: Vec<String>) -> (id: u32)
    requires
        max_id(old(todos)@) < u32::MAX,
    ensures
        id == max_id(old(todos)@) + 1,
        final(todos)@ == old(todos)@.push(
            Todo::new_at_spec(id, content, priority, tags, final(todos)@.last().created_at),
        ),
        call_ensures(Timestamp::now, (), final(todos)@.last().created_at),
{
    let id = match next_id(todos) {
        Some(n) => n,
        None => 0,
    };
    todos.push(Todo::new(id, content, priority, tags));
    id
}

/// The position of the first task with id `id`, if there is one.
pub fn position_of(todos: &Vec<Todo>, id: u32) -> (r: Option<usize>)
    ensures
        r matches Some(k) ==> k == find_id(todos@, id),
        r is None ==> find_id(todos@, id) == -1,
{
    proof {
        lemma_find_id(todos@, id);
    }
    let mut i: usize = 0;
    while i < todos.len()
        invariant
            i <= todos@.len(),
            forall|j: int| 0 <= j < i ==> #[trigger] todos@[j].id != id,
            find_id(todos@, id) == -1 <==> !has_id(todos@, id),
            find_id(todos@, id) >= 0 ==> {
                &&& find_id(todos@, id) < todos@.len()
                &&& todos@[find_id(todos@, id)].id == id
                &&& forall|j: int| 0 <= j < find_id(todos@, id) ==> #[trigger] todos@[j].id != id
            },
        decreases todos@.len() - i,
    {
        if todos[i].id == id {
            assert(has_id(todos@, id));
            return Some(i);
        }
        i = i + 1;
    }
    proof {
        if has_id(todos@, id) {
            let w = choose|j: int| 0 <= j < todos@.len() && #[trigger] todos@[j].id == id;
            assert(false);
        }
    }
    None
}

fn set_state(todos: &mut Vec<Todo>, k: usize, done: bool, stamp: Option<Timestamp>)
    requires
        k < old(todos)@.len(),
    ensures
        final(todos)@ == old(todos)@.update(k as int, with_state(old(todos)@[k as int], done, stamp)),
{
    let mut t = todos.remove(k);
    t.completed = done;
    t.completed_at = stamp;
    todos.insert(k, t);
    assert(final(todos)@ =~= old(todos)@.update(k as int, with_state(old(todos)@[k as int], done, stamp)));
}

/// Marks the first task with id `id` done at `at` (or, with `undo`, pending
/// again, with no completion time); tells whether there was one.
pub fn mark_done_at(todos: &mut Vec<Todo>, id: u32, undo: bool, at: Timestamp) -> (found: bool)
    ensures
        found == has_id(old(todos)@, id),
        final(todos)@ == marked(old(todos)@, id, !undo, if undo { None } else { Some(at) }),
{
    proof {
        lemma_find_id(old(todos)@, id);
    }
    match position_of(todos, id) {
        None => false,
        Some(k) => {
            let stamp = if undo {
                None
            } else {
                Some(at)
            };
            set_state(todos, k, !undo, stamp);
            true
        },
    }
}

/// Marks the first task with id `id` done now (or, with `undo`, pending
/// again, with no completion time); tells whether there was one.
pub fn mark_done(todos: &mut Vec<Todo>, id: u32, undo: bool) -> (found: bool)
    ensures
        found == has_id(old(todos)@, id),
        !found ==> final(todos)@ == old(todos)@,
        found ==> {
            let k = find_id(old(todos)@, id);
            &&& final(todos)@ == marked(old(todos)@, id, !undo, final(todos)@[k].completed_at)
            &&& (final(todos)@[k].completed_at is None <==> undo)
            &&& (final(todos)@[k].completed_at matches Some(at) ==> call_ensures(
                Timestamp::now,
                (),
                at,
            ))
        },
{
    proof {
        lemma_find_id(old(todos)@, id);
    }
    match position_of(todos, id) {
        None => false,
        Some(k) => {
            let stamp = if undo {
                None
            } else {
                Some(Timestamp::now())
            };
            set_state(todos, k, !undo, stamp);
            true
        },
    }
}

/// Replaces the text of the first task with id `id`; tells whether there
/// was one.
pub fn edit(todos: &mut Vec<Todo>, id: u32, content: &str) -> (found: bool)
    ensures
        found == has_id(old(todos)@, id),
        !found ==> final(todos)@ == old(todos)@,
        found ==> {
            let k = find_id(old(todos)@, id);
            &&& final(todos)@ == old(todos)@.update(
                k,
                Todo { content: final(todos)@[k].content, ..old(todos)@[k] },
            )
            &&& final(todos)@[k].content@ == content@
        },
{
    proof {
        lemma_find_id(old(todos)@, id);
    }
    match position_of(todos, id) {
        None => false,
        Some(k) => {
            let mut t = todos.remove(k);
            t.content = content.to_owned();
            todos.insert(k, t);
            assert(final(todos)@ =~= old(todos)@.update(
                k as int,
                Todo { content: final(todos)@[k as int].content, ..old(todos)@[k as int] },
            ));
            true
        },
    }
}

/// Removes every task whose id is `id`; tells whether there was one.
pub fn remove(todos: &mut Vec<Todo>, id: u32) -> (found: bool)
    ensures
        final(todos)@ == without_id(old(todos)@, id),
        found == has_id(old(todos)@, id),
{
    let mut rest: Vec<Todo> = Vec::new();
    std::mem::swap(todos, &mut rest);
    let ghost orig = rest@;
    let n = rest.len();
    for t in it: rest.into_iter()
        invariant
            it.seq() == orig,
            n == orig.len(),
            todos@ == without_id(orig.take(it.index() as int), id),
            todos@.len() <= it.index(),
            (todos@.len() < it.index()) == has_id(orig.take(it.index() as int), id),
    {
        assert(orig.take(it.index() + 1) =~= orig.take(it.index() as int).push(t));
        proof {
            lemma_without_id_push(orig.take(it.index() as int), t, id);
            lemma_has_id_push(orig.take(it.index() as int), t, id);
        }
        if t.id != id {
            todos.push(t);
        }
    }
    assert(orig.take(orig.len() as int) =~= orig);
    todos.len() < n
}

/// Removes every completed task; returns how many there were.
pub fn clear_completed(todos: &mut Vec<Todo>) -> (removed: usize)
    ensures
        final(todos)@ == pending_only(old(todos)@),
        removed == old(todos)@.len() - final(todos)@.len(),
        removed == completed_only(old(todos)@).len(),
{
    let mut rest: Vec<Todo> = Vec::new();
    std::mem::swap(todos, &mut rest);
    let ghost orig = rest@;
    let n = rest.len();
    for t in it: rest.into_iter()
        invariant
            it.seq() == orig,
            n == orig.len(),
            todos@ == pending_only(orig.take(it.index() as int)),
            todos@.len() + completed_only(orig.take(it.index() as int)).len() == it.index(),
    {
        assert(orig.take(it.index() + 1) =~= orig.take(it.index() as int).push(t));
        proof {
            lemma_pending_push(orig.take(it.index() as int), t);
        }
        if !t.completed {
            todos.push(t);
        }
    }
    assert(orig.take(orig.len() as int) =~= orig);
    n - todos.len()
}

/// How many tasks are completed.
pub fn count_completed(todos: &Vec<Todo>) -> (r: usize)
    ensures
        r == completed_only(todos@).len(),
{
    let mut c: usize = 0;
    let mut i: usize = 0;
    while i < todos.len()
        invariant
            i <= todos@.len(),
            c == completed_only(todos@.take(i as int)).len(),
            c <= i,
        decreases todos@.len() - i,
    {
        assert(todos@.take(i + 1) =~= todos@.take(i as int).push(todos@[i as int]));
        proof {
            lemma_pending_push(todos@.take(i as int), todos@[i as int]);
        }
        if todos[i].completed {
            c = c + 1;
        }
        i = i + 1;
    }
    assert(todos@.take(todos@.len() as int) =~= todos@);
    c
}

} // verus!
