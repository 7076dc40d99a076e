//! Properties that relate the commands to each other, proved over the spec
//! functions that their contracts use.
use vstd::prelude::*;
use crate::query::{
    created_word, is_listing, is_ordered_selection, is_search_result, listed, precedes,
    priority_word, SortOrder,
};
use crate::store::{
    completed_only, find_id, has_id, lemma_find_id, lemma_max_id, marked, max_id, pending_only,
    with_state, without_id,
};
use crate::text::{decimal, digit_char, is_substring, joined, views};
use crate::timestamp::Timestamp;
use crate::todo::{line_of, PriorityLevel, Todo};

verus! {

broadcast use vstd::seq_lib::group_seq_properties, vstd::seq_lib::group_filter_ensures;

proof fn lemma_filter_keeps_all(s: Seq<Todo>, p: spec_fn(Todo) -> bool)
    requires
        forall|i: int| 0 <= i < s.len() ==> p(#[trigger] s[i]),
    ensures
        s.filter(p) == s,
    decreases s.len(),
{
    reveal(Seq::filter);
    if s.len() > 0 {
        let q = s.drop_last();
        assert forall|i: int| 0 <= i < q.len() implies p(#[trigger] q[i]) by {
            assert(q[i] == s[i]);
        }
        lemma_filter_keeps_all(q, p);
        assert(p(s[s.len() - 1]));
        assert(q.push(s.last()) =~= s);
    }
}

proof fn lemma_filter_idempotent(s: Seq<Todo>, p: spec_fn(Todo) -> bool)
    ensures
        s.filter(p).filter(p) == s.filter(p),
{
    let f = s.filter(p);
    assert forall|i: int| 0 <= i < f.len() implies p(#[trigger] f[i]) by {
        s.lemma_filter_pred(p, i);
    }
    lemma_filter_keeps_all(f, p);
}

/// A new task's id, one more than the largest id, differs from the id of
/// every task already in the list.
pub proof fn lemma_new_id_is_fresh(s: Seq<Todo>)
    requires
        max_id(s) < u32::MAX,
    ensures
        !has_id(s, (max_id(s) + 1) as u32),
        forall|j: int| 0 <= j < s.len() ==> #[trigger] s[j].id < max_id(s) + 1,
{
    lemma_max_id(s);
}

/// Adding a task with the next id makes that id the largest, so the tasks
/// added one after another to an empty list get the ids 1, 2, 3, ...
pub proof fn lemma_add_advances_ids(s: Seq<Todo>, t: Todo)
    requires
        t.id == max_id(s) + 1,
    ensures
        max_id(s.push(t)) == t.id,
        max_id(Seq::<Todo>::empty()) + 1 == 1,
{
    assert(s.push(t).drop_last() =~= s);
}

/// Changing the completion state of a task keeps every id where it was, so
/// the same task is found again.
pub proof fn lemma_marked_keeps_ids(s: Seq<Todo>, id: u32, done: bool, stamp: Option<Timestamp>)
    ensures
        marked(s, id, done, stamp).len() == s.len(),
        forall|j: int| 0 <= j < s.len() ==> #[trigger] marked(s, id, done, stamp)[j].id == s[j].id,
        find_id(marked(s, id, done, stamp), id) == find_id(s, id),
{
    let m = marked(s, id, done, stamp);
    lemma_find_id(s, id);
    lemma_find_id(m, id);
    let k = find_id(s, id);
    assert forall|j: int| 0 <= j < s.len() implies #[trigger] m[j].id == s[j].id by {}
    if k >= 0 {
        assert(has_id(m, id)) by {
            assert(m[k].id == id);
        }
        let k2 = find_id(m, id);
        if k2 < k {
            assert(m[k2].id == s[k2].id);
        } else if k2 > k {
            assert(m[k].id == id);
        }
    } else {
        if has_id(m, id) {
            let w = choose|j: int| 0 <= j < m.len() && #[trigger] m[j].id == id;
            assert(s[w].id == id);
            assert(has_id(s, id));
        }
    }
}

/// Marking a pending task done and then undoing it gives back the list as
/// it was: the task is pending again, with no completion time.
pub proof fn lemma_done_then_undo_restores(s: Seq<Todo>, id: u32, at: Timestamp)
    requires
        has_id(s, id),
        !s[find_id(s, id)].completed,
        s[find_id(s, id)].completed_at is None,
    ensures
        marked(marked(s, id, true, Some(at)), id, false, None) == s,
{
    lemma_find_id(s, id);
    lemma_marked_keeps_ids(s, id, true, Some(at));
    let k = find_id(s, id);
    let m = marked(s, id, true, Some(at));
    assert(with_state(m[k], false, None) == s[k]);
    assert(m.update(k, with_state(m[k], false, None)) =~= s);
}

/// Undoing after marking done is the same as undoing alone: the time of
/// completion is forgotten.
pub proof fn lemma_undo_forgets_done(s: Seq<Todo>, id: u32, at: Timestamp)
    ensures
        marked(marked(s, id, true, Some(at)), id, false, None) == marked(s, id, false, None),
{
    lemma_find_id(s, id);
    lemma_marked_keeps_ids(s, id, true, Some(at));
    let k = find_id(s, id);
    if k >= 0 {
        let m = marked(s, id, true, Some(at));
        assert(with_state(m[k], false, None) == with_state(s[k], false, None));
        assert(m.update(k, with_state(m[k], false, None)) =~= s.update(
            k,
            with_state(s[k], false, None),
        ));
    }
}

/// After a task is removed no task has its id; removing it again changes
/// nothing; removing an id that no task has changes nothing.
pub proof fn lemma_remove_laws(s: Seq<Todo>, id: u32)
    ensures
        !has_id(without_id(s, id), id),
        without_id(without_id(s, id), id) == without_id(s, id),
        !has_id(s, id) ==> without_id(s, id) == s,
{
    let p = |t: Todo| t.id != id;
    let f = s.filter(p);
    if has_id(f, id) {
        let w = choose|j: int| 0 <= j < f.len() && #[trigger] f[j].id == id;
        s.lemma_filter_pred(p, w);
    }
    lemma_filter_idempotent(s, p);
    if !has_id(s, id) {
        assert forall|i: int| 0 <= i < s.len() implies p(#[trigger] s[i]) by {
            if s[i].id == id {
                assert(has_id(s, id));
            }
        }
        lemma_filter_keeps_all(s, p);
    }
}

/// After clearing, no completed task is left and every pending task stays;
/// clearing twice is clearing once.
pub proof fn lemma_clear_laws(s: Seq<Todo>)
    ensures
        completed_only(pending_only(s)).len() == 0,
        pending_only(pending_only(s)) == pending_only(s),
        pending_only(s).len() + completed_only(s).len() == s.len(),
        forall|i: int| 0 <= i < s.len() && !s[i].completed ==> pending_only(s).contains(#[trigger] s[i]),
    decreases s.len(),
{
    let p = |t: Todo| !t.completed;
    let c = |t: Todo| t.completed;
    let f = s.filter(p);
    lemma_filter_idempotent(s, p);
    assert forall|i: int| 0 <= i < f.len() implies !c(#[trigger] f[i]) by {
        s.lemma_filter_pred(p, i);
    }
    lemma_filter_none(f, c);
    lemma_filter_split(s);
    assert forall|i: int| 0 <= i < s.len() && !s[i].completed implies pending_only(s).contains(
        #[trigger] s[i],
    ) by {
        s.lemma_filter_contains(p, i);
    }
}

proof fn lemma_filter_none(s: Seq<Todo>, p: spec_fn(Todo) -> bool)
    requires
        forall|i: int| 0 <= i < s.len() ==> !p(#[trigger] s[i]),
    ensures
        s.filter(p).len() == 0,
    decreases s.len(),
{
    reveal(Seq::filter);
    if s.len() > 0 {
        let q = s.drop_last();
        assert forall|i: int| 0 <= i < q.len() implies !p(#[trigger] q[i]) by {
            assert(q[i] == s[i]);
        }
        lemma_filter_none(q, p);
        assert(!p(s[s.len() - 1]));
    }
}

proof fn lemma_filter_split(s: Seq<Todo>)
    ensures
        pending_only(s).len() + completed_only(s).len() == s.len(),
    decreases s.len(),
{
    reveal(Seq::filter);
    if s.len() > 0 {
        lemma_filter_split(s.drop_last());
    }
}

/// Two results that both meet the contract of a listing (or a search) are
/// the same: the contract fixes which positions come out and in what order.
pub proof fn lemma_selection_is_unique(
    s: Seq<Todo>,
    r1: Seq<usize>,
    r2: Seq<usize>,
    keep: spec_fn(Todo) -> bool,
    order: SortOrder,
)
    requires
        is_ordered_selection(s, r1, keep, order),
        is_ordered_selection(s, r2, keep, order),
    ensures
        r1 == r2,
{
    let m = if r1.len() < r2.len() {
        r1.len() as int
    } else {
        r2.len() as int
    };
    lemma_selection_prefix(s, r1, r2, keep, order, m);
    if r1.len() > r2.len() {
        let x = r1[m];
        assert(r2.contains(x));
        let b = choose|b: int| 0 <= b < r2.len() && r2[b] == x;
        assert(r1[b] == r2[b]);
        assert(precedes(order, s, r1[b] as int, r1[m] as int));
    } else if r2.len() > r1.len() {
        let y = r2[m];
        assert(r1.contains(y));
        let c = choose|c: int| 0 <= c < r1.len() && r1[c] == y;
        assert(r1[c] == r2[c]);
        assert(precedes(order, s, r2[c] as int, r2[m] as int));
    }
    assert(r1 =~= r2);
}

proof fn lemma_selection_prefix(
    s: Seq<Todo>,
    r1: Seq<usize>,
    r2: Seq<usize>,
    keep: spec_fn(Todo) -> bool,
    order: SortOrder,
    n: int,
)
    requires
        is_ordered_selection(s, r1, keep, order),
        is_ordered_selection(s, r2, keep, order),
        0 <= n <= r1.len(),
        n <= r2.len(),
    ensures
        forall|a: int| 0 <= a < n ==> r1[a] == r2[a],
    decreases n,
{
    if n > 0 {
        lemma_selection_prefix(s, r1, r2, keep, order, n - 1);
        let a = n - 1;
        let x = r1[a];
        let y = r2[a];
        assert(r2.contains(x));
        assert(r1.contains(y));
        let b = choose|b: int| 0 <= b < r2.len() && r2[b] == x;
        let c = choose|c: int| 0 <= c < r1.len() && r1[c] == y;
        if b < a {
            assert(r1[b] == r2[b]);
            assert(precedes(order, s, r1[b] as int, r1[a] as int));
        }
        if c < a {
            assert(r1[c] == r2[c]);
            assert(precedes(order, s, r2[c] as int, r2[a] as int));
        }
        if x != y {
            assert(precedes(order, s, r2[a] as int, r2[b] as int));
            assert(precedes(order, s, r1[a] as int, r1[c] as int));
        }
    }
}

/// A listing (or a search) shows no task twice.
pub proof fn lemma_selection_has_no_repeats(
    s: Seq<Todo>,
    r: Seq<usize>,
    keep: spec_fn(Todo) -> bool,
    order: SortOrder,
)
    requires
        is_ordered_selection(s, r, keep, order),
    ensures
        r.no_duplicates(),
{
    assert forall|a: int, b: int| 0 <= a < r.len() && 0 <= b < r.len() && a != b implies r[a]
        != r[b] by {
        if a < b {
            assert(precedes(order, s, r[a] as int, r[b] as int));
        } else {
            assert(precedes(order, s, r[b] as int, r[a] as int));
        }
    }
}

/// Listing every task, with no filter, in the list's order shows each
/// position once, from the first to the last.
pub proof fn lemma_full_listing(s: Seq<Todo>, r: Seq<usize>)
    requires
        s.len() <= usize::MAX,
    ensures
        is_listing(s, r, true, None, None, SortOrder::Id) <==> r == Seq::new(
            s.len(),
            |i: int| i as usize,
        ),
{
    let all = Seq::new(s.len(), |i: int| i as usize);
    let keep = |t: Todo| listed(t, true, None, None);
    assert forall|j: usize| j < s.len() && keep(s[j as int]) implies #[trigger] all.contains(j) by {
        assert(all[j as int] == j);
    }
    assert(is_ordered_selection(s, all, keep, SortOrder::Id));
    if is_listing(s, r, true, None, None, SortOrder::Id) {
        lemma_selection_is_unique(s, r, all, keep, SortOrder::Id);
    }
}

/// The number a run of decimal digits stands for, each character read as
/// its distance from `'0'`.
pub open spec fn digits_value(ds: Seq<char>) -> int
    decreases ds.len(),
{
    if ds.len() == 0 {
        0
    } else {
        digits_value(ds.drop_last()) * 10 + (ds.last() as int - '0' as int)
    }
}

proof fn lemma_digit_char_value(d: nat)
    requires
        d < 10,
    ensures
        digit_char(d) as int == '0' as int + d,
{
}

/// The decimal notation of `n` (what a task's line shows as its id) is made
/// of the digits `0`..`9` only, has no leading zero, and reads back as `n`.
pub proof fn lemma_decimal_reads_back(n: nat)
    ensures
        decimal(n).len() >= 1,
        forall|i: int|
            0 <= i < decimal(n).len() ==> '0' as int <= #[trigger] decimal(n)[i] as int <= '9' as int,
        n > 0 ==> decimal(n)[0] != '0',
        digits_value(decimal(n)) == n,
    decreases n,
{
    if n < 10 {
        lemma_digit_char_value(n);
        assert(decimal(n).drop_last() =~= Seq::<char>::empty());
        assert(digits_value(Seq::<char>::empty()) == 0);
        assert(digits_value(decimal(n)) == digits_value(decimal(n).drop_last()) * 10 + (
        decimal(n).last() as int - '0' as int));
    } else {
        let q = n / 10;
        let d = n % 10;
        lemma_decimal_reads_back(q);
        lemma_digit_char_value(d);
        let ds = decimal(n);
        assert(ds == decimal(q).push(digit_char(d)));
        assert(ds.drop_last() =~= decimal(q));
        assert(ds[0] == decimal(q)[0]);
        assert forall|i: int| 0 <= i < ds.len() implies '0' as int <= #[trigger] ds[i] as int
            <= '9' as int by {
            if i < ds.len() - 1 {
                assert(ds[i] == decimal(q)[i]);
            }
        }
        assert(ds.last() == digit_char(d));
        assert(digits_value(ds) == digits_value(decimal(q)) * 10 + d);
        assert(q * 10 + d == n);
    }
}

/// What a listing shows, stated field by field: without `all` no completed
/// task; with a priority `p` only tasks of priority strictly above `p`; with
/// a tag only tasks whose tags, written one after another, hold it. And every
/// task that passes all three is shown.
pub proof fn lemma_listing_filters(
    s: Seq<Todo>,
    r: Seq<usize>,
    all: bool,
    priority: Option<u8>,
    tag: Option<Seq<char>>,
    order: SortOrder,
)
    requires
        is_listing(s, r, all, priority, tag, order),
    ensures
        forall|a: int| 0 <= a < r.len() ==> #[trigger] r[a] < s.len(),
        forall|a: int| 0 <= a < r.len() && !all ==> !s[#[trigger] r[a] as int].completed,
        forall|a: int|
            0 <= a < r.len() ==> (priority matches Some(p) ==> s[#[trigger] r[a] as int].priority
                > p),
        forall|a: int|
            0 <= a < r.len() ==> (tag matches Some(g) ==> is_substring(
                joined(views(s[#[trigger] r[a] as int].tags@), Seq::empty()),
                g,
            )),
        forall|j: usize|
            j < s.len() && (all || !s[j as int].completed) && (priority matches Some(p) ==> s[j as int].priority > p)
                && (tag matches Some(g) ==> is_substring(joined(views(s[j as int].tags@), Seq::empty()), g))
                ==> #[trigger] r.contains(j),
{
    let keep = |t: Todo| listed(t, all, priority, tag);
    assert forall|a: int| 0 <= a < r.len() implies #[trigger] r[a] < s.len() && keep(
        s[r[a] as int],
    ) by {}
    assert forall|j: usize|
        j < s.len() && (all || !s[j as int].completed) && (priority matches Some(p) ==> s[j as int].priority > p)
            && (tag matches Some(g) ==> is_substring(joined(views(s[j as int].tags@), Seq::empty()), g))
        implies #[trigger] r.contains(j) by {
        assert(keep(s[j as int]));
    }
}

/// The order a listing (or a search) shows its tasks in, stated field by
/// field: by position; by priority, highest first; or by creation time,
/// oldest first; ties keep the order of the list.
pub proof fn lemma_listing_order(
    s: Seq<Todo>,
    r: Seq<usize>,
    keep: spec_fn(Todo) -> bool,
    order: SortOrder,
)
    requires
        is_ordered_selection(s, r, keep, order),
    ensures
        forall|a: int, b: int|
            0 <= a < b < r.len() ==> {
                let x = s[#[trigger] r[a] as int];
                let y = s[#[trigger] r[b] as int];
                &&& order == SortOrder::Id ==> r[a] < r[b]
                &&& order == SortOrder::Priority ==> x.priority > y.priority || (x.priority
                    == y.priority && r[a] < r[b])
                &&& order == SortOrder::Created ==> x.created_at.secs < y.created_at.secs || (
                x.created_at.secs == y.created_at.secs && x.created_at.nanos < y.created_at.nanos)
                    || (x.created_at == y.created_at && r[a] < r[b])
            },
{
    assert forall|a: int, b: int| 0 <= a < b < r.len() implies {
        let x = s[#[trigger] r[a] as int];
        let y = s[#[trigger] r[b] as int];
        &&& order == SortOrder::Id ==> r[a] < r[b]
        &&& order == SortOrder::Priority ==> x.priority > y.priority || (x.priority == y.priority
            && r[a] < r[b])
        &&& order == SortOrder::Created ==> x.created_at.secs < y.created_at.secs || (
        x.created_at.secs == y.created_at.secs && x.created_at.nanos < y.created_at.nanos) || (
        x.created_at == y.created_at && r[a] < r[b])
    } by {
        assert(precedes(order, s, r[a] as int, r[b] as int));
    }
}

/// What a search finds, stated directly: exactly the tasks whose text holds
/// the keyword, in the order of the list.
pub proof fn lemma_search_finds(s: Seq<Todo>, r: Seq<usize>, keyword: Seq<char>)
    requires
        is_search_result(s, r, keyword),
    ensures
        forall|a: int|
            0 <= a < r.len() ==> #[trigger] r[a] < s.len() && is_substring(
                s[r[a] as int].content@,
                keyword,
            ),
        forall|j: usize|
            j < s.len() && is_substring(s[j as int].content@, keyword) ==> #[trigger] r.contains(
                j,
            ),
        forall|a: int, b: int| 0 <= a < b < r.len() ==> #[trigger] r[a] < #[trigger] r[b],
{
    let keep = |t: Todo| is_substring(t.content@, keyword);
    assert forall|a: int| 0 <= a < r.len() implies #[trigger] r[a] < s.len() && keep(
        s[r[a] as int],
    ) by {}
    assert forall|j: usize| j < s.len() && is_substring(s[j as int].content@, keyword) implies #[trigger] r.contains(
        j,
    ) by {
        assert(keep(s[j as int]));
    }
    assert forall|a: int, b: int| 0 <= a < b < r.len() implies #[trigger] r[a] < #[trigger] r[b] by {
        assert(precedes(SortOrder::Id, s, r[a] as int, r[b] as int));
    }
}

/// A text occurs in another exactly when the other is something, then the
/// text, then something.
pub proof fn lemma_substring_is_infix(h: Seq<char>, n: Seq<char>)
    ensures
        is_substring(h, n) <==> exists|a: Seq<char>, b: Seq<char>| #[trigger] (a + n + b) == h,
{
    if is_substring(h, n) {
        let i = choose|i: int|
            0 <= i && i + n.len() <= h.len() && #[trigger] h.subrange(i, i + n.len()) == n;
        let a = h.take(i);
        let b = h.skip(i + n.len());
        assert(a + n + b =~= h);
    }
    if exists|a: Seq<char>, b: Seq<char>| #[trigger] (a + n + b) == h {
        let (a, b) = choose|a: Seq<char>, b: Seq<char>| #[trigger] (a + n + b) == h;
        let i = a.len() as int;
        assert(h.subrange(i, i + n.len()) =~= n);
    }
}

/// Joining: nothing gives the empty text, one part gives that part, and
/// joining two non-empty runs of parts one after another is joining each
/// and putting the separator between them.
pub proof fn lemma_joined_laws(p: Seq<Seq<char>>, q: Seq<Seq<char>>, x: Seq<char>, sep: Seq<char>)
    ensures
        joined(Seq::empty(), sep) == Seq::<char>::empty(),
        joined(seq![x], sep) == x,
        p.len() > 0 && q.len() > 0 ==> joined(p + q, sep) == joined(p, sep) + sep + joined(q, sep),
    decreases q.len(),
{
    if p.len() > 0 && q.len() > 0 {
        if q.len() == 1 {
            assert((p + q).drop_last() =~= p);
            assert((p + q).last() == q[0]);
        } else {
            lemma_joined_laws(p, q.drop_last(), x, sep);
            assert((p + q).drop_last() =~= p + q.drop_last());
            assert((p + q).last() == q.last());
            assert(joined(p + q, sep) =~= joined(p, sep) + sep + joined(q, sep));
        }
    }
}

/// Removing, clearing and counting work task by task: on two runs of tasks
/// one after another they give the results on each run one after another,
/// and on a single task they keep it exactly when it qualifies.
pub proof fn lemma_filters_work_task_by_task(a: Seq<Todo>, b: Seq<Todo>, t: Todo, id: u32)
    ensures
        without_id(a + b, id) == without_id(a, id) + without_id(b, id),
        pending_only(a + b) == pending_only(a) + pending_only(b),
        completed_only(a + b) == completed_only(a) + completed_only(b),
        without_id(seq![t], id) == if t.id != id {
            seq![t]
        } else {
            Seq::empty()
        },
        pending_only(seq![t]) == if !t.completed {
            seq![t]
        } else {
            Seq::empty()
        },
        completed_only(seq![t]) == if t.completed {
            seq![t]
        } else {
            Seq::empty()
        },
{
    broadcast use vstd::seq_lib::group_seq_lib_default;

    reveal_with_fuel(Seq::filter, 2);
    assert(seq![t].drop_last() =~= Seq::<Todo>::empty());
    assert(seq![t].last() == t);
    assert(Seq::<Todo>::empty().push(t) =~= seq![t]);
}

/// Marking changes one task only: the first with the id, whose completion
/// state becomes the given one and whose other fields stay; with no such
/// task nothing changes.
pub proof fn lemma_mark_changes_one_task(s: Seq<Todo>, id: u32, done: bool, stamp: Option<Timestamp>)
    ensures
        marked(s, id, done, stamp).len() == s.len(),
        !has_id(s, id) ==> marked(s, id, done, stamp) == s,
        has_id(s, id) ==> {
            let k = find_id(s, id);
            let m = marked(s, id, done, stamp);
            &&& 0 <= k < s.len()
            &&& s[k].id == id
            &&& forall|j: int| 0 <= j < k ==> #[trigger] s[j].id != id
            &&& forall|j: int| 0 <= j < s.len() && j != k ==> #[trigger] m[j] == s[j]
            &&& m[k].completed == done
            &&& m[k].completed_at == stamp
            &&& m[k].id == s[k].id
            &&& m[k].content == s[k].content
            &&& m[k].created_at == s[k].created_at
            &&& m[k].priority == s[k].priority
            &&& m[k].tags == s[k].tags
        },
{
    lemma_find_id(s, id);
}

/// A new task is pending, never completed, and holds what it was given.
pub proof fn lemma_new_task_is_pending(
    id: u32,
    content: String,
    priority: u8,
    tags: Vec<String>,
    at: Timestamp,
)
    ensures
        ({
            let t = Todo::new_at_spec(id, content, priority, tags, at);
            &&& t.id == id
            &&& t.content == content
            &&& !t.completed
            &&& t.created_at == at
            &&& t.priority == priority
            &&& t.completed_at is None
            &&& t.tags == tags
        }),
{
}

/// Priority values read as levels: 2 is urgent, 1 is high, every other
/// value is normal.
pub proof fn lemma_priority_levels(p: u8)
    ensures
        PriorityLevel::spec_of(p) == PriorityLevel::Urgent <==> p == 2,
        PriorityLevel::spec_of(p) == PriorityLevel::High <==> p == 1,
        PriorityLevel::spec_of(p) == PriorityLevel::Normal <==> (p != 1 && p != 2),
{
}

/// A listing's sort word: exactly `priority` and `created` choose those
/// orders; every other text keeps the list's order.
pub proof fn lemma_sort_words(s: Seq<char>)
    ensures
        SortOrder::spec_parse(s) == SortOrder::Priority <==> s == seq![
            'p',
            'r',
            'i',
            'o',
            'r',
            'i',
            't',
            'y',
        ],
        SortOrder::spec_parse(s) == SortOrder::Created <==> s == seq!['c', 'r', 'e', 'a', 't', 'e', 'd'],
        SortOrder::spec_parse(s) == SortOrder::Id <==> (s != seq![
            'p',
            'r',
            'i',
            'o',
            'r',
            'i',
            't',
            'y',
        ] && s != seq!['c', 'r', 'e', 'a', 't', 'e', 'd']),
{
    assert(priority_word() =~= seq!['p', 'r', 'i', 'o', 'r', 'i', 't', 'y']);
    assert(created_word() =~= seq!['c', 'r', 'e', 'a', 't', 'e', 'd']);
    assert(priority_word() != created_word()) by {
        assert(priority_word()[0] != created_word()[0]);
    }
}

/// The one-line form of a task, spelt out: `[`, the id in decimal, `] `, a
/// check mark when done or a circle when not, a blank, `!!` for priority 2,
/// `!` for 1 and a blank otherwise, a blank, the text, and, when there are
/// tags, ` [` with the tags separated by `, ` and `]`.
pub proof fn lemma_line_layout(t: Todo)
    ensures
        line_of(t) == seq!['['] + decimal(t.id as nat) + seq![']', ' '] + (if t.completed {
            seq!['\u{2705}']
        } else {
            seq!['\u{2b55}']
        }) + seq![' '] + (if t.priority == 2 {
            seq!['!', '!']
        } else if t.priority == 1 {
            seq!['!']
        } else {
            seq![' ']
        }) + seq![' '] + t.content@ + (if t.tags@.len() == 0 {
            Seq::<char>::empty()
        } else {
            seq![' ', '['] + joined(views(t.tags@), seq![',', ' ']) + seq![']']
        }),
{
}

} // verus!
