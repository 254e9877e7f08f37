//! The collection of tasks loaded from one file.

use vstd::prelude::*;
use crate::task::{Task, TaskModel, Status, task_le, parse_model, line_of, choice_status};
use crate::text::{lines_of, split_lines, chars_of};

verus! {

/// The models of a sequence of tasks.
pub open spec fn models(v: Seq<Task>) -> Seq<TaskModel> {
    v.map_values(|t: Task| t@)
}

/// Each task may stand before the next one.
pub open spec fn sorted(s: Seq<TaskModel>) -> bool {
    forall|i: int| 0 <= i < s.len() - 1 ==> task_le(#[trigger] s[i], s[i + 1])
}

/// Where `x` goes in `s`: after the leading run of tasks that may stand before it.
pub open spec fn ins_pos(s: Seq<TaskModel>, x: TaskModel) -> nat
    decreases s.len(),
{
    if s.len() > 0 && task_le(s[0], x) {
        1 + ins_pos(s.drop_first(), x)
    } else {
        0
    }
}

/// `s` with `x` put in after the leading run of tasks that may stand before it.
pub open spec fn insert_sorted(s: Seq<TaskModel>, x: TaskModel) -> Seq<TaskModel> {
    s.insert(ins_pos(s, x) as int, x)
}

/// The stable sort of `s` by status, then id: each task in turn is put in after
/// those already placed that may stand before it.
pub open spec fn sort_spec(s: Seq<TaskModel>) -> Seq<TaskModel>
    decreases s.len(),
{
    if s.len() == 0 {
        s
    } else {
        insert_sorted(sort_spec(s.drop_last()), s.last())
    }
}

proof fn lemma_ins_pos(s: Seq<TaskModel>, x: TaskModel)
    ensures
        ins_pos(s, x) <= s.len(),
        forall|k: int| 0 <= k < ins_pos(s, x) ==> task_le(#[trigger] s[k], x),
        ins_pos(s, x) < s.len() ==> !task_le(s[ins_pos(s, x) as int], x),
    decreases s.len(),
{
    if s.len() > 0 && task_le(s[0], x) {
        lemma_ins_pos(s.drop_first(), x);
        assert forall|k: int| 0 <= k < ins_pos(s, x) implies task_le(#[trigger] s[k], x) by {
            if k > 0 {
                assert(s[k] == s.drop_first()[k - 1]);
            }
        }
    }
}

proof fn lemma_ins_pos_end(s: Seq<TaskModel>, x: TaskModel)
    requires
        forall|k: int| 0 <= k < s.len() ==> task_le(#[trigger] s[k], x),
    ensures
        ins_pos(s, x) == s.len(),
    decreases s.len(),
{
    if s.len() > 0 {
        assert(task_le(s[0], x));
        assert forall|k: int| 0 <= k < s.drop_first().len() implies task_le(
            #[trigger] s.drop_first()[k],
            x,
        ) by {
            assert(s.drop_first()[k] == s[k + 1]);
        }
        lemma_ins_pos_end(s.drop_first(), x);
    }
}

proof fn lemma_insert_sorted(s: Seq<TaskModel>, x: TaskModel)
    requires
        sorted(s),
    ensures
        sorted(insert_sorted(s, x)),
        insert_sorted(s, x).to_multiset() == s.to_multiset().insert(x),
{
    lemma_ins_pos(s, x);
    let p = ins_pos(s, x) as int;
    let r = insert_sorted(s, x);
    assert forall|i: int| 0 <= i < r.len() - 1 implies task_le(#[trigger] r[i], r[i + 1]) by {
        if i + 1 < p {
            assert(task_le(s[i], s[i + 1]));
        } else if i + 1 == p {
            assert(task_le(s[i], x));
        } else if i == p {
            assert(!task_le(s[p], x));
        } else {
            assert(task_le(s[i - 1], s[i]));
        }
    }
    vstd::seq_lib::to_multiset_insert(s, p, x);
}

proof fn lemma_sorted_before_last(s: Seq<TaskModel>, k: int)
    requires
        sorted(s),
        0 <= k < s.len(),
    ensures
        task_le(s[k], s.last()),
    decreases s.len() - k,
{
    if k < s.len() - 1 {
        lemma_sorted_before_last(s, k + 1);
        assert(task_le(s[k], s[k + 1]));
    }
}

/// The sort leaves each task no later than the next: a lower status first, and
/// within one status the lower id first.
pub proof fn lemma_sort_sorted(s: Seq<TaskModel>)
    ensures
        sorted(sort_spec(s)),
    decreases s.len(),
{
    if s.len() > 0 {
        lemma_sort_sorted(s.drop_last());
        lemma_insert_sorted(sort_spec(s.drop_last()), s.last());
    }
}

/// The sort keeps every task and adds none: the result is a permutation.
pub proof fn lemma_sort_permutes(s: Seq<TaskModel>)
    ensures
        sort_spec(s).to_multiset() == s.to_multiset(),
    decreases s.len(),
{
    broadcast use vstd::seq_lib::group_to_multiset_ensures;

    if s.len() > 0 {
        lemma_sort_permutes(s.drop_last());
        lemma_sort_sorted(s.drop_last());
        lemma_insert_sorted(sort_spec(s.drop_last()), s.last());
        vstd::seq_lib::to_multiset_build(s.drop_last(), s.last());
        assert(s.drop_last().push(s.last()) =~= s);
    }
}

/// The tasks of `s` with the given status and id, in their order in `s`.
pub open spec fn with_key(s: Seq<TaskModel>, st: Status, id: usize) -> Seq<TaskModel>
    decreases s.len(),
{
    if s.len() == 0 {
        Seq::empty()
    } else if s.last().status == st && s.last().id == id {
        with_key(s.drop_last(), st, id).push(s.last())
    } else {
        with_key(s.drop_last(), st, id)
    }
}

proof fn lemma_sorted_pair(s: Seq<TaskModel>, i: int, j: int)
    requires
        sorted(s),
        0 <= i <= j < s.len(),
    ensures
        task_le(s[i], s[j]),
    decreases j - i,
{
    if i < j {
        lemma_sorted_pair(s, i + 1, j);
        assert(task_le(s[i], s[i + 1]));
    }
}

proof fn lemma_with_key_insert_other(a: Seq<TaskModel>, p: int, x: TaskModel, st: Status, id: usize)
    requires
        0 <= p <= a.len(),
        !(x.status == st && x.id == id),
    ensures
        with_key(a.insert(p, x), st, id) == with_key(a, st, id),
    decreases a.len(),
{
    if p == a.len() {
        assert(a.insert(p, x).drop_last() =~= a);
    } else {
        assert(a.insert(p, x).drop_last() =~= a.drop_last().insert(p, x));
        assert(a.insert(p, x).last() == a.last());
        lemma_with_key_insert_other(a.drop_last(), p, x, st, id);
    }
}

proof fn lemma_with_key_insert_last(a: Seq<TaskModel>, p: int, x: TaskModel)
    requires
        0 <= p <= a.len(),
        forall|j: int| p <= j < a.len() ==> !((#[trigger] a[j]).status == x.status && a[j].id == x.id),
    ensures
        with_key(a.insert(p, x), x.status, x.id) == with_key(a, x.status, x.id).push(x),
    decreases a.len(),
{
    if p == a.len() {
        assert(a.insert(p, x).drop_last() =~= a);
    } else {
        assert(a.insert(p, x).drop_last() =~= a.drop_last().insert(p, x));
        assert(a.insert(p, x).last() == a.last());
        assert(a.last() == a[a.len() - 1]);
        lemma_with_key_insert_last(a.drop_last(), p, x);
    }
}

/// The sort is stable: the tasks that share a status and an id come out in the
/// order in which they went in.
pub proof fn lemma_sort_stable(s: Seq<TaskModel>, st: Status, id: usize)
    ensures
        with_key(sort_spec(s), st, id) == with_key(s, st, id),
    decreases s.len(),
{
    if s.len() > 0 {
        let d = s.drop_last();
        let x = s.last();
        let a = sort_spec(d);
        lemma_sort_stable(d, st, id);
        lemma_ins_pos(a, x);
        let p = ins_pos(a, x) as int;
        if x.status == st && x.id == id {
            lemma_sort_sorted(d);
            assert forall|j: int| p <= j < a.len() implies !((#[trigger] a[j]).status == x.status
                && a[j].id == x.id) by {
                if a[j].status == x.status && a[j].id == x.id {
                    lemma_sorted_pair(a, p, j);
                    assert(task_le(a[j], x));
                }
            }
            lemma_with_key_insert_last(a, p, x);
        } else {
            lemma_with_key_insert_other(a, p, x, st, id);
        }
    }
}

/// Sorting a collection that is already in order changes nothing.
pub proof fn lemma_sort_idempotent(s: Seq<TaskModel>)
    requires
        sorted(s),
    ensures
        sort_spec(s) == s,
    decreases s.len(),
{
    if s.len() > 0 {
        let d = s.drop_last();
        assert(sorted(d)) by {
            assert forall|i: int| 0 <= i < d.len() - 1 implies task_le(#[trigger] d[i], d[i + 1]) by {
                assert(task_le(s[i], s[i + 1]));
            }
        }
        lemma_sort_idempotent(d);
        assert forall|k: int| 0 <= k < d.len() implies task_le(#[trigger] d[k], s.last()) by {
            lemma_sorted_before_last(s, k);
        }
        lemma_ins_pos_end(d, s.last());
        assert(d.insert(d.len() as int, s.last()) =~= s);
    }
}

/// Sorting twice orders the tasks as sorting once does.
pub proof fn lemma_sort_twice(s: Seq<TaskModel>)
    ensures
        sort_spec(sort_spec(s)) == sort_spec(s),
{
    lemma_sort_sorted(s);
    lemma_sort_idempotent(sort_spec(s));
}

/// The number of tasks before the first one with the given id (the length when
/// there is none).
pub open spec fn id_pos(s: Seq<TaskModel>, id: usize) -> nat
    decreases s.len(),
{
    if s.len() > 0 && s[0].id != id {
        1 + id_pos(s.drop_first(), id)
    } else {
        0
    }
}

/// Some task of `s` has the given id.
pub open spec fn has_id(s: Seq<TaskModel>, id: usize) -> bool {
    exists|i: int| 0 <= i < s.len() && #[trigger] s[i].id == id
}

/// No two tasks of `s` share an id.
pub open spec fn unique_ids(s: Seq<TaskModel>) -> bool {
    forall|i: int, j: int| 0 <= i < s.len() && 0 <= j < s.len() && i != j ==> s[i].id != s[j].id
}

/// `s` without its first task of the given id, or `s` itself when there is none.
pub open spec fn delete_model(s: Seq<TaskModel>, id: usize) -> Seq<TaskModel> {
    if id_pos(s, id) < s.len() {
        s.remove(id_pos(s, id) as int)
    } else {
        s
    }
}

/// `s` with the status of its first task of the given id replaced.
pub open spec fn with_status(s: Seq<TaskModel>, id: usize, st: Status) -> Seq<TaskModel> {
    if id_pos(s, id) < s.len() {
        let p = id_pos(s, id) as int;
        s.update(p, TaskModel { status: st, ..s[p] })
    } else {
        s
    }
}

/// `s` with the text of its first task of the given id replaced.
pub open spec fn with_text(s: Seq<TaskModel>, id: usize, text: Seq<char>) -> Seq<TaskModel> {
    if id_pos(s, id) < s.len() {
        let p = id_pos(s, id) as int;
        s.update(p, TaskModel { text: text, ..s[p] })
    } else {
        s
    }
}

/// The file text of a sequence of tasks: their lines joined by newlines.
pub open spec fn file_text(s: Seq<TaskModel>) -> Seq<char>
    decreases s.len(),
{
    if s.len() == 0 {
        Seq::empty()
    } else if s.len() == 1 {
        line_of(s[0])
    } else {
        file_text(s.drop_last()) + seq!['\n'] + line_of(s.last())
    }
}

pub proof fn lemma_id_pos(s: Seq<TaskModel>, id: usize)
    ensures
        id_pos(s, id) <= s.len(),
        forall|k: int| 0 <= k < id_pos(s, id) ==> (#[trigger] s[k]).id != id,
        id_pos(s, id) < s.len() ==> s[id_pos(s, id) as int].id == id,
        id_pos(s, id) < s.len() <==> has_id(s, id),
    decreases s.len(),
{
    if s.len() > 0 && s[0].id != id {
        lemma_id_pos(s.drop_first(), id);
        assert forall|k: int| 0 <= k < id_pos(s, id) implies (#[trigger] s[k]).id != id by {
            if k > 0 {
                assert(s[k] == s.drop_first()[k - 1]);
            }
        }
        if has_id(s, id) {
            let i = choose|i: int| 0 <= i < s.len() && #[trigger] s[i].id == id;
            assert(s.drop_first()[i - 1].id == id);
        }
        if has_id(s.drop_first(), id) {
            let i = choose|i: int| 0 <= i < s.drop_first().len() && #[trigger] s.drop_first()[i].id == id;
            assert(s[i + 1].id == id);
        }
    } else if s.len() > 0 {
        assert(s[0].id == id);
    }
}

/// Deleting a present id removes exactly one task, one that has that id and no
/// task before it has; with unique ids none of that id is left. Deleting an
/// absent id changes nothing.
pub proof fn lemma_delete(s: Seq<TaskModel>, id: usize)
    ensures
        has_id(s, id) ==> {
            &&& delete_model(s, id).len() == s.len() - 1
            &&& exists|i: int|
                0 <= i < s.len() && #[trigger] s[i].id == id && delete_model(s, id) == s.remove(i)
                    && forall|k: int| 0 <= k < i ==> (#[trigger] s[k]).id != id
        },
        has_id(s, id) && unique_ids(s) ==> !has_id(delete_model(s, id), id),
        !has_id(s, id) ==> delete_model(s, id) == s,
{
    lemma_id_pos(s, id);
    if has_id(s, id) {
        let p = id_pos(s, id) as int;
        assert(s[p].id == id);
        if unique_ids(s) {
            let r = delete_model(s, id);
            assert forall|k: int| 0 <= k < r.len() implies (#[trigger] r[k]).id != id by {
                if k < p {
                    assert(r[k] == s[k]);
                } else {
                    assert(r[k] == s[k + 1]);
                }
            }
        }
    }
}

/// The tasks of one file, in file order until sorted.
pub struct Tasks(pub Vec<Task>);

impl View for Tasks {
    type V = Seq<TaskModel>;

    open spec fn view(&self) -> Seq<TaskModel> {
        models(self.0@)
    }
}

/// Where `t` goes in the sorted `out`.
fn find_pos(out: &Vec<Task>, t: &Task) -> (j: usize)
    ensures
        j == ins_pos(models(out@), t@),
        j <= out@.len(),
{
    proof {
        lemma_ins_pos(models(out@), t@);
    }
    let ghost m = models(out@);
    let mut k: usize = 0;
    assert(m.skip(0) =~= m);
    while k < out.len() && out[k].le(t)
        invariant
            k <= out@.len(),
            m == models(out@),
            ins_pos(m, t@) == k + ins_pos(m.skip(k as int), t@),
        decreases out@.len() - k,
    {
        assert(m.skip(k as int).drop_first() =~= m.skip(k + 1));
        assert(m.skip(k as int)[0] == m[k as int]);
        k = k + 1;
    }
    if k < out.len() {
        assert(m.skip(k as int)[0] == m[k as int]);
    }
    k
}

impl Tasks {
    /// Reads the lines of a file: line `i` (from 1) becomes the task with id `i`.
    pub fn new(lines: Vec<String>) -> (r: Tasks)
        ensures
            r@.len() == lines@.len(),
            forall|i: int|
                0 <= i < lines@.len() ==> #[trigger] r@[i] == parse_model((i + 1) as usize, lines@[i]@),
            forall|i: int| 0 <= i < r@.len() ==> (#[trigger] r@[i]).id == i + 1,
    {
        let mut v: Vec<Task> = Vec::new();
        let mut i: usize = 0;
        while i < lines.len()
            invariant
                i <= lines@.len(),
                v@.len() == i,
                forall|k: int|
                    0 <= k < i ==> #[trigger] v@[k]@ == parse_model((k + 1) as usize, lines@[k]@),
            decreases lines@.len() - i,
        {
            let t = Task::parse(i + 1, lines[i].as_str());
            v.push(t);
            i = i + 1;
        }
        let r = Tasks(v);
        assert forall|i: int| 0 <= i < lines@.len() implies #[trigger] r@[i] == parse_model(
            (i + 1) as usize,
            lines@[i]@,
        ) by {
            assert(r@[i] == v@[i]@);
        }
        r
    }

    /// Reads a whole file: its line `i` (from 1) becomes the task with id `i`.
    pub fn from_text(text: &str) -> (r: Tasks)
        ensures
            r@.len() == lines_of(text@).len(),
            forall|i: int|
                0 <= i < r@.len() ==> #[trigger] r@[i] == parse_model((i + 1) as usize, lines_of(text@)[i]),
    {
        let lines = split_lines(text);
        let r = Tasks::new(lines);
        assert forall|i: int| 0 <= i < r@.len() implies #[trigger] r@[i] == parse_model(
            (i + 1) as usize,
            lines_of(text@)[i],
        ) by {
            assert(lines@[i]@ == crate::text::views(lines@)[i]);
        }
        r
    }

    /// Appends the task of a free-text entry, with id `len + 2`, unless the entry
    /// was aborted or is empty; reports whether one was added.
    pub fn add_entry(&mut self, aborted: bool, query: String) -> (r: bool)
        requires
            old(self)@.len() <= usize::MAX - 2,
        ensures
            r == (!aborted && query@.len() > 0),
            r ==> final(self)@ == old(self)@.push(
                TaskModel { id: (old(self)@.len() + 2) as usize, text: query@, status: Status::Todo },
            ),
            !r ==> final(self)@ == old(self)@,
    {
        match Task::from_entry(self.len(), aborted, query) {
            Some(t) => {
                self.add(t);
                true
            },
            None => false,
        }
    }

    /// Applies a line picked from the status menu to the first task with the
    /// given id; reports whether the line named a status and the task was there.
    pub fn apply_status_choice(&mut self, id: usize, choice: &str) -> (r: bool)
        ensures
            final(self)@ == (match choice_status(choice@) {
                Some(st) => with_status(old(self)@, id, st),
                None => old(self)@,
            }),
            r == (choice_status(choice@) is Some && has_id(old(self)@, id)),
    {
        match Status::from_choice(choice) {
            Some(st) => self.set_status_of(id, st),
            None => false,
        }
    }

    /// Applies one run of the status menu: nothing when it was aborted or
    /// nothing was selected, else the selected line as `apply_status_choice` does.
    pub fn apply_status_pick(&mut self, id: usize, aborted: bool, selected: Option<String>) -> (r:
        bool)
        ensures
            (aborted || selected is None) ==> final(self)@ == old(self)@ && !r,
            (!aborted && selected is Some) ==> final(self)@ == (match choice_status(
                selected->Some_0@,
            ) {
                Some(st) => with_status(old(self)@, id, st),
                None => old(self)@,
            }) && r == (choice_status(selected->Some_0@) is Some && has_id(old(self)@, id)),
    {
        if aborted {
            return false;
        }
        match selected {
            Some(c) => self.apply_status_choice(id, c.as_str()),
            None => false,
        }
    }

    /// Applies one run of the delete confirmation: nothing when it was aborted
    /// or nothing was selected, else the selected answer as
    /// `apply_delete_answer` does.
    pub fn apply_delete_pick(&mut self, id: usize, aborted: bool, selected: Option<String>) -> (r:
        Option<Task>)
        ensures
            (aborted || selected is None) ==> final(self)@ == old(self)@ && r is None,
            (!aborted && selected is Some && selected->Some_0@ == seq!['y', 'e', 's'])
                ==> final(self)@ == delete_model(old(self)@, id) && (r is Some <==> has_id(
                old(self)@,
                id,
            )),
            (!aborted && selected is Some && selected->Some_0@ != seq!['y', 'e', 's'])
                ==> final(self)@ == old(self)@ && r is None,
    {
        if aborted {
            return None;
        }
        match selected {
            Some(a) => self.apply_delete_answer(id, a.as_str()),
            None => None,
        }
    }

    /// Replaces the text of the first task with the given id by an edited entry,
    /// unless the entry was aborted or is empty; reports whether it did.
    pub fn apply_text_edit(&mut self, id: usize, aborted: bool, query: String) -> (r: bool)
        ensures
            (!aborted && query@.len() > 0) ==> final(self)@ == with_text(old(self)@, id, query@),
            (aborted || query@.len() == 0) ==> final(self)@ == old(self)@,
            r == (!aborted && query@.len() > 0 && has_id(old(self)@, id)),
    {
        if !aborted && query.as_str().unicode_len() > 0 {
            self.set_text_of(id, query)
        } else {
            false
        }
    }

    /// Deletes the first task with the given id when the confirmation answer is
    /// exactly `yes`, and returns it.
    pub fn apply_delete_answer(&mut self, id: usize, answer: &str) -> (r: Option<Task>)
        ensures
            answer@ == seq!['y', 'e', 's'] ==> final(self)@ == delete_model(old(self)@, id),
            answer@ != seq!['y', 'e', 's'] ==> final(self)@ == old(self)@,
            r is Some <==> (answer@ == seq!['y', 'e', 's'] && has_id(old(self)@, id)),
    {
        let a = chars_of(answer);
        if a.len() == 3 && a[0] == 'y' && a[1] == 'e' && a[2] == 's' {
            assert(a@ =~= seq!['y', 'e', 's']);
            self.delete_id(id)
        } else {
            assert(a@ != seq!['y', 'e', 's']) by {
                if a@ == seq!['y', 'e', 's'] {
                    assert(a@[0] == 'y' && a@[1] == 'e' && a@[2] == 's');
                }
            }
            None
        }
    }

    /// The number of tasks.
    pub fn len(&self) -> (r: usize)
        ensures
            r == self@.len(),
    {
        self.0.len()
    }

    /// Appends a task at the end.
    pub fn add(&mut self, task: Task)
        ensures
            final(self)@ == old(self)@.push(task@),
    {
        self.0.push(task);
        assert(self@ =~= old(self)@.push(task@));
    }

    /// Removes and returns the task at `index`.
    pub fn remove(&mut self, index: usize) -> (r: Task)
        requires
            index < old(self)@.len(),
        ensures
            r@ == old(self)@[index as int],
            final(self)@ == old(self)@.remove(index as int),
    {
        let t = self.0.remove(index);
        assert(self@ =~= old(self)@.remove(index as int));
        t
    }

    /// The position of the first task with the given id.
    pub fn index_of(&self, id: usize) -> (r: Option<usize>)
        ensures
            r is Some <==> has_id(self@, id),
            r is Some ==> r->Some_0 == id_pos(self@, id),
    {
        proof {
            lemma_id_pos(self@, id);
        }
        let mut i: usize = 0;
        while i < self.0.len()
            invariant
                i <= self@.len(),
                forall|k: int| 0 <= k < i ==> (#[trigger] self@[k]).id != id,
            decreases self@.len() - i,
        {
            if self.0[i].id == id {
                proof {
                    lemma_id_pos(self@, id);
                    assert(self@[i as int].id == id);
                }
                return Some(i);
            }
            i = i + 1;
        }
        proof {
            lemma_id_pos(self@, id);
        }
        None
    }

    /// Removes the first task with the given id and returns it; changes nothing
    /// and returns `None` when no task has it.
    pub fn delete_id(&mut self, id: usize) -> (r: Option<Task>)
        ensures
            final(self)@ == delete_model(old(self)@, id),
            r is Some <==> has_id(old(self)@, id),
            r is Some ==> r->Some_0@ == old(self)@[id_pos(old(self)@, id) as int],
    {
        proof {
            lemma_id_pos(self@, id);
        }
        match self.index_of(id) {
            Some(index) => Some(self.remove(index)),
            None => None,
        }
    }

    /// Gives the first task with the given id a new status; reports whether there
    /// was one.
    pub fn set_status_of(&mut self, id: usize, status: Status) -> (r: bool)
        ensures
            final(self)@ == with_status(old(self)@, id, status),
            r == has_id(old(self)@, id),
    {
        proof {
            lemma_id_pos(self@, id);
        }
        match self.index_of(id) {
            Some(index) => {
                let ghost before = self@;
                let mut t = self.0.remove(index);
                t.status = status;
                self.0.insert(index, t);
                assert(self@ =~= with_status(before, id, status));
                true
            },
            None => false,
        }
    }

    /// Gives the first task with the given id a new text; reports whether there
    /// was one.
    pub fn set_text_of(&mut self, id: usize, text: String) -> (r: bool)
        ensures
            final(self)@ == with_text(old(self)@, id, text@),
            r == has_id(old(self)@, id),
    {
        proof {
            lemma_id_pos(self@, id);
        }
        match self.index_of(id) {
            Some(index) => {
                let ghost before = self@;
                let mut t = self.0.remove(index);
                t.text = text;
                self.0.insert(index, t);
                assert(self@ =~= with_text(before, id, text@));
                true
            },
            None => false,
        }
    }

    /// The text of the first task with the given id.
    pub fn text_of(&self, id: usize) -> (r: Option<String>)
        ensures
            r is Some <==> has_id(self@, id),
            r is Some ==> r->Some_0@ == self@[id_pos(self@, id) as int].text,
    {
        proof {
            lemma_id_pos(self@, id);
        }
        match self.index_of(id) {
            Some(index) => Some(self.0[index].text.clone()),
            None => None,
        }
    }

    /// The file text: each task's line, joined by newlines, with no newline at
    /// the end.
    pub fn to_file(&self) -> (r: String)
        ensures
            r@ == file_text(self@),
    {
        let mut out = String::new();
        let mut i: usize = 0;
        assert(self@.take(0) =~= Seq::<TaskModel>::empty());
        while i < self.0.len()
            invariant
                i <= self@.len(),
                out@ == file_text(self@.take(i as int)),
            decreases self@.len() - i,
        {
            let line = self.0[i].to_file();
            let ghost prefix = self@.take(i as int);
            assert(self@.take(i + 1).drop_last() =~= prefix);
            if i > 0 {
                crate::text::push_char(&mut out, '\n');
            }
            crate::text::push_str(&mut out, line.as_str());
            proof {
                if i == 0 {
                    assert(out@ =~= line_of(self@[0]));
                } else {
                    assert(out@ =~= file_text(prefix) + seq!['\n'] + line_of(self@[i as int]));
                }
            }
            i = i + 1;
        }
        assert(self@.take(i as int) =~= self@);
        out
    }
    /// Orders the tasks by status (`Todo`, `Done`, `Other`), then by id; tasks
    /// that compare equal keep their order.
    pub fn sort(&mut self)
        ensures
            final(self)@ == sort_spec(old(self)@),
            sorted(final(self)@),
            final(self)@.to_multiset() == old(self)@.to_multiset(),
            forall|st: Status, id: usize|
                #[trigger] with_key(final(self)@, st, id) == with_key(old(self)@, st, id),
    {
        let ghost orig = self@;
        let mut out: Vec<Task> = Vec::new();
        let ghost mut i: int = 0;
        assert(orig.subrange(0, 0) =~= Seq::<TaskModel>::empty());
        assert(orig.subrange(0, orig.len() as int) =~= orig);
        while self.0.len() > 0
            invariant
                0 <= i <= orig.len(),
                self@ == orig.subrange(i, orig.len() as int),
                models(out@) == sort_spec(orig.subrange(0, i)),
            decreases self.0@.len(),
        {
            assert(self@.len() == self.0@.len());
            assert(i < orig.len());
            assert(self@[0] == self.0@[0]@);
            assert(self@[0] == orig[i]);
            let ghost prev = self@;
            let t = self.0.remove(0);
            assert(self@ =~= prev.drop_first());
            let j = find_pos(&out, &t);
            let ghost before = models(out@);
            out.insert(j, t);
            proof {
                assert(t@ == orig[i]);
                assert(models(out@) =~= before.insert(j as int, t@));
                assert(orig.subrange(0, i + 1).drop_last() =~= orig.subrange(0, i));
                i = i + 1;
                assert(self@ =~= orig.subrange(i, orig.len() as int));
            }
        }
        self.0 = out;
        proof {
            assert(orig.subrange(0, i) =~= orig);
            lemma_sort_sorted(orig);
            lemma_sort_permutes(orig);
            assert forall|st: Status, id: usize|
                #[trigger] with_key(sort_spec(orig), st, id) == with_key(orig, st, id) by {
                lemma_sort_stable(orig, st, id);
            }
        }
    }
}

} // verus!
