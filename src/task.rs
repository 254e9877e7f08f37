//! One task: its status, its model, and its one-line file form.

use vstd::prelude::*;
use crate::number::{parse_usize, first_token, parse_first_number};
use crate::text::{
    trim, trim_start, trim_end, starts_with, is_trimmed, chars_of, string_of, push_chars, push_char,
    trim_bounds,
};

verus! {

/// Where a task stands.
#[derive(Clone, Copy, Debug, PartialEq, Eq, Structural)]
pub enum Status {
    Todo,
    Done,
    Other,
}

/// Place of a status in the order `Todo < Done < Other`.
pub open spec fn rank(s: Status) -> int {
    match s {
        Status::Todo => 0,
        Status::Done => 1,
        Status::Other => 2,
    }
}

/// Three-way comparison of two integers as an `Ordering`.
pub open spec fn ord_of(a: int, b: int) -> core::cmp::Ordering {
    if a < b {
        core::cmp::Ordering::Less
    } else if a == b {
        core::cmp::Ordering::Equal
    } else {
        core::cmp::Ordering::Greater
    }
}

impl Status {
    /// Compares two statuses by the order `Todo < Done < Other`.
    pub fn compare(&self, other: &Status) -> (r: core::cmp::Ordering)
        ensures
            r == ord_of(rank(*self), rank(*other)),
    {
        let a: u8 = self.rank_of();
        let b: u8 = other.rank_of();
        if a < b {
            core::cmp::Ordering::Less
        } else if a == b {
            core::cmp::Ordering::Equal
        } else {
            core::cmp::Ordering::Greater
        }
    }

    /// The place of this status in the order `Todo < Done < Other`.
    pub fn rank_of(&self) -> (r: u8)
        ensures
            r as int == rank(*self),
    {
        match self {
            Status::Todo => 0,
            Status::Done => 1,
            Status::Other => 2,
        }
    }
}

/// `s` holds `p` somewhere.
pub open spec fn contains(s: Seq<char>, p: Seq<char>) -> bool {
    exists|i: int| 0 <= i <= s.len() - p.len() && #[trigger] s.subrange(i, i + p.len()) == p
}

/// Whether `p` occurs in `s`.
pub fn contains_chars(s: &Vec<char>, p: &Vec<char>) -> (r: bool)
    ensures
        r == contains(s@, p@),
{
    if p.len() > s.len() {
        return false;
    }
    if p.len() == 0 {
        assert(s@.subrange(0, 0 + p@.len() as int) =~= p@);
        return true;
    }
    let n = s.len();
    let last = n - p.len();
    let mut i: usize = 0;
    while i <= last
        invariant
            0 < p@.len() <= s@.len(),
            n == s@.len(),
            last == s@.len() - p@.len(),
            i <= last + 1,
            forall|k: int| 0 <= k < i ==> #[trigger] s@.subrange(k, k + p@.len()) != p@,
        decreases last + 1 - i,
    {
        let mut j: usize = 0;
        while j < p.len() && s[i + j] == p[j]
            invariant
                i <= last,
                n == s@.len(),
                last == s@.len() - p@.len(),
                i + p@.len() <= s@.len(),
                j <= p@.len(),
                forall|m: int| 0 <= m < j ==> s@[i + m] == p@[m],
            decreases p@.len() - j,
        {
            j = j + 1;
        }
        if j == p.len() {
            assert(s@.subrange(i as int, i + p@.len()) =~= p@);
            return true;
        }
        assert(s@.subrange(i as int, i + p@.len())[j as int] != p@[j as int]);
        i = i + 1;
    }
    false
}

/// The status that a line picked from the status menu names: the last of
/// `done`, `todo`, `other` that it holds, in that order of testing.
pub open spec fn choice_status(c: Seq<char>) -> Option<Status> {
    if contains(c, seq!['o', 't', 'h', 'e', 'r']) {
        Some(Status::Other)
    } else if contains(c, seq!['t', 'o', 'd', 'o']) {
        Some(Status::Todo)
    } else if contains(c, seq!['d', 'o', 'n', 'e']) {
        Some(Status::Done)
    } else {
        None
    }
}

impl Status {
    /// Reads a line picked from the status menu.
    pub fn from_choice(choice: &str) -> (r: Option<Status>)
        ensures
            r == choice_status(choice@),
    {
        let c = chars_of(choice);
        let mut r: Option<Status> = None;
        if contains_chars(&c, &vec!['d', 'o', 'n', 'e']) {
            r = Some(Status::Done);
        }
        if contains_chars(&c, &vec!['t', 'o', 'd', 'o']) {
            r = Some(Status::Todo);
        }
        if contains_chars(&c, &vec!['o', 't', 'h', 'e', 'r']) {
            r = Some(Status::Other);
        }
        r
    }
}

impl PartialOrd for Status {
    fn partial_cmp(&self, other: &Status) -> (r: Option<core::cmp::Ordering>) {
        Some(self.compare(other))
    }
}

impl vstd::std_specs::cmp::PartialOrdSpecImpl for Status {
    open spec fn obeys_partial_cmp_spec() -> bool {
        true
    }

    open spec fn partial_cmp_spec(&self, other: &Status) -> Option<core::cmp::Ordering> {
        Some(ord_of(rank(*self), rank(*other)))
    }
}

/// What a task is, as plain values.
pub struct TaskModel {
    pub id: usize,
    pub text: Seq<char>,
    pub status: Status,
}

/// One item of the list: a transient id (its 1-based line), its text, its status.
#[derive(Debug)]
pub struct Task {
    pub id: usize,
    pub text: String,
    pub status: Status,
}

impl View for Task {
    type V = TaskModel;

    open spec fn view(&self) -> TaskModel {
        TaskModel { id: self.id, text: self.text@, status: self.status }
    }
}

/// The todo marker `[ ]`.
pub open spec fn todo_mark() -> Seq<char> {
    seq!['[', ' ', ']']
}

/// The done marker `[x]`.
pub open spec fn done_mark() -> Seq<char> {
    seq!['[', 'x', ']']
}

/// The line with one leading `-` taken off, then trimmed.
pub open spec fn body_of(line: Seq<char>) -> Seq<char> {
    if line.len() > 0 && line[0] == '-' {
        trim(line.drop_first())
    } else {
        trim(line)
    }
}

/// The task that a file line gives, under the given id.
pub open spec fn parse_model(id: usize, line: Seq<char>) -> TaskModel {
    let body = body_of(line);
    if starts_with(body, todo_mark()) {
        TaskModel { id, text: trim(body.skip(3)), status: Status::Todo }
    } else if starts_with(body, done_mark()) {
        TaskModel { id, text: trim(body.skip(3)), status: Status::Done }
    } else {
        TaskModel { id, text: body, status: Status::Other }
    }
}

/// What a line of the file begins with for a task of the given status.
pub open spec fn prefix_of(s: Status) -> Seq<char> {
    match s {
        Status::Todo => seq!['-', ' ', '[', ' ', ']', ' '],
        Status::Done => seq!['-', ' ', '[', 'x', ']', ' '],
        Status::Other => seq!['-', ' '],
    }
}

/// The file line of a task.
pub open spec fn line_of(t: TaskModel) -> Seq<char> {
    prefix_of(t.status) + t.text
}

/// Tasks are ordered by status, then by id: `a` may stand before `b`.
pub open spec fn task_le(a: TaskModel, b: TaskModel) -> bool {
    rank(a.status) < rank(b.status) || (rank(a.status) == rank(b.status) && a.id <= b.id)
}

/// Comparison of two tasks: status first, then id; the text is not looked at.
pub open spec fn task_cmp(a: TaskModel, b: TaskModel) -> core::cmp::Ordering {
    if rank(a.status) != rank(b.status) {
        ord_of(rank(a.status), rank(b.status))
    } else {
        ord_of(a.id as int, b.id as int)
    }
}

proof fn lemma_marked_line(t: TaskModel, m: Seq<char>)
    requires
        t.status != Status::Other,
        is_trimmed(t.text),
        m == (if t.status == Status::Todo { todo_mark() } else { done_mark() }),
    ensures
        parse_model(t.id, line_of(t)) == t,
{
    let line = line_of(t);
    let d = line.drop_first();
    let u = m + seq![' '] + t.text;
    assert(d =~= seq![' '] + u);
    crate::text::lemma_trim_start_space(u);
    assert(trim_start(u) == u);
    let body = body_of(line);
    assert(body == trim_end(u));
    if t.text.len() > 0 {
        assert(u.last() == t.text.last());
        assert(body == u);
        assert(body.subrange(0, 3) =~= m);
        assert(body.skip(3) =~= seq![' '] + t.text);
        crate::text::lemma_trim_start_space(t.text);
        crate::text::lemma_trimmed_fixed(t.text);
    } else {
        assert(u.drop_last() =~= m);
        assert(trim_end(m) == m);
        assert(body == m);
        assert(body.subrange(0, 3) =~= m);
        assert(body.skip(3) =~= t.text);
    }
    if t.status == Status::Done {
        assert(!starts_with(body, todo_mark())) by {
            assert(body.subrange(0, 3)[1] != todo_mark()[1]);
        }
    }
}

/// Parsing the line of a todo or done task whose text has no whitespace at
/// either end gives the task back, so writing it again gives the same line.
pub proof fn lemma_round_trip(t: TaskModel)
    requires
        t.status == Status::Todo || t.status == Status::Done,
        is_trimmed(t.text),
    ensures
        parse_model(t.id, line_of(t)) == t,
        line_of(parse_model(t.id, line_of(t))) == line_of(t),
{
    if t.status == Status::Todo {
        lemma_marked_line(t, todo_mark());
    } else {
        lemma_marked_line(t, done_mark());
    }
}

/// Every task read from a line has a text with no whitespace at either end, and
/// an `Other` task's text does not begin with a marker.
pub proof fn lemma_parse_shape(id: usize, line: Seq<char>)
    ensures
        is_trimmed(parse_model(id, line).text),
        parse_model(id, line).status == Status::Other ==> !starts_with(
            parse_model(id, line).text,
            todo_mark(),
        ) && !starts_with(parse_model(id, line).text, done_mark()),
{
    let body = body_of(line);
    if line.len() > 0 && line[0] == '-' {
        crate::text::lemma_trim_trimmed(line.drop_first());
    } else {
        crate::text::lemma_trim_trimmed(line);
    }
    crate::text::lemma_trim_trimmed(body.skip(3));
}

/// Writing a task whose text has no whitespace at either end, and which (when
/// `Other`) does not begin with a marker, then reading the line back gives the
/// task again.
pub proof fn lemma_line_reads_back(t: TaskModel)
    requires
        is_trimmed(t.text),
        t.status == Status::Other ==> !starts_with(t.text, todo_mark()) && !starts_with(
            t.text,
            done_mark(),
        ),
    ensures
        parse_model(t.id, line_of(t)) == t,
{
    if t.status == Status::Other {
        let line = line_of(t);
        assert(line.drop_first() =~= seq![' '] + t.text);
        crate::text::lemma_trim_start_space(t.text);
        crate::text::lemma_trimmed_fixed(t.text);
        assert(body_of(line) == t.text);
    } else {
        lemma_round_trip(t);
    }
}

/// Reading a line, writing the task and reading that again gives the same task:
/// the written line is stable under further round trips.
pub proof fn lemma_reparse(id: usize, line: Seq<char>)
    ensures
        parse_model(id, line_of(parse_model(id, line))) == parse_model(id, line),
{
    lemma_parse_shape(id, line);
    lemma_line_reads_back(parse_model(id, line));
}

/// A line that does not begin with `-` and whose trimmed content carries no
/// marker is an `Other` task, written back as `- ` and the trimmed content.
pub proof fn lemma_other_line(id: usize, line: Seq<char>)
    requires
        !(line.len() > 0 && line[0] == '-'),
        !starts_with(trim(line), todo_mark()),
        !starts_with(trim(line), done_mark()),
    ensures
        parse_model(id, line).status == Status::Other,
        parse_model(id, line).text == trim(line),
        line_of(parse_model(id, line)) == seq!['-', ' '] + trim(line),
{
}

impl Task {
    /// Reads one line of the file as the task with the given id.
    pub fn parse(id: usize, line: &str) -> (r: Task)
        ensures
            r@ == parse_model(id, line@),
    {
        let v = chars_of(line);
        let n = v.len();
        let start: usize = if n > 0 && v[0] == '-' {
            1
        } else {
            0
        };
        proof {
            if start == 1 {
                assert(v@.subrange(1, n as int) =~= line@.drop_first());
            } else {
                assert(v@.subrange(0, n as int) =~= line@);
            }
        }
        let (a, b) = trim_bounds(&v, start, n);
        let ghost body = v@.subrange(a as int, b as int);
        assert(body == body_of(line@));
        if b - a >= 3 && v[a] == '[' && v[a + 1] == ' ' && v[a + 2] == ']' {
            assert(body.subrange(0, 3) =~= todo_mark());
            assert(body.skip(3) =~= v@.subrange(a + 3, b as int));
            let (c, d) = trim_bounds(&v, a + 3, b);
            return Task { id, text: string_of(&v, c, d), status: Status::Todo };
        }
        assert(!starts_with(body, todo_mark())) by {
            if starts_with(body, todo_mark()) {
                assert(body[0] == body.subrange(0, 3)[0]);
                assert(body[1] == body.subrange(0, 3)[1]);
                assert(body[2] == body.subrange(0, 3)[2]);
            }
        }
        if b - a >= 3 && v[a] == '[' && v[a + 1] == 'x' && v[a + 2] == ']' {
            assert(body.subrange(0, 3) =~= done_mark());
            assert(body.skip(3) =~= v@.subrange(a + 3, b as int));
            let (c, d) = trim_bounds(&v, a + 3, b);
            return Task { id, text: string_of(&v, c, d), status: Status::Done };
        }
        assert(!starts_with(body, done_mark())) by {
            if starts_with(body, done_mark()) {
                assert(body[0] == body.subrange(0, 3)[0]);
                assert(body[1] == body.subrange(0, 3)[1]);
                assert(body[2] == body.subrange(0, 3)[2]);
            }
        }
        Task { id, text: string_of(&v, a, b), status: Status::Other }
    }

    /// Reads the id at the head of a rendered line: its first
    /// whitespace-delimited token as an unsigned number.
    pub fn parse_id(line: &str) -> (r: Option<usize>)
        ensures
            r == parse_usize(first_token(line@)),
    {
        let v = chars_of(line);
        parse_first_number(&v)
    }

    /// The id of the task picked from the rendered list: none when the pick was
    /// aborted, nothing was selected, or the selected line holds no id.
    pub fn id_from_pick(aborted: bool, selected: Option<String>) -> (r: Option<usize>)
        ensures
            (aborted || selected is None) ==> r is None,
            (!aborted && selected is Some) ==> r == parse_usize(first_token(selected->Some_0@)),
    {
        if aborted {
            return None;
        }
        match selected {
            Some(line) => Task::parse_id(line.as_str()),
            None => None,
        }
    }

    /// The task that a free-text entry gives, with id `len + 2`: none when the
    /// entry was aborted or is empty.
    pub fn from_entry(len: usize, aborted: bool, query: String) -> (r: Option<Task>)
        requires
            len <= usize::MAX - 2,
        ensures
            r is Some <==> !aborted && query@.len() > 0,
            r is Some ==> r->Some_0@ == (TaskModel { id: (len + 2) as usize, text: query@, status: Status::Todo }),
    {
        if !aborted && query.as_str().unicode_len() > 0 {
            Some(Task { id: len + 2, text: query, status: Status::Todo })
        } else {
            None
        }
    }

    /// The file line of the task.
    pub fn to_file(&self) -> (r: String)
        ensures
            r@ == line_of(self@),
    {
        let mut s = String::new();
        push_char(&mut s, '-');
        push_char(&mut s, ' ');
        match self.status {
            Status::Todo => {
                push_char(&mut s, '[');
                push_char(&mut s, ' ');
                push_char(&mut s, ']');
                push_char(&mut s, ' ');
            },
            Status::Done => {
                push_char(&mut s, '[');
                push_char(&mut s, 'x');
                push_char(&mut s, ']');
                push_char(&mut s, ' ');
            },
            Status::Other => {},
        }
        assert(s@ =~= prefix_of(self.status));
        let v = chars_of(self.text.as_str());
        push_chars(&mut s, &v, 0, v.len());
        assert(v@.subrange(0, v@.len() as int) =~= self.text@);
        s
    }

    /// Whether `self` may stand before `other`: a lower status, or the same
    /// status and an id no larger.
    pub fn le(&self, other: &Task) -> (r: bool)
        ensures
            r == task_le(self@, other@),
    {
        let a: u8 = self.status.rank_of();
        let b: u8 = other.status.rank_of();
        a < b || (a == b && self.id <= other.id)
    }

    /// Compares two tasks by status, then by id.
    pub fn compare(&self, other: &Task) -> (r: core::cmp::Ordering)
        ensures
            r == task_cmp(self@, other@),
    {
        let a: u8 = self.status.rank_of();
        let b: u8 = other.status.rank_of();
        if a != b {
            self.status.compare(&other.status)
        } else if self.id < other.id {
            core::cmp::Ordering::Less
        } else if self.id == other.id {
            core::cmp::Ordering::Equal
        } else {
            core::cmp::Ordering::Greater
        }
    }
}

impl PartialEq for Task {
    fn eq(&self, other: &Task) -> (r: bool) {
        self.status == other.status && self.id == other.id && self.text == other.text
    }
}

impl vstd::std_specs::cmp::PartialEqSpecImpl for Task {
    open spec fn obeys_eq_spec() -> bool {
        true
    }

    open spec fn eq_spec(&self, other: &Task) -> bool {
        self.status == other.status && self.id == other.id && self.text@ == other.text@
    }
}

impl PartialOrd for Task {
    fn partial_cmp(&self, other: &Task) -> (r: Option<core::cmp::Ordering>) {
        Some(self.compare(other))
    }
}

impl vstd::std_specs::cmp::PartialOrdSpecImpl for Task {
    open spec fn obeys_partial_cmp_spec() -> bool {
        true
    }

    open spec fn partial_cmp_spec(&self, other: &Task) -> Option<core::cmp::Ordering> {
        Some(task_cmp(self@, other@))
    }
}

} // verus!
