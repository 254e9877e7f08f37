//! The display form of tasks: an id column, a separator, a status glyph, the text.

use vstd::prelude::*;
use crate::number::{dec, lemma_dec, token_len, first_token, parse_usize, push_decimal};
use crate::task::{Status, Task, TaskModel};
use crate::tasks::Tasks;
use crate::text::{is_ws, trim_start, push_char, push_str};

verus! {

/// `k` spaces.
pub open spec fn spaces(k: nat) -> Seq<char> {
    Seq::new(k, |i: int| ' ')
}

/// The id right-aligned in a column of five characters (wider ids overflow it).
pub open spec fn id_column(id: usize) -> Seq<char> {
    let d = dec(id as nat);
    if d.len() < 5 {
        spaces((5 - d.len()) as nat) + d
    } else {
        d
    }
}

/// The display row of a task, given the glyphs for todo and done.
pub open spec fn row_of(t: TaskModel, todo: Seq<char>, done: Seq<char>) -> Seq<char> {
    id_column(t.id) + seq![' ', '|', ' '] + match t.status {
        Status::Todo => todo + seq![' '] + t.text,
        Status::Done => done + seq![' '] + t.text,
        Status::Other => t.text,
    }
}

/// The display rows of a sequence of tasks, each ended by a newline.
pub open spec fn rows_of(s: Seq<TaskModel>, todo: Seq<char>, done: Seq<char>) -> Seq<char>
    decreases s.len(),
{
    if s.len() == 0 {
        Seq::empty()
    } else {
        rows_of(s.drop_last(), todo, done) + row_of(s.last(), todo, done) + seq!['\n']
    }
}

/// The escape sequence that selects the foreground color with the given
/// two-digit code.
pub open spec fn color_start(tens: char, ones: char) -> Seq<char> {
    seq!['\u{1b}', '[', tens, ones, 'm']
}

/// The escape sequence that ends any coloring.
pub open spec fn color_reset() -> Seq<char> {
    seq!['\u{1b}', '[', '0', 'm']
}

/// `s` holds no escape character.
pub open spec fn no_escape(s: Seq<char>) -> bool {
    forall|i: int| 0 <= i < s.len() ==> s[i] != '\u{1b}'
}

/// Proof that colors have been forced on for this process; only
/// `force_colors` makes one.
pub struct ColorsForced {
    forced: bool,
}

/// Relies on `colored::control::set_override(true)`: later colorings emit their
/// escape codes whatever the terminal and environment say.
#[verifier::external_body]
fn force_colors() -> (r: ColorsForced) {
    colored::control::set_override(true);
    ColorsForced { forced: true }
}

/// Relies on `colored::Colorize::red` and `ColoredString`'s `Display`: with
/// colors forced, a text without escapes comes back as `ESC[31m`, the text,
/// `ESC[0m`.
#[verifier::external_body]
fn red(on: &ColorsForced, s: &str) -> (r: String)
    ensures
        no_escape(s@) ==> r@ == color_start('3', '1') + s@ + color_reset(),
{
    colored::Colorize::red(s).to_string()
}

/// Relies on `colored::Colorize::green` and `ColoredString`'s `Display`: with
/// colors forced, a text without escapes comes back as `ESC[32m`, the text,
/// `ESC[0m`.
#[verifier::external_body]
fn green(on: &ColorsForced, s: &str) -> (r: String)
    ensures
        no_escape(s@) ==> r@ == color_start('3', '2') + s@ + color_reset(),
{
    colored::Colorize::green(s).to_string()
}

/// Relies on `colored::Colorize::yellow` and `ColoredString`'s `Display`: with
/// colors forced, a text without escapes comes back as `ESC[33m`, the text,
/// `ESC[0m`.
#[verifier::external_body]
fn yellow(on: &ColorsForced, s: &str) -> (r: String)
    ensures
        no_escape(s@) ==> r@ == color_start('3', '3') + s@ + color_reset(),
{
    colored::Colorize::yellow(s).to_string()
}

/// The marks shown for each status, in rows and in the status menu.
pub struct Glyphs {
    /// Marks a todo task in a row.
    pub todo: String,
    /// Marks a done task in a row, and the done entry of the menu.
    pub done: String,
    /// Marks the todo entry of the menu.
    pub menu_todo: String,
    /// Marks the other entry of the menu.
    pub menu_other: String,
}

impl Glyphs {
    /// Marks without color: a cross, a check, `x` and `~`.
    pub fn plain() -> (r: Glyphs)
        ensures
            r.todo@ == seq!['\u{2715}'],
            r.done@ == seq!['\u{2713}'],
            r.menu_todo@ == seq!['x'],
            r.menu_other@ == seq!['~'],
    {
        let mut todo = String::new();
        push_char(&mut todo, '\u{2715}');
        let mut done = String::new();
        push_char(&mut done, '\u{2713}');
        let mut menu_todo = String::new();
        push_char(&mut menu_todo, 'x');
        let mut menu_other = String::new();
        push_char(&mut menu_other, '~');
        assert(todo@ =~= seq!['\u{2715}']);
        assert(done@ =~= seq!['\u{2713}']);
        assert(menu_todo@ =~= seq!['x']);
        assert(menu_other@ =~= seq!['~']);
        Glyphs { todo, done, menu_todo, menu_other }
    }

    /// The same marks in color, whatever the terminal: red for todo, green for
    /// done, yellow for other.
    pub fn colored() -> (r: Glyphs)
        ensures
            r.todo@ == color_start('3', '1') + seq!['\u{2715}'] + color_reset(),
            r.done@ == color_start('3', '2') + seq!['\u{2713}'] + color_reset(),
            r.menu_todo@ == color_start('3', '1') + seq!['x'] + color_reset(),
            r.menu_other@ == color_start('3', '3') + seq!['~'] + color_reset(),
    {
        let p = Glyphs::plain();
        let on = force_colors();
        Glyphs {
            todo: red(&on, p.todo.as_str()),
            done: green(&on, p.done.as_str()),
            menu_todo: red(&on, p.menu_todo.as_str()),
            menu_other: yellow(&on, p.menu_other.as_str()),
        }
    }

    /// The status menu: one line each for done, todo and other.
    pub fn status_menu(&self) -> (r: String)
        ensures
            r@ == self.done@ + seq![' ', 'd', 'o', 'n', 'e', '\n'] + self.menu_todo@ + seq![
                ' ',
                't',
                'o',
                'd',
                'o',
                '\n',
            ] + self.menu_other@ + seq![' ', 'o', 't', 'h', 'e', 'r', '\n'],
    {
        let mut r = String::new();
        push_str(&mut r, self.done.as_str());
        push_char(&mut r, ' ');
        push_char(&mut r, 'd');
        push_char(&mut r, 'o');
        push_char(&mut r, 'n');
        push_char(&mut r, 'e');
        push_char(&mut r, '\n');
        push_str(&mut r, self.menu_todo.as_str());
        push_char(&mut r, ' ');
        push_char(&mut r, 't');
        push_char(&mut r, 'o');
        push_char(&mut r, 'd');
        push_char(&mut r, 'o');
        push_char(&mut r, '\n');
        push_str(&mut r, self.menu_other.as_str());
        push_char(&mut r, ' ');
        push_char(&mut r, 'o');
        push_char(&mut r, 't');
        push_char(&mut r, 'h');
        push_char(&mut r, 'e');
        push_char(&mut r, 'r');
        push_char(&mut r, '\n');
        assert(r@ =~= self.done@ + seq![' ', 'd', 'o', 'n', 'e', '\n'] + self.menu_todo@ + seq![
            ' ',
            't',
            'o',
            'd',
            'o',
            '\n',
        ] + self.menu_other@ + seq![' ', 'o', 't', 'h', 'e', 'r', '\n']);
        r
    }
}

/// Appends the display row of a task.
pub fn push_row(out: &mut String, t: &Task, g: &Glyphs)
    ensures
        final(out)@ == old(out)@ + row_of(t@, g.todo@, g.done@),
{
    let mut d = String::new();
    push_decimal(&mut d, t.id);
    let n = d.as_str().unicode_len();
    if n < 5 {
        let mut k: usize = 0;
        while k < 5 - n
            invariant
                n < 5,
                k <= 5 - n,
                out@ == old(out)@ + spaces(k as nat),
            decreases 5 - n - k,
        {
            push_char(out, ' ');
            k = k + 1;
            assert(out@ =~= old(out)@ + spaces(k as nat));
        }
    }
    let ghost pre = out@;
    push_str(out, d.as_str());
    push_char(out, ' ');
    push_char(out, '|');
    push_char(out, ' ');
    let ghost mid = out@;
    assert(mid =~= old(out)@ + id_column(t.id) + seq![' ', '|', ' ']);
    match t.status {
        Status::Todo => {
            push_str(out, g.todo.as_str());
            push_char(out, ' ');
            push_str(out, t.text.as_str());
            assert(out@ =~= mid + (g.todo@ + seq![' '] + t.text@));
        },
        Status::Done => {
            push_str(out, g.done.as_str());
            push_char(out, ' ');
            push_str(out, t.text.as_str());
            assert(out@ =~= mid + (g.done@ + seq![' '] + t.text@));
        },
        Status::Other => {
            push_str(out, t.text.as_str());
        },
    }
    assert(out@ =~= old(out)@ + row_of(t@, g.todo@, g.done@));
}

impl Task {
    /// The display row of the task.
    pub fn render(&self, g: &Glyphs) -> (r: String)
        ensures
            r@ == row_of(self@, g.todo@, g.done@),
    {
        let mut r = String::new();
        push_row(&mut r, self, g);
        assert(r@ =~= row_of(self@, g.todo@, g.done@));
        r
    }
}

impl Tasks {
    /// The display form of the collection: one row per task, each ended by a
    /// newline.
    pub fn render(&self, g: &Glyphs) -> (r: String)
        ensures
            r@ == rows_of(self@, g.todo@, g.done@),
    {
        let mut out = String::new();
        let mut i: usize = 0;
        assert(self@.take(0) =~= Seq::<TaskModel>::empty());
        while i < self.0.len()
            invariant
                i <= self@.len(),
                out@ == rows_of(self@.take(i as int), g.todo@, g.done@),
            decreases self@.len() - i,
        {
            let ghost prefix = self@.take(i as int);
            assert(self@.take(i + 1).drop_last() =~= prefix);
            push_row(&mut out, &self.0[i], g);
            push_char(&mut out, '\n');
            i = i + 1;
            assert(out@ =~= rows_of(self@.take(i as int), g.todo@, g.done@));
        }
        assert(self@.take(i as int) =~= self@);
        out
    }
}

proof fn lemma_trim_start_spaces(k: nat, x: Seq<char>)
    ensures
        trim_start(spaces(k) + x) == trim_start(x),
    decreases k,
{
    if k > 0 {
        assert((spaces(k) + x).drop_first() =~= spaces((k - 1) as nat) + x);
        lemma_trim_start_spaces((k - 1) as nat, x);
    } else {
        assert(spaces(k) + x =~= x);
    }
}

proof fn lemma_token_len_concat(a: Seq<char>, b: Seq<char>)
    requires
        forall|i: int| 0 <= i < a.len() ==> !is_ws(#[trigger] a[i]),
        b.len() > 0 && is_ws(b[0]),
    ensures
        token_len(a + b) == a.len(),
    decreases a.len(),
{
    if a.len() > 0 {
        assert((a + b).drop_first() =~= a.drop_first() + b);
        assert forall|i: int| 0 <= i < a.drop_first().len() implies !is_ws(
            #[trigger] a.drop_first()[i],
        ) by {
            assert(a.drop_first()[i] == a[i + 1]);
        }
        lemma_token_len_concat(a.drop_first(), b);
    } else {
        assert(a + b =~= b);
    }
}

/// The id at the head of a task's display row reads back as that task's id,
/// whatever the glyphs and the text.
pub proof fn lemma_row_id(t: TaskModel, todo: Seq<char>, done: Seq<char>)
    ensures
        parse_usize(first_token(row_of(t, todo, done))) == Some(t.id),
{
    let d = dec(t.id as nat);
    lemma_dec(t.id as nat);
    let rest = seq![' ', '|', ' '] + match t.status {
        Status::Todo => todo + seq![' '] + t.text,
        Status::Done => done + seq![' '] + t.text,
        Status::Other => t.text,
    };
    let row = row_of(t, todo, done);
    if d.len() < 5 {
        assert(row =~= spaces((5 - d.len()) as nat) + (d + rest));
        lemma_trim_start_spaces((5 - d.len()) as nat, d + rest);
    } else {
        assert(row =~= d + rest);
    }
    assert((d + rest)[0] == d[0]);
    assert(trim_start(d + rest) == d + rest);
    lemma_token_len_concat(d, rest);
    assert((d + rest).subrange(0, d.len() as int) =~= d);
}

} // verus!
