//! A single task and the line that stands for it in the file.

use vstd::prelude::*;
use vstd::string::StrSliceExecFns;
use vstd::string::StringExecFns;

verus! {

/// What a task is, as mathematics: its title and whether it is done.
pub struct Task {
    pub title: Seq<char>,
    pub done: bool,
}

impl Task {
    /// The four characters that open a task's line: the bracketed mark,
    /// `x` for a task that is done and a blank for one that is not, and the
    /// blank that parts the mark from the title.
    pub open spec fn marker(done: bool) -> Seq<char> {
        seq!['[', if done { 'x' } else { ' ' }, ']', ' ']
    }

    /// The line that stands for the task: the marker, then the title,
    /// character for character.
    pub open spec fn line(self) -> Seq<char> {
        Task::marker(self.done) + self.title
    }

    /// The task that a line stands for. The first three characters are the
    /// mark, which says done only where it reads `[x]`; the fourth parts the
    /// mark from the title; the title is all that follows. A line of fewer
    /// than four characters stands for no task.
    pub open spec fn parse(line: Seq<char>) -> Option<Task> {
        if line.len() >= 4 {
            Some(Task { title: line.skip(4), done: line.take(3) == seq!['[', 'x', ']'] })
        } else {
            None
        }
    }
}

/// A task of the list: a title and a completion mark.
#[derive(Debug, PartialEq, Eq)]
pub struct Todo {
    pub title: String,
    pub checked: bool,
}

impl View for Todo {
    type V = Task;

    open spec fn view(&self) -> Task {
        Task { title: self.title@, done: self.checked }
    }
}

impl Clone for Todo {
    fn clone(&self) -> (copy: Todo)
        ensures
            copy == *self,
    {
        Todo { title: self.title.clone(), checked: self.checked }
    }
}

impl Todo {
    /// Makes a task with the given title and completion mark.
    pub fn new(title: String, checked: bool) -> (todo: Todo)
        ensures
            todo.title == title,
            todo.checked == checked,
            todo@ == (Task { title: title@, done: checked }),
    {
        Todo { title, checked }
    }

    /// Writes the task as its line, `[x] ` or `[ ] ` and then the title.
    pub fn to_string(&self) -> (line: String)
        ensures
            line@ == self@.line(),
    {
        let mut line = if self.checked {
            "[x] ".to_owned()
        } else {
            "[ ] ".to_owned()
        };
        proof {
            reveal_strlit("[x] ");
            reveal_strlit("[ ] ");
            assert(line@ =~= Task::marker(self.checked));
        }
        line.append(self.title.as_str());
        line
    }
}

/// Reads one line as a task, or as nothing where the line is too short to
/// hold a marker.
pub fn parse_line(line: &str) -> (todo: Option<Todo>)
    ensures
        match todo {
            Some(t) => Task::parse(line@) == Some(t@),
            None => Task::parse(line@) is None,
        },
{
    let n = line.unicode_len();
    if n < 4 {
        return None;
    }
    let checked = line.get_char(0) == '[' && line.get_char(1) == 'x' && line.get_char(2) == ']';
    let title = line.substring_char(4, n).to_owned();
    proof {
        assert(line@.subrange(4, n as int) =~= line@.skip(4));
        assert(checked == (line@.take(3) =~= seq!['[', 'x', ']']));
    }
    Some(Todo { title, checked })
}

/// A line that was written for a task reads back as that task.
pub proof fn lemma_parse_line_of(task: Task)
    ensures
        Task::parse(task.line()) == Some(task),
{
    let line = task.line();
    assert(line.skip(4) =~= task.title);
    assert(line.take(3) =~= seq!['[', if task.done { 'x' } else { ' ' }, ']']);
    if task.done {
        assert(line.take(3) == seq!['[', 'x', ']']);
    } else {
        assert(line.take(3)[1] == ' ');
        assert(seq!['[', 'x', ']'][1] == 'x');
    }
}

} // verus!
