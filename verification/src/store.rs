//! The list of tasks: its three mutations, the lines it is shown as, the
//! text it is persisted as, and the reading of that text.

use crate::task::parse_line;
use crate::task::Task;
use crate::task::Todo;
use crate::task::lemma_parse_line_of;
use crate::text::decode;
use crate::text::lemma_encode_concat;
use crate::text::lemma_encode_newline;
use crate::text::lemma_encode_without_newline;
use crate::text::lemma_split_joined;
use crate::text::lemma_split_one_line;
use crate::text::slices;
use crate::text::split;
use crate::text::split_lines;
use crate::text::str_eq;
use crate::text::text_of;
use vstd::prelude::*;
use vstd::string::StringExecFns;
use vstd::utf8::*;

verus! {

/// What a list of tasks holds, as mathematics.
pub open spec fn tasks_of(todos: Seq<Todo>) -> Seq<Task> {
    todos.map_values(|todo: Todo| todo@)
}

/// What a list of strings holds.
pub open spec fn texts_of(lines: Seq<String>) -> Seq<Seq<char>> {
    lines.map_values(|line: String| line@)
}

/// Whether one of the first `end` tasks has the given title.
pub open spec fn occurs_before(tasks: Seq<Task>, title: Seq<char>, end: int) -> bool {
    exists|j: int| 0 <= j < end && j < tasks.len() && (#[trigger] tasks[j]).title == title
}

/// Whether a task of the list has the given title.
pub open spec fn occurs(tasks: Seq<Task>, title: Seq<char>) -> bool {
    occurs_before(tasks, title, tasks.len() as int)
}

/// Whether the task at `i` is the first of the list with the given title.
pub open spec fn first_match(tasks: Seq<Task>, title: Seq<char>, i: int) -> bool {
    0 <= i < tasks.len() && tasks[i].title == title && !occurs_before(tasks, title, i)
}

/// The list with one more task at its end, not done.
pub open spec fn added(tasks: Seq<Task>, title: Seq<char>) -> Seq<Task> {
    tasks.push(Task { title, done: false })
}

/// The list with the first task of the given title marked done, every other
/// task as it was.
pub open spec fn checked(tasks: Seq<Task>, title: Seq<char>) -> Seq<Task> {
    Seq::new(
        tasks.len(),
        |i: int|
            Task { title: tasks[i].title, done: tasks[i].done || first_match(tasks, title, i) },
    )
}

/// The list without the tasks of the given title, the others in their order.
pub open spec fn deleted(tasks: Seq<Task>, title: Seq<char>) -> Seq<Task> {
    tasks.filter(|task: Task| task.title != title)
}

/// Appends a task with the given title, not done, whether or not the list
/// already has one of that title.
pub fn add(todos: &Vec<Todo>, task: &str) -> (out: Vec<Todo>)
    ensures
        tasks_of(out@) == added(tasks_of(todos@), task@),
        out.len() == todos.len() + 1,
        forall|i: int| 0 <= i < todos.len() ==> out[i] == todos[i],
{
    let mut out: Vec<Todo> = Vec::new();
    let mut i: usize = 0;
    while i < todos.len()
        invariant
            i <= todos.len(),
            out.len() == i,
            forall|k: int| 0 <= k < i ==> out[k] == todos[k],
        decreases todos.len() - i,
    {
        out.push(todos[i].clone());
        i += 1;
    }
    out.push(Todo::new(task.to_owned(), false));
    assert(tasks_of(out@) =~= added(tasks_of(todos@), task@));
    out
}

/// Marks the first task of the given title as done. A task that is done
/// stays done, and a list without such a task comes back as it was.
pub fn check(todos: &Vec<Todo>, task: &str) -> (out: Vec<Todo>)
    ensures
        tasks_of(out@) == checked(tasks_of(todos@), task@),
        out.len() == todos.len(),
{
    let ghost tasks = tasks_of(todos@);
    let mut out: Vec<Todo> = Vec::new();
    let mut found = false;
    let mut i: usize = 0;
    while i < todos.len()
        invariant
            i <= todos.len(),
            out.len() == i,
            tasks == tasks_of(todos@),
            found == occurs_before(tasks, task@, i as int),
            forall|k: int| 0 <= k < i ==> (#[trigger] out[k])@ == checked(tasks, task@)[k],
        decreases todos.len() - i,
    {
        let todo = &todos[i];
        let hit = !found && str_eq(todo.title.as_str(), task);
        assert(tasks[i as int] == todo@);
        assert(hit == first_match(tasks, task@, i as int));
        out.push(Todo::new(todo.title.clone(), todo.checked || hit));
        if hit {
            found = true;
        }
        assert(found == occurs_before(tasks, task@, i + 1)) by {
            if occurs_before(tasks, task@, i + 1) && !occurs_before(tasks, task@, i as int) {
                let j = choose|j: int|
                    0 <= j < i + 1 && j < tasks.len() && (#[trigger] tasks[j]).title == task@;
                assert(j == i);
            }
        }
        i += 1;
    }
    assert(tasks_of(out@) =~= checked(tasks, task@));
    out
}

/// Removes every task of the given title and keeps the others in their
/// order.
pub fn delete(todos: &Vec<Todo>, task: &str) -> (out: Vec<Todo>)
    ensures
        tasks_of(out@) == deleted(tasks_of(todos@), task@),
        !occurs(tasks_of(out@), task@),
{
    let ghost tasks = tasks_of(todos@);
    let mut out: Vec<Todo> = Vec::new();
    let mut i: usize = 0;
    proof {
        lemma_deleted_step(Seq::empty(), Task { title: task@, done: false }, task@);
        assert(tasks.take(0) =~= Seq::empty());
    }
    while i < todos.len()
        invariant
            i <= todos.len(),
            tasks == tasks_of(todos@),
            tasks_of(out@) == deleted(tasks.take(i as int), task@),
        decreases todos.len() - i,
    {
        let todo = &todos[i];
        proof {
            assert(tasks.take(i + 1) =~= tasks.take(i as int).push(todo@));
            lemma_deleted_step(tasks.take(i as int), todo@, task@);
        }
        if !str_eq(todo.title.as_str(), task) {
            let ghost before = out@;
            out.push(todo.clone());
            assert(tasks_of(out@) =~= tasks_of(before).push(todo@));
        }
        i += 1;
    }
    proof {
        assert(tasks.take(i as int) =~= tasks);
        lemma_deleted_is_gone(tasks, task@);
    }
    out
}

/// Deletion goes task by task: from the empty list nothing is left, and a
/// list with one more task at its end loses that task if it has the title
/// and keeps it at the end if not.
pub proof fn lemma_deleted_step(tasks: Seq<Task>, last: Task, title: Seq<char>)
    ensures
        deleted(Seq::empty(), title) == Seq::<Task>::empty(),
        deleted(tasks.push(last), title) == if last.title == title {
            deleted(tasks, title)
        } else {
            deleted(tasks, title).push(last)
        },
{
    let keep = |task: Task| task.title != title;
    assert(Seq::<Task>::empty().filter(keep) =~= Seq::<Task>::empty()) by {
        reveal(Seq::filter);
    }
    tasks.lemma_filter_push(last, keep);
}

/// After a deletion no task of the list has the deleted title.
pub proof fn lemma_deleted_is_gone(tasks: Seq<Task>, title: Seq<char>)
    ensures
        !occurs(deleted(tasks, title), title),
{
    let keep = |task: Task| task.title != title;
    let rest = deleted(tasks, title);
    assert forall|j: int| 0 <= j < rest.len() implies (#[trigger] rest[j]).title != title by {
        tasks.lemma_filter_pred(keep, j);
    }
}

/// Checking keeps the length of the list and every title, leaves each task
/// but the first match exactly as it was, and never takes a mark away: a
/// task that was done is still done.
pub proof fn lemma_check_only_checks(tasks: Seq<Task>, title: Seq<char>)
    ensures
        checked(tasks, title).len() == tasks.len(),
        forall|i: int|
            0 <= i < tasks.len() ==> (#[trigger] checked(tasks, title)[i]).title == tasks[i].title,
        forall|i: int|
            0 <= i < tasks.len() && tasks[i].done ==> (#[trigger] checked(tasks, title)[i]).done,
        forall|i: int|
            0 <= i < tasks.len() && !first_match(tasks, title, i) ==> #[trigger] checked(
                tasks,
                title,
            )[i] == tasks[i],
        forall|i: int|
            first_match(tasks, title, i) ==> (#[trigger] checked(tasks, title)[i]).done,
{
}

/// Checking a second time changes nothing.
pub proof fn lemma_check_idempotent(tasks: Seq<Task>, title: Seq<char>)
    ensures
        checked(checked(tasks, title), title) == checked(tasks, title),
{
    let once = checked(tasks, title);
    assert forall|i: int| 0 <= i < tasks.len() implies first_match(once, title, i) == first_match(
        tasks,
        title,
        i,
    ) by {
        if occurs_before(tasks, title, i) {
            let j = choose|j: int|
                0 <= j < i && j < tasks.len() && (#[trigger] tasks[j]).title == title;
            assert(once[j].title == title);
        }
        if occurs_before(once, title, i) {
            let j = choose|j: int|
                0 <= j < i && j < once.len() && (#[trigger] once[j]).title == title;
            assert(tasks[j].title == title);
        }
    }
    assert(checked(once, title) =~= once);
}

/// Where no task has the given title, checking it and deleting it both
/// leave the list as it was.
pub proof fn lemma_absent_is_noop(tasks: Seq<Task>, title: Seq<char>)
    requires
        !occurs(tasks, title),
    ensures
        checked(tasks, title) == tasks,
        deleted(tasks, title) == tasks,
    decreases tasks.len(),
{
    assert forall|i: int| 0 <= i < tasks.len() implies !first_match(tasks, title, i) by {
        assert(tasks[i].title != title);
    }
    assert(checked(tasks, title) =~= tasks);
    let keep = |task: Task| task.title != title;
    if tasks.len() == 0 {
        assert(tasks.filter(keep) =~= tasks) by {
            reveal(Seq::filter);
        }
    } else {
        let front = tasks.drop_last();
        assert forall|j: int| 0 <= j < front.len() implies (#[trigger] front[j]).title != title by {
            assert(tasks[j].title != title);
        }
        lemma_absent_is_noop(front, title);
        assert(tasks.last().title != title);
        front.lemma_filter_push(tasks.last(), keep);
        assert(front.push(tasks.last()) =~= tasks);
    }
}

/// The lines that show a list, one for each task, in the list's order.
pub open spec fn lines_of(tasks: Seq<Task>) -> Seq<Seq<char>> {
    tasks.map_values(|task: Task| task.line())
}

/// Lines made into one text: a line-ending character between each two, and
/// none after the last.
pub open spec fn joined(lines: Seq<Seq<char>>) -> Seq<char>
    decreases lines.len(),
{
    if lines.len() == 0 {
        Seq::empty()
    } else if lines.len() == 1 {
        lines[0]
    } else {
        joined(lines.drop_last()) + seq!['\n'] + lines.last()
    }
}

/// The text that is written to the file for a list.
pub open spec fn persisted(tasks: Seq<Task>) -> Seq<char> {
    joined(lines_of(tasks))
}

/// The task that the bytes of one line stand for: none where they are not
/// well-formed UTF-8, and none where the text is too short for a marker.
pub open spec fn read(line: Seq<u8>) -> Option<Task> {
    match text_of(line) {
        Some(text) => Task::parse(text),
        None => None,
    }
}

/// The tasks of those lines that stand for one, in the order of the lines.
pub open spec fn collected(lines: Seq<Seq<u8>>) -> Seq<Task>
    decreases lines.len(),
{
    if lines.len() == 0 {
        Seq::empty()
    } else {
        let before = collected(lines.drop_last());
        match read(lines.last()) {
            Some(task) => before.push(task),
            None => before,
        }
    }
}

/// The list that a file's bytes stand for.
pub open spec fn loaded(bytes: Seq<u8>) -> Seq<Task> {
    collected(split(bytes))
}

/// Gives the lines to print for a list: each task as `[x] title` or
/// `[ ] title`, in the list's order.
pub fn show_todos(todos: &Vec<Todo>) -> (lines: Vec<String>)
    ensures
        texts_of(lines@) == lines_of(tasks_of(todos@)),
{
    let mut lines: Vec<String> = Vec::new();
    let mut i: usize = 0;
    while i < todos.len()
        invariant
            i <= todos.len(),
            lines.len() == i,
            forall|k: int| 0 <= k < i ==> (#[trigger] lines[k])@ == todos[k]@.line(),
        decreases todos.len() - i,
    {
        lines.push(todos[i].to_string());
        i += 1;
    }
    assert(texts_of(lines@) =~= lines_of(tasks_of(todos@)));
    lines
}

/// Gives the text to write to the file for a list: the tasks' lines joined
/// by single line-ending characters, with none after the last.
pub fn serialize(todos: &Vec<Todo>) -> (text: String)
    ensures
        text@ == persisted(tasks_of(todos@)),
{
    let ghost lines = lines_of(tasks_of(todos@));
    let mut text = String::new();
    let mut i: usize = 0;
    assert(lines.take(0) =~= Seq::empty());
    while i < todos.len()
        invariant
            i <= todos.len(),
            lines == lines_of(tasks_of(todos@)),
            text@ == joined(lines.take(i as int)),
        decreases todos.len() - i,
    {
        let line = todos[i].to_string();
        proof {
            reveal_strlit("\n");
            assert("\n"@ =~= seq!['\n']);
            assert(lines.take(i + 1).drop_last() =~= lines.take(i as int));
            assert(lines.take(i + 1).last() == line@);
            if i == 0 {
                assert(text@ + line@ =~= line@);
            }
        }
        if i > 0 {
            text.append("\n");
        }
        text.append(line.as_str());
        i += 1;
    }
    assert(lines.take(i as int) =~= lines);
    text
}

/// Reads the bytes of one line as a task. Bytes that are not well-formed
/// UTF-8, and text too short to hold a marker, give nothing.
pub fn read_line(line: &[u8]) -> (todo: Option<Todo>)
    ensures
        match todo {
            Some(t) => read(line@) == Some(t@),
            None => read(line@) is None,
        },
{
    match decode(line) {
        Some(text) => parse_line(text),
        None => None,
    }
}

/// Reads a file's bytes as a list: the file is cut at its line-ending
/// bytes, each line that stands for a task gives that task, and every other
/// line is passed over.
pub fn load(bytes: &[u8]) -> (todos: Vec<Todo>)
    ensures
        tasks_of(todos@) == loaded(bytes@),
{
    let lines = split_lines(bytes);
    let ghost all = slices(lines@);
    let mut todos: Vec<Todo> = Vec::new();
    let mut i: usize = 0;
    assert(all.take(0) =~= Seq::empty());
    while i < lines.len()
        invariant
            i <= lines.len(),
            all == slices(lines@),
            tasks_of(todos@) == collected(all.take(i as int)),
        decreases lines.len() - i,
    {
        proof {
            assert(all.take(i + 1).drop_last() =~= all.take(i as int));
            assert(all.take(i + 1).last() == lines[i as int]@);
        }
        match read_line(lines[i]) {
            Some(todo) => {
                let ghost before = todos@;
                todos.push(todo);
                assert(tasks_of(todos@) =~= tasks_of(before).push(todo@));
            },
            None => {},
        }
        i += 1;
    }
    assert(all.take(i as int) =~= all);
    todos
}

/// The bytes written for one task whose title holds no line-ending
/// character are a single line, and that line reads back as the task.
pub proof fn lemma_line_reads_back(task: Task)
    requires
        !task.title.contains('\n'),
    ensures
        split(encode_utf8(task.line())) == seq![encode_utf8(task.line())],
        read(encode_utf8(task.line())) == Some(task),
{
    let line = task.line();
    assert forall|j: int| 0 <= j < line.len() implies line[j] != '\n' by {
        if j >= 4 {
            assert(task.title.contains(task.title[j - 4]));
        }
    }
    lemma_encode_without_newline(line);
    lemma_split_one_line(encode_utf8(line));
    encode_utf8_valid_utf8(line);
    encode_utf8_decode_utf8(line);
    lemma_parse_line_of(task);
}

/// Whether no title of the list holds a line-ending character.
pub open spec fn newline_free(tasks: Seq<Task>) -> bool {
    forall|i: int| 0 <= i < tasks.len() ==> !(#[trigger] tasks[i]).title.contains('\n')
}

/// Writing a list and reading what was written gives the list back, task by
/// task and in the same order, provided that no title holds a line-ending
/// character.
pub proof fn lemma_round_trip(tasks: Seq<Task>)
    requires
        newline_free(tasks),
    ensures
        loaded(encode_utf8(persisted(tasks))) == tasks,
    decreases tasks.len(),
{
    let lines = lines_of(tasks);
    if tasks.len() == 0 {
        let none = Seq::<u8>::empty();
        assert(encode_utf8(persisted(tasks)) =~= none);
        assert(split(none) =~= seq![none]);
        assert(decode_utf8(none).len() == 0);
        assert(read(none) is None);
        assert(seq![none].drop_last() =~= Seq::<Seq<u8>>::empty());
        assert(collected(seq![none].drop_last()) =~= Seq::<Task>::empty());
        assert(collected(seq![none]) =~= tasks);
    } else {
        let last = tasks.last();
        let bytes = encode_utf8(last.line());
        lemma_line_reads_back(last);
        if tasks.len() == 1 {
            assert(persisted(tasks) == last.line());
            assert(seq![bytes].drop_last() =~= Seq::<Seq<u8>>::empty());
            assert(collected(seq![bytes].drop_last()) =~= Seq::<Task>::empty());
            assert(collected(seq![bytes]) =~= tasks);
        } else {
            let front = tasks.drop_last();
            lemma_round_trip(front);
            assert(lines.drop_last() =~= lines_of(front));
            let head = persisted(front);
            assert(persisted(tasks) == head + seq!['\n'] + last.line());
            lemma_encode_concat(head + seq!['\n'], last.line());
            lemma_encode_concat(head, seq!['\n']);
            lemma_encode_newline();
            lemma_split_joined(encode_utf8(head), bytes);
            let cut = split(encode_utf8(head)) + seq![bytes];
            assert(cut.drop_last() =~= split(encode_utf8(head)));
            assert(collected(cut) =~= tasks);
        }
    }
}

/// A mutation keeps a list free of line-ending characters, provided that
/// the title it adds holds none.
pub proof fn lemma_mutations_keep_newline_free(tasks: Seq<Task>, title: Seq<char>)
    requires
        newline_free(tasks),
    ensures
        !title.contains('\n') ==> newline_free(added(tasks, title)),
        newline_free(checked(tasks, title)),
        newline_free(deleted(tasks, title)),
    decreases tasks.len(),
{
    assert forall|i: int| 0 <= i < tasks.len() implies !(#[trigger] checked(
        tasks,
        title,
    )[i]).title.contains('\n') by {
        assert(checked(tasks, title)[i].title == tasks[i].title);
    }
    if tasks.len() == 0 {
        lemma_deleted_step(tasks, Task { title, done: false }, title);
    } else {
        let front = tasks.drop_last();
        assert forall|i: int| 0 <= i < front.len() implies !(#[trigger] front[i]).title.contains(
            '\n',
        ) by {
            assert(front[i] == tasks[i]);
        }
        lemma_mutations_keep_newline_free(front, title);
        lemma_deleted_step(front, tasks.last(), title);
        assert(front.push(tasks.last()) =~= tasks);
    }
}

} // verus!
