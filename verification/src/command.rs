//! One invocation of the tool: what the arguments ask for, and what is
//! printed, written and returned in answer.

use crate::store::added;
use crate::store::check;
use crate::store::checked;
use crate::store::delete;
use crate::store::deleted;
use crate::store::lemma_mutations_keep_newline_free;
use crate::store::lemma_round_trip;
use crate::store::lines_of;
use crate::store::load;
use crate::store::loaded;
use crate::store::newline_free;
use crate::store::persisted;
use crate::store::serialize;
use crate::store::show_todos;
use crate::store::tasks_of;
use crate::store::texts_of;
use crate::task::Task;
use crate::task::Todo;
use crate::text::str_eq;
use vstd::prelude::*;
use vstd::utf8::encode_utf8;

verus! {

/// The status that every invocation ends with, whatever it did.
pub const EXIT_CODE: i32 = 1;

/// One of the three commands that change the list.
#[derive(Clone, Copy, Debug, PartialEq, Eq)]
pub enum Mutation {
    Add,
    Check,
    Delete,
}

/// What an invocation asks for, as mathematics.
pub enum Request {
    /// No argument: show the list.
    List,
    /// A mutation and the title it is to work on.
    Mutate(Mutation, Seq<char>),
    /// A mutation named without a title.
    Usage(Mutation),
    /// A word that names no command.
    Ignored,
}

/// What an invocation asks for.
#[derive(Debug, PartialEq, Eq)]
pub enum Command {
    /// No argument: show the list.
    List,
    /// A mutation and the title it is to work on.
    Mutate(Mutation, String),
    /// A mutation named without a title.
    Usage(Mutation),
    /// A word that names no command.
    Ignored,
}

impl View for Command {
    type V = Request;

    open spec fn view(&self) -> Request {
        match *self {
            Command::List => Request::List,
            Command::Mutate(mutation, title) => Request::Mutate(mutation, title@),
            Command::Usage(mutation) => Request::Usage(mutation),
            Command::Ignored => Request::Ignored,
        }
    }
}

/// What an invocation does, as mathematics.
pub struct Effect {
    /// The list as the invocation leaves it.
    pub tasks: Seq<Task>,
    /// The lines printed, in order.
    pub output: Seq<Seq<char>>,
    /// The text written over the file, where the file is written.
    pub persist: Option<Seq<char>>,
    /// The status the process ends with.
    pub exit_code: int,
}

/// What an invocation does: the caller prints `output` line by line, writes
/// `persist` over the file where there is one, and exits with `exit_code`.
#[derive(Debug, PartialEq, Eq)]
pub struct Outcome {
    /// The list as the invocation leaves it.
    pub todos: Vec<Todo>,
    /// The lines to print, in order.
    pub output: Vec<String>,
    /// The text to write over the file, where the file is to be written.
    pub persist: Option<String>,
    /// The status to end the process with.
    pub exit_code: i32,
}

impl View for Outcome {
    type V = Effect;

    open spec fn view(&self) -> Effect {
        Effect {
            tasks: tasks_of(self.todos@),
            output: texts_of(self.output@),
            persist: match self.persist {
                Some(text) => Some(text@),
                None => None,
            },
            exit_code: self.exit_code as int,
        }
    }
}

/// The mutation that a command word names. The words are tried in the
/// order `check`, `add`, `delete`.
pub open spec fn mutation_named(word: Seq<char>) -> Option<Mutation> {
    if word == "check"@ {
        Some(Mutation::Check)
    } else if word == "add"@ {
        Some(Mutation::Add)
    } else if word == "delete"@ {
        Some(Mutation::Delete)
    } else {
        None
    }
}

/// What the arguments that follow the program's name ask for. Without any,
/// the list is shown. Otherwise the first is the command word and the second
/// the title; further arguments are not looked at.
pub open spec fn requested(args: Seq<Seq<char>>) -> Request {
    if args.len() == 0 {
        Request::List
    } else {
        match mutation_named(args[0]) {
            Some(mutation) => if args.len() >= 2 {
                Request::Mutate(mutation, args[1])
            } else {
                Request::Usage(mutation)
            },
            None => Request::Ignored,
        }
    }
}

/// The list after a mutation.
pub open spec fn applied(mutation: Mutation, tasks: Seq<Task>, title: Seq<char>) -> Seq<Task> {
    match mutation {
        Mutation::Add => added(tasks, title),
        Mutation::Check => checked(tasks, title),
        Mutation::Delete => deleted(tasks, title),
    }
}

/// The message printed where a mutation is named without a title.
pub open spec fn usage(mutation: Mutation) -> Seq<char> {
    match mutation {
        Mutation::Add => "add command must take one argument"@,
        Mutation::Check => "check command must take one argument"@,
        Mutation::Delete => "delete command must take one argument"@,
    }
}

/// What a request does to a list. Listing prints the list and writes
/// nothing. A mutation prints the list as it has become and writes exactly
/// that list. A mutation without a title prints its message and nothing
/// else happens, and an unknown word does nothing at all. Every request ends
/// with the same status.
pub open spec fn effect(tasks: Seq<Task>, request: Request) -> Effect {
    match request {
        Request::List => Effect {
            tasks,
            output: lines_of(tasks),
            persist: None,
            exit_code: EXIT_CODE as int,
        },
        Request::Mutate(mutation, title) => {
            let after = applied(mutation, tasks, title);
            Effect {
                tasks: after,
                output: lines_of(after),
                persist: Some(persisted(after)),
                exit_code: EXIT_CODE as int,
            }
        },
        Request::Usage(mutation) => Effect {
            tasks,
            output: seq![usage(mutation)],
            persist: None,
            exit_code: EXIT_CODE as int,
        },
        Request::Ignored => Effect {
            tasks,
            output: Seq::empty(),
            persist: None,
            exit_code: EXIT_CODE as int,
        },
    }
}

/// The list that an invocation starts from: what the file holds, or the
/// empty list where there is no file to read.
pub open spec fn opened(file: Option<Seq<u8>>) -> Seq<Task> {
    match file {
        Some(bytes) => loaded(bytes),
        None => Seq::empty(),
    }
}

/// Tells which mutation a command word names, if any.
pub fn mutation_of(word: &str) -> (mutation: Option<Mutation>)
    ensures
        mutation == mutation_named(word@),
{
    if str_eq(word, "check") {
        Some(Mutation::Check)
    } else if str_eq(word, "add") {
        Some(Mutation::Add)
    } else if str_eq(word, "delete") {
        Some(Mutation::Delete)
    } else {
        None
    }
}

/// Reads the arguments that follow the program's name.
pub fn parse_command(args: &Vec<String>) -> (command: Command)
    ensures
        command@ == requested(texts_of(args@)),
{
    if args.len() == 0 {
        return Command::List;
    }
    match mutation_of(args[0].as_str()) {
        Some(mutation) => {
            if args.len() >= 2 {
                Command::Mutate(mutation, args[1].clone())
            } else {
                Command::Usage(mutation)
            }
        },
        None => Command::Ignored,
    }
}

/// Gives the message for a mutation that was named without a title.
pub fn usage_message(mutation: Mutation) -> (message: String)
    ensures
        message@ == usage(mutation),
{
    match mutation {
        Mutation::Add => "add command must take one argument".to_owned(),
        Mutation::Check => "check command must take one argument".to_owned(),
        Mutation::Delete => "delete command must take one argument".to_owned(),
    }
}

/// Applies one mutation to a list.
pub fn apply(mutation: Mutation, todos: &Vec<Todo>, task: &str) -> (out: Vec<Todo>)
    ensures
        tasks_of(out@) == applied(mutation, tasks_of(todos@), task@),
{
    match mutation {
        Mutation::Add => crate::store::add(todos, task),
        Mutation::Check => check(todos, task),
        Mutation::Delete => delete(todos, task),
    }
}

/// Carries out a command on a list and says what is to be printed and
/// written.
pub fn run(todos: Vec<Todo>, command: Command) -> (outcome: Outcome)
    ensures
        outcome@ == effect(tasks_of(todos@), command@),
{
    match command {
        Command::List => {
            let output = show_todos(&todos);
            Outcome { todos, output, persist: None, exit_code: EXIT_CODE }
        },
        Command::Mutate(mutation, title) => {
            let after = apply(mutation, &todos, title.as_str());
            let output = show_todos(&after);
            let text = serialize(&after);
            Outcome { todos: after, output, persist: Some(text), exit_code: EXIT_CODE }
        },
        Command::Usage(mutation) => {
            let mut output: Vec<String> = Vec::new();
            output.push(usage_message(mutation));
            assert(texts_of(output@) =~= seq![usage(mutation)]);
            Outcome { todos, output, persist: None, exit_code: EXIT_CODE }
        },
        Command::Ignored => {
            let output: Vec<String> = Vec::new();
            assert(texts_of(output@) =~= Seq::empty());
            Outcome { todos, output, persist: None, exit_code: EXIT_CODE }
        },
    }
}

/// One whole invocation, from what the file held and what the arguments
/// were to what is printed and written. `file` is the content of the file,
/// or nothing where it could not be read; `args` are the arguments that
/// follow the program's name.
pub fn invoke(file: Option<&[u8]>, args: &Vec<String>) -> (outcome: Outcome)
    ensures
        outcome@ == effect(
            opened(
                match file {
                    Some(bytes) => Some(bytes@),
                    None => None,
                },
            ),
            requested(texts_of(args@)),
        ),
{
    let todos = match file {
        Some(bytes) => load(bytes),
        None => Vec::new(),
    };
    assert(file is None ==> tasks_of(todos@) =~= Seq::<Task>::empty());
    run(todos, parse_command(args))
}

/// Every invocation ends with the same status. The file is written exactly
/// when a mutation ran, and then with the very list that is printed; in
/// every other case the list is left as it was.
pub proof fn lemma_effect_is_whole(tasks: Seq<Task>, request: Request)
    ensures
        effect(tasks, request).exit_code == EXIT_CODE,
        effect(tasks, request).persist is Some <==> request is Mutate,
        effect(tasks, request).persist matches Some(text) ==> text == persisted(
            effect(tasks, request).tasks,
        ) && effect(tasks, request).output == lines_of(effect(tasks, request).tasks),
        !(request is Mutate) ==> effect(tasks, request).tasks == tasks,
{
}

/// What a mutation writes is what the next invocation starts from: the
/// bytes of the written text read back as the list that was printed,
/// provided that no title, old or new, holds a line-ending character.
pub proof fn lemma_written_list_is_opened(tasks: Seq<Task>, mutation: Mutation, title: Seq<char>)
    requires
        newline_free(tasks),
        !title.contains('\n'),
    ensures
        effect(tasks, Request::Mutate(mutation, title)).persist matches Some(text) && opened(
            Some(encode_utf8(text)),
        ) == effect(tasks, Request::Mutate(mutation, title)).tasks,
{
    lemma_mutations_keep_newline_free(tasks, title);
    lemma_round_trip(applied(mutation, tasks, title));
}

} // verus!
