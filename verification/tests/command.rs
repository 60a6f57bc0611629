use todo_list::command::apply;
use todo_list::command::invoke;
use todo_list::command::mutation_of;
use todo_list::command::parse_command;
use todo_list::command::run;
use todo_list::command::usage_message;
use todo_list::command::Command;
use todo_list::command::Mutation;
use todo_list::command::EXIT_CODE;
use todo_list::task::Todo;

fn words(args: &[&str]) -> Vec<String> {
    args.iter().map(|word| word.to_string()).collect()
}

fn one(title: &str, checked: bool) -> Todo {
    Todo::new(title.to_string(), checked)
}

#[test]
fn exit_code_is_one() {
    assert_eq!(EXIT_CODE, 1);
}

#[test]
fn command_words() {
    assert_eq!(mutation_of("add"), Some(Mutation::Add));
    assert_eq!(mutation_of("check"), Some(Mutation::Check));
    assert_eq!(mutation_of("delete"), Some(Mutation::Delete));
}

#[test]
fn unknown_words_name_no_command() {
    assert_eq!(mutation_of(""), None);
    assert_eq!(mutation_of("Add"), None);
    assert_eq!(mutation_of("remove"), None);
    assert_eq!(mutation_of("add "), None);
    assert_eq!(mutation_of("list"), None);
}

#[test]
fn no_argument_lists() {
    assert_eq!(parse_command(&words(&[])), Command::List);
}

#[test]
fn command_with_title() {
    assert_eq!(parse_command(&words(&["add", "buy milk"])), Command::Mutate(Mutation::Add, "buy milk".to_string()));
    assert_eq!(parse_command(&words(&["check", "a"])), Command::Mutate(Mutation::Check, "a".to_string()));
    assert_eq!(parse_command(&words(&["delete", "a"])), Command::Mutate(Mutation::Delete, "a".to_string()));
}

#[test]
fn command_without_title() {
    assert_eq!(parse_command(&words(&["add"])), Command::Usage(Mutation::Add));
    assert_eq!(parse_command(&words(&["check"])), Command::Usage(Mutation::Check));
    assert_eq!(parse_command(&words(&["delete"])), Command::Usage(Mutation::Delete));
}

#[test]
fn further_arguments_are_not_looked_at() {
    assert_eq!(parse_command(&words(&["add", "a", "b", "c"])), Command::Mutate(Mutation::Add, "a".to_string()));
}

#[test]
fn unknown_command_is_ignored() {
    assert_eq!(parse_command(&words(&["list"])), Command::Ignored);
    assert_eq!(parse_command(&words(&["remove", "a"])), Command::Ignored);
    assert_eq!(parse_command(&words(&[""])), Command::Ignored);
}

#[test]
fn usage_messages() {
    assert_eq!(usage_message(Mutation::Add), "add command must take one argument");
    assert_eq!(usage_message(Mutation::Check), "check command must take one argument");
    assert_eq!(usage_message(Mutation::Delete), "delete command must take one argument");
}

#[test]
fn apply_each_mutation() {
    let list = vec![one("a", false), one("b", false), one("a", false)];
    assert_eq!(
        apply(Mutation::Add, &list, "a"),
        vec![one("a", false), one("b", false), one("a", false), one("a", false)]
    );
    assert_eq!(apply(Mutation::Check, &list, "a"), vec![one("a", true), one("b", false), one("a", false)]);
    assert_eq!(apply(Mutation::Delete, &list, "a"), vec![one("b", false)]);
}

#[test]
fn run_list_prints_and_writes_nothing() {
    let list = vec![one("a", true), one("b", false)];
    let outcome = run(list.clone(), Command::List);
    assert_eq!(outcome.todos, list);
    assert_eq!(outcome.output, vec!["[x] a".to_string(), "[ ] b".to_string()]);
    assert_eq!(outcome.persist, None);
    assert_eq!(outcome.exit_code, 1);
}

#[test]
fn run_mutation_prints_and_writes_the_new_list() {
    let list = vec![one("a", false), one("b", false)];
    let outcome = run(list, Command::Mutate(Mutation::Check, "b".to_string()));
    assert_eq!(outcome.todos, vec![one("a", false), one("b", true)]);
    assert_eq!(outcome.output, vec!["[ ] a".to_string(), "[x] b".to_string()]);
    assert_eq!(outcome.persist, Some("[ ] a\n[x] b".to_string()));
    assert_eq!(outcome.exit_code, 1);
}

#[test]
fn run_mutation_with_absent_target_still_writes() {
    let list = vec![one("a", false)];
    let outcome = run(list.clone(), Command::Mutate(Mutation::Delete, "z".to_string()));
    assert_eq!(outcome.todos, list);
    assert_eq!(outcome.output, vec!["[ ] a".to_string()]);
    assert_eq!(outcome.persist, Some("[ ] a".to_string()));
    assert_eq!(outcome.exit_code, 1);
}

#[test]
fn run_usage_prints_the_message_only() {
    let list = vec![one("a", false)];
    let outcome = run(list.clone(), Command::Usage(Mutation::Delete));
    assert_eq!(outcome.todos, list);
    assert_eq!(outcome.output, vec!["delete command must take one argument".to_string()]);
    assert_eq!(outcome.persist, None);
    assert_eq!(outcome.exit_code, 1);
}

#[test]
fn run_ignored_does_nothing() {
    let list = vec![one("a", false)];
    let outcome = run(list.clone(), Command::Ignored);
    assert_eq!(outcome.todos, list);
    assert_eq!(outcome.output, Vec::<String>::new());
    assert_eq!(outcome.persist, None);
    assert_eq!(outcome.exit_code, 1);
}

#[test]
fn empty_file_bootstrap() {
    let outcome = invoke(None, &words(&[]));
    assert_eq!(outcome.todos, Vec::new());
    assert_eq!(outcome.output, Vec::<String>::new());
    assert_eq!(outcome.persist, None);
    assert_eq!(outcome.exit_code, 1);
}

#[test]
fn end_to_end_scenario() {
    let added = invoke(None, &words(&["add", "buy milk"]));
    assert_eq!(added.output, vec!["[ ] buy milk".to_string()]);
    assert_eq!(added.persist, Some("[ ] buy milk".to_string()));
    assert_eq!(added.exit_code, 1);
    let file = added.persist.unwrap();

    let checked = invoke(Some(file.as_bytes()), &words(&["check", "buy milk"]));
    assert_eq!(checked.output, vec!["[x] buy milk".to_string()]);
    assert_eq!(checked.persist, Some("[x] buy milk".to_string()));
    assert_eq!(checked.exit_code, 1);
    let file = checked.persist.unwrap();

    let deleted = invoke(Some(file.as_bytes()), &words(&["delete", "buy milk"]));
    assert_eq!(deleted.output, Vec::<String>::new());
    assert_eq!(deleted.persist, Some(String::new()));
    assert_eq!(deleted.exit_code, 1);
    assert_eq!(deleted.persist.unwrap().lines().count(), 0);
}

#[test]
fn invoke_lists_what_the_file_holds() {
    let outcome = invoke(Some(b"[x] a\nbad\n[ ] b\n"), &words(&[]));
    assert_eq!(outcome.todos, vec![one("a", true), one("b", false)]);
    assert_eq!(outcome.output, vec!["[x] a".to_string(), "[ ] b".to_string()]);
    assert_eq!(outcome.persist, None);
    assert_eq!(outcome.exit_code, 1);
}

#[test]
fn invoke_missing_title_leaves_the_file() {
    let outcome = invoke(Some(b"[x] a"), &words(&["add"]));
    assert_eq!(outcome.todos, vec![one("a", true)]);
    assert_eq!(outcome.output, vec!["add command must take one argument".to_string()]);
    assert_eq!(outcome.persist, None);
    assert_eq!(outcome.exit_code, 1);
}

#[test]
fn invoke_unknown_word_does_nothing() {
    let outcome = invoke(Some(b"[x] a"), &words(&["show", "a"]));
    assert_eq!(outcome.todos, vec![one("a", true)]);
    assert_eq!(outcome.output, Vec::<String>::new());
    assert_eq!(outcome.persist, None);
    assert_eq!(outcome.exit_code, 1);
}

#[test]
fn invoke_add_to_existing_file() {
    let outcome = invoke(Some(b"[x] a\n[ ] b"), &words(&["add", "a"]));
    assert_eq!(outcome.output, vec!["[x] a".to_string(), "[ ] b".to_string(), "[ ] a".to_string()]);
    assert_eq!(outcome.persist, Some("[x] a\n[ ] b\n[ ] a".to_string()));
}
