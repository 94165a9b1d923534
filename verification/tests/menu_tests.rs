use std::cell::RefCell;
use std::rc::Rc;

use cli_menu::stream::{LineSource, OutputSink};
use cli_menu::{CliOption, Dispatch, Menu, MenuType};

type Action = Box<dyn Fn()>;
type Log = Rc<RefCell<Vec<&'static str>>>;

fn noop() {}

fn demo_menu(log: &Log) -> Menu<Action> {
    let base = Menu {
        name: "Main Menu".to_string(),
        options: Vec::new(),
        menu_type: MenuType::Main,
    };
    let hi = Rc::clone(log);
    let bye = Rc::clone(log);
    base.with_options(vec![
        ("Say hi", Box::new(move || hi.borrow_mut().push("hi")) as Action),
        ("Say bye", Box::new(move || bye.borrow_mut().push("bye")) as Action),
    ])
}

const DEMO_PROMPT: &str = "\t1) Say hi\n\t2) Say bye\n\t3) Quit";

#[test]
fn option_new_keeps_label_and_action() {
    let option = CliOption::new(("Say hi", noop as fn()));
    assert_eq!(option.text, "Say hi");
}

#[test]
fn bye_msg_matches_kind() {
    assert_eq!(MenuType::Main.bye_msg(), "Quit");
    assert_eq!(MenuType::Sub.bye_msg(), "Back");
}

#[test]
fn default_menu_is_named_empty_and_nested() {
    let menu: Menu<fn()> = Default::default();
    assert_eq!(menu.name, "Main Menu");
    assert_eq!(menu.options.len(), 0);
    assert!(menu.menu_type == MenuType::Sub);
}

#[test]
fn prompt_numbers_every_option_and_ends_with_exit_label() {
    let log = Log::default();
    let menu = demo_menu(&log);
    let prompt = menu.build_prompt();
    assert_eq!(prompt, DEMO_PROMPT);
    let lines: Vec<&str> = prompt.split('\n').collect();
    assert_eq!(lines.len(), menu.options.len() + 1);
    assert_eq!(lines[lines.len() - 1], "\t3) Quit");
}

#[test]
fn prompt_of_an_empty_menu_is_the_exit_entry_alone() {
    let menu: Menu<fn()> = Default::default();
    let prompt = menu.build_prompt();
    assert_eq!(prompt, "\t1) Back");
    assert_eq!(prompt.split('\n').count(), 1);
}

#[test]
fn select_classifies_every_selection() {
    let log = Log::default();
    let menu = demo_menu(&log);
    assert_eq!(menu.select(0), Dispatch::Invalid);
    assert_eq!(menu.select(1), Dispatch::Action(0));
    assert_eq!(menu.select(2), Dispatch::Action(1));
    assert_eq!(menu.select(3), Dispatch::Exit);
    assert_eq!(menu.select(4), Dispatch::Invalid);
}

#[test]
fn with_options_replaces_wholesale_and_does_not_mutate() {
    let menu: Menu<fn()> = Default::default();
    let rebuilt = menu.with_options(vec![("first", noop as fn()), ("second", noop as fn())]);
    assert_eq!(menu.options.len(), 0);
    assert_eq!(rebuilt.options.len(), 2);
    assert_eq!(rebuilt.options[0].text, "first");
    assert_eq!(rebuilt.options[1].text, "second");
    assert_eq!(rebuilt.name, menu.name);
    assert!(rebuilt.menu_type == menu.menu_type);
}

#[test]
fn with_options_on_a_filled_menu_replaces_not_appends() {
    let menu: Menu<fn()> = Default::default();
    let once = menu.with_options(vec![("first", noop as fn())]);
    let twice = once.with_options(vec![("second", noop as fn())]);
    assert_eq!(once.options.len(), 1);
    assert_eq!(twice.options.len(), 1);
    assert_eq!(twice.options[0].text, "second");
}

#[test]
fn run_invokes_selected_action_and_continues() {
    let log = Log::default();
    let menu = demo_menu(&log);
    let mut source = LineSource::new(vec!["2".to_string(), "3".to_string()]);
    let mut sink = OutputSink::new();
    let invoked = menu.run(&mut source, &mut sink);
    assert_eq!(invoked, vec![1]);
    assert_eq!(log.borrow().as_slice(), ["bye"]);
    let expected = format!("Main Menu\n{DEMO_PROMPT}\n{DEMO_PROMPT}\nQuit\n");
    assert_eq!(sink.concat_output(), expected);
}

#[test]
fn run_exit_selection_invokes_nothing() {
    let log = Log::default();
    let menu = demo_menu(&log);
    let mut source = LineSource::new(vec!["3".to_string()]);
    let mut sink = OutputSink::new();
    let invoked = menu.run(&mut source, &mut sink);
    assert!(invoked.is_empty());
    assert!(log.borrow().is_empty());
    let expected = format!("Main Menu\n{DEMO_PROMPT}\nQuit\n");
    assert_eq!(sink.concat_output(), expected);
}

#[test]
fn run_rejects_out_of_range_selections_and_loops_on() {
    let log = Log::default();
    let menu = demo_menu(&log);
    let mut source = LineSource::new(vec!["0".to_string(), "4".to_string(), "3".to_string()]);
    let mut sink = OutputSink::new();
    let invoked = menu.run(&mut source, &mut sink);
    assert!(invoked.is_empty());
    assert!(log.borrow().is_empty());
    let expected = format!(
        "Main Menu\n{DEMO_PROMPT}\nInvalid input.\n{DEMO_PROMPT}\nInvalid input.\n{DEMO_PROMPT}\nQuit\n"
    );
    assert_eq!(sink.concat_output(), expected);
}

#[test]
fn run_end_to_end_says_hi_then_quits() {
    let log = Log::default();
    let menu = demo_menu(&log);
    let mut source = LineSource::new(vec!["1".to_string(), "3".to_string(), "2".to_string()]);
    let mut sink = OutputSink::new();
    let invoked = menu.run(&mut source, &mut sink);
    assert_eq!(invoked, vec![0]);
    assert_eq!(log.borrow().as_slice(), ["hi"]);
    let expected = format!("Main Menu\n{DEMO_PROMPT}\n{DEMO_PROMPT}\nQuit\n");
    assert_eq!(sink.concat_output(), expected);
}

#[test]
fn run_on_an_empty_menu_exits_at_once() {
    let menu: Menu<fn()> = Default::default();
    let mut source = LineSource::new(vec!["1".to_string()]);
    let mut sink = OutputSink::new();
    let invoked = menu.run(&mut source, &mut sink);
    assert!(invoked.is_empty());
    assert_eq!(sink.concat_output(), "Main Menu\n\t1) Back\nBack\n");
}

#[test]
fn run_keeps_retrying_non_numeric_lines_inside_the_parser() {
    let log = Log::default();
    let menu = demo_menu(&log);
    let mut source = LineSource::new(vec!["nah".to_string(), "-1".to_string(), "3".to_string()]);
    let mut sink = OutputSink::new();
    let invoked = menu.run(&mut source, &mut sink);
    assert!(invoked.is_empty());
    let expected = format!(
        "Main Menu\n{DEMO_PROMPT}\nInvalid input.\n{DEMO_PROMPT}\nInvalid input.\n{DEMO_PROMPT}\nQuit\n"
    );
    assert_eq!(sink.concat_output(), expected);
}
