use std::collections::VecDeque;
use voxurf::error::{ActionParseError, ExecutionError};
use voxurf::executor::{Event, Executor, Phase, Request};
use voxurf::monitor::ExecutorOpts;
use voxurf::properties::Properties;
use voxurf::tree::{Node, Tree};

const TEMPLATE: &str = "{{ tree_text }}|{{ user_command }}{{ previous_actions_cutoff }}|{{ previous_actions }}";

fn opts(max_round_trips: u32) -> ExecutorOpts {
    ExecutorOpts { max_round_trips, tree_poll_interval_ms: 50, stability_threshold_ms: 100, stability_timeout_ms: 300 }
}

fn tree(names: &[(&str, u32)]) -> Tree<u32> {
    Tree {
        roots: names
            .iter()
            .map(|(name, selector)| Node {
                selector: *selector,
                name: Some(name.to_string()),
                description: None,
                role: None,
                state: None,
                properties: Properties::new(),
                children: Vec::new(),
            })
            .collect(),
        selectors: names.iter().map(|(_, selector)| *selector).collect(),
    }
}

fn fence(lines: &[&str]) -> String {
    format!("Thinking.\n```\n{}\n```\nDone.", lines.join("\n"))
}

/// A scripted outside: the trees that the interface will compute, the
/// answers that the model will give, and a record of what was asked.
struct World {
    trees: VecDeque<Tree<u32>>,
    answers: VecDeque<String>,
    failing_selector: Option<u32>,
    polls: usize,
    sleeps: Vec<u64>,
    prompts: Vec<String>,
    clicks: Vec<u32>,
    typed: Vec<(u32, String)>,
}

impl World {
    fn new(trees: Vec<Tree<u32>>, answers: Vec<String>) -> World {
        World {
            trees: trees.into(),
            answers: answers.into(),
            failing_selector: None,
            polls: 0,
            sleeps: Vec::new(),
            prompts: Vec::new(),
            clicks: Vec::new(),
            typed: Vec::new(),
        }
    }

    fn run(&mut self, opts: ExecutorOpts, command: &str) -> Result<String, ExecutionError> {
        let mut machine: Executor<u32> = Executor::new(opts, TEMPLATE.to_string()).execute_command(command);
        loop {
            let event = match machine.request() {
                Request::Idle => panic!("a started machine is never idle"),
                Request::ComputeTree => {
                    self.polls += 1;
                    match self.trees.pop_front() {
                        Some(tree) => Event::Tree(tree),
                        None => Event::InterfaceFailed { message: "no tree".to_string() },
                    }
                }
                Request::Sleep { ms } => {
                    self.sleeps.push(ms);
                    Event::Slept
                }
                Request::Prompt { prompt } => {
                    self.prompts.push(prompt.to_string());
                    match self.answers.pop_front() {
                        Some(answer) => Event::Response(answer),
                        None => Event::ModelFailed { message: "no answer".to_string() },
                    }
                }
                Request::Click { selector } => {
                    if self.failing_selector == Some(*selector) {
                        Event::InterfaceFailed { message: "click failed".to_string() }
                    } else {
                        self.clicks.push(*selector);
                        Event::ActionDone
                    }
                }
                Request::Type { selector, text } => {
                    self.typed.push((*selector, text.to_string()));
                    Event::ActionDone
                }
                Request::Finished => break,
            };
            machine = machine.step(event);
        }
        machine.into_outcome().expect("a finished machine has an outcome")
    }
}

#[test]
fn finish_in_the_first_answer_returns_its_description_without_monitoring() {
    let mut world = World::new(vec![tree(&[("a", 10)])], vec![fence(&["FINISH worked"])]);
    let log = world.run(opts(5), "do it").unwrap();
    assert_eq!(log, "worked");
    assert_eq!(world.polls, 1);
    assert!(world.sleeps.is_empty());
    assert_eq!(world.prompts.len(), 1);
    assert!(world.clicks.is_empty());
}

#[test]
fn wait_with_one_round_trip_allowed_is_not_finished() {
    let mut world = World::new(vec![tree(&[("a", 10)])], vec![fence(&["WAIT partial", "CLICK 1"])]);
    let error = world.run(opts(1), "do it").unwrap_err();
    assert_eq!(error, ExecutionError::CommandNotFinished { num_trips: 1 });
    assert!(world.clicks.is_empty());
    assert!(world.sleeps.is_empty());
    assert_eq!(world.polls, 1);
}

#[test]
fn no_round_trip_allowed_fails_at_once() {
    let mut world = World::new(vec![], vec![]);
    assert_eq!(world.run(opts(0), "do it").unwrap_err(), ExecutionError::CommandNotFinished { num_trips: 0 });
    assert_eq!(world.polls, 0);
    assert!(world.prompts.is_empty());
}

#[test]
fn first_prompt_holds_tree_and_command_and_is_cut_at_the_marker() {
    let mut world = World::new(vec![tree(&[("a", 10), ("b", 20)])], vec![fence(&["FINISH ok"])]);
    world.run(opts(5), "Search for foobar.").unwrap();
    assert_eq!(world.prompts, vec!["- [0] \"a\"\n- [3] \"b\"\n|Search for foobar.".to_string()]);
}

#[test]
fn actions_are_executed_in_order_against_the_selectors_of_the_tree() {
    let mut world = World::new(
        vec![tree(&[("a", 10), ("b", 20), ("c", 30)])],
        vec![fence(&["CLICK [6]", "FILL 3 'foobar'", "CLICK 0", "FINISH searched"])],
    );
    assert_eq!(world.run(opts(5), "go").unwrap(), "searched");
    assert_eq!(world.clicks, vec![30, 10]);
    assert_eq!(world.typed, vec![(20, "foobar".to_string())]);
}

#[test]
fn second_trip_waits_for_the_tree_to_change_and_settle() {
    let first = || tree(&[("a", 10)]);
    let second = || tree(&[("a", 10), ("b", 20)]);
    let mut world = World::new(
        // Initial tree; then one unchanged poll, the change, and two unchanged polls.
        vec![first(), first(), second(), second(), second()],
        vec![fence(&["CLICK 0", "WAIT clicked a", "CLICK 3"]), fence(&["CLICK 3", "FINISH clicked b"])],
    );
    let log = world.run(opts(5), "go").unwrap();
    assert_eq!(log, "clicked a\nclicked b");
    assert_eq!(world.polls, 5);
    assert_eq!(world.sleeps, vec![50, 50, 50, 50]);
    assert_eq!(world.clicks, vec![10, 20]);
    assert_eq!(world.prompts.len(), 2);
    assert_eq!(world.prompts[1], "- [0] \"a\"\n- [3] \"b\"\n|go|- clicked a");
}

#[test]
fn third_prompt_lists_both_earlier_descriptions() {
    let a = || tree(&[("a", 10)]);
    let b = || tree(&[("b", 20)]);
    let mut world = World::new(
        vec![a(), b(), b(), b(), a(), a(), a()],
        vec![fence(&["WAIT one", "x"]), fence(&["WAIT two", "x"]), fence(&["FINISH three"])],
    );
    assert_eq!(world.run(opts(5), "go").unwrap(), "one\ntwo\nthree");
    assert_eq!(world.prompts[2], "- [0] \"a\"\n|go|- one\n- two");
}

#[test]
fn tree_that_never_changes_is_no_tree_update() {
    let same = || tree(&[("a", 10)]);
    let mut world = World::new(
        vec![same(), same(), same(), same(), same(), same(), same(), same()],
        vec![fence(&["WAIT clicked", "CLICK 0"])],
    );
    assert_eq!(world.run(opts(5), "go").unwrap_err(), ExecutionError::NoTreeUpdate { timeout_ms: 100 });
    // One initial poll, then as many as the timeout allows: 300 / 50.
    assert_eq!(world.polls, 7);
    assert_eq!(world.sleeps.len(), 6);
    assert_eq!(world.prompts.len(), 1);
}

#[test]
fn tree_that_keeps_changing_is_a_stabilisation_timeout() {
    let mut trees = Vec::new();
    for i in 0..8 {
        trees.push(tree(&[("a", i)]));
    }
    let mut world = World::new(trees, vec![fence(&["WAIT clicked", "CLICK 0"])]);
    assert_eq!(
        world.run(opts(5), "go").unwrap_err(),
        ExecutionError::TreeStabilisationTimeout { timeout_ms: 300 }
    );
    assert_eq!(world.polls, 7);
}

#[test]
fn identifier_that_is_no_multiple_of_the_factor_is_not_found() {
    let mut world = World::new(vec![tree(&[("a", 10), ("b", 20)])], vec![fence(&["CLICK 0", "CLICK 1", "FINISH x"])]);
    assert_eq!(world.run(opts(5), "go").unwrap_err(), ExecutionError::IdNotFound { id: 1 });
    // The action before the invented identifier was executed.
    assert_eq!(world.clicks, vec![10]);
}

#[test]
fn identifier_past_the_list_is_not_found() {
    let mut world = World::new(vec![tree(&[("a", 10), ("b", 20)])], vec![fence(&["FILL 6 'x'", "FINISH x"])]);
    assert_eq!(world.run(opts(5), "go").unwrap_err(), ExecutionError::IdNotFound { id: 6 });
    assert!(world.typed.is_empty());
}

#[test]
fn identifiers_of_an_earlier_trip_are_not_valid_in_a_later_one() {
    let big = || tree(&[("a", 10), ("b", 20), ("c", 30)]);
    let small = || tree(&[("c", 30)]);
    let mut world = World::new(
        vec![big(), small(), small(), small()],
        vec![fence(&["CLICK 6", "WAIT clicked c", "x"]), fence(&["CLICK 6", "FINISH again"])],
    );
    assert_eq!(world.run(opts(5), "go").unwrap_err(), ExecutionError::IdNotFound { id: 6 });
    assert_eq!(world.clicks, vec![30]);
}

#[test]
fn failing_interface_action_ends_the_command() {
    let mut world = World::new(vec![tree(&[("a", 10), ("b", 20)])], vec![fence(&["CLICK 0", "CLICK 3", "FINISH x"])]);
    world.failing_selector = Some(20);
    assert_eq!(
        world.run(opts(5), "go").unwrap_err(),
        ExecutionError::InterfaceError { source: "click failed".to_string() }
    );
    assert_eq!(world.clicks, vec![10]);
}

#[test]
fn failing_first_tree_ends_the_command() {
    let mut world = World::new(vec![], vec![]);
    assert_eq!(
        world.run(opts(5), "go").unwrap_err(),
        ExecutionError::InterfaceError { source: "no tree".to_string() }
    );
    assert!(world.prompts.is_empty());
}

#[test]
fn failing_poll_ends_the_command() {
    let mut world = World::new(vec![tree(&[("a", 10)])], vec![fence(&["WAIT w", "x"])]);
    assert_eq!(
        world.run(opts(5), "go").unwrap_err(),
        ExecutionError::InterfaceError { source: "no tree".to_string() }
    );
    assert_eq!(world.polls, 2);
}

#[test]
fn failing_model_ends_the_command() {
    let mut world = World::new(vec![tree(&[("a", 10)])], vec![]);
    assert_eq!(
        world.run(opts(5), "go").unwrap_err(),
        ExecutionError::ModelError { source: "no answer".to_string() }
    );
}

#[test]
fn unparsable_plan_ends_the_command_before_any_action() {
    let mut world = World::new(vec![tree(&[("a", 10)])], vec![fence(&["CLICK 0", "FILL 0 unquoted"])]);
    assert_eq!(
        world.run(opts(5), "go").unwrap_err(),
        ExecutionError::ActionParseError(ActionParseError::TextInTypeNotSingleQuoted { text: "unquoted".to_string() })
    );
    assert!(world.clicks.is_empty());
}

#[test]
fn answer_without_fence_is_an_empty_complete_plan() {
    let mut world = World::new(vec![tree(&[("a", 10)])], vec!["CLICK 0\nFINISH done".to_string()]);
    assert_eq!(world.run(opts(5), "go").unwrap(), "");
    assert!(world.clicks.is_empty());
}

#[test]
fn parse_error_converts_into_an_execution_error() {
    let e: ExecutionError = ActionParseError::MissingDescription.into();
    assert_eq!(e, ExecutionError::ActionParseError(ActionParseError::MissingDescription));
}

#[test]
fn new_machine_is_idle_until_a_command_is_given() {
    let machine: Executor<u32> = Executor::new(opts(5), TEMPLATE.to_string());
    assert_eq!(machine.phase(), Phase::Init);
    assert!(matches!(machine.request(), Request::Idle));
    assert!(machine.tree().is_none());
    let machine = machine.step(Event::Slept);
    assert_eq!(machine.phase(), Phase::Init);
    assert_eq!(machine.into_outcome(), None);
}

#[test]
fn events_that_do_not_answer_the_request_are_ignored() {
    let machine: Executor<u32> = Executor::new(opts(5), TEMPLATE.to_string()).execute_command("go");
    assert_eq!(machine.phase(), Phase::AwaitInitialTree);
    let machine = machine.step(Event::Slept);
    assert_eq!(machine.phase(), Phase::AwaitInitialTree);
    let machine = machine.step(Event::Response("```\nFINISH x\n```".to_string()));
    assert_eq!(machine.phase(), Phase::AwaitInitialTree);
    let machine = machine.step(Event::ActionDone);
    assert_eq!(machine.phase(), Phase::AwaitInitialTree);
    let machine = machine.step(Event::Tree(tree(&[("a", 10)])));
    assert_eq!(machine.phase(), Phase::Prompting);
    assert_eq!(machine.num_trips(), 0);
    let machine = machine.step(Event::Tree(tree(&[("b", 20)])));
    assert_eq!(machine.phase(), Phase::Prompting);
    assert_eq!(machine.tree().unwrap().selectors, vec![10]);
    let machine = machine.step(Event::Response("```\nFINISH x\n```".to_string()));
    assert_eq!(machine.phase(), Phase::Done);
    let machine = machine.step(Event::ActionDone);
    assert!(matches!(machine.request(), Request::Finished));
    assert_eq!(machine.into_outcome(), Some(Ok("x".to_string())));
}

#[test]
fn a_second_command_starts_from_nothing() {
    let machine: Executor<u32> = Executor::new(opts(5), TEMPLATE.to_string())
        .execute_command("first")
        .step(Event::Tree(tree(&[("a", 10)])))
        .step(Event::Response("```\nFINISH one\n```".to_string()));
    assert_eq!(machine.phase(), Phase::Done);
    let machine = machine
        .execute_command("second")
        .step(Event::Tree(tree(&[("b", 20)])));
    match machine.request() {
        Request::Prompt { prompt } => assert_eq!(prompt, "- [0] \"b\"\n|second"),
        other => panic!("unexpected request {other:?}"),
    }
    let machine = machine.step(Event::Response("```\nFINISH two\n```".to_string()));
    assert_eq!(machine.into_outcome(), Some(Ok("two".to_string())));
}
