//! The executor: the state machine that carries one command from the first
//! poll of the element tree to a finished plan or a failure.
//!
//! The machine does no work on the outside itself. It says what is to be
//! done next ([`Executor::request`]), and is told what came of it
//! ([`Executor::step`]).

use crate::action::{lines_view, parse_lines, Action, ActionGroup, ActionGroupView, ActionView};
use crate::error::{ActionParseErrorView, ExecutionError, ExecutionErrorView};
use crate::ids::{id_to_selector, resolve};
use crate::monitor::{ExecutorOpts, Stability, Verdict};
use crate::prompt::{fenced, fenced_lines, join, join_strings, lines_of, prompt_text, render_prompt, strings_view};
use crate::render::{tree_text, tree_wf};
use crate::tree::{tree_eq, Tree, TreeView};
use vstd::prelude::*;
use vstd::std_specs::cmp::PartialEqSpec;

verus! {

/// Where the execution of a command stands.
#[derive(Debug, Clone, Copy, PartialEq, Eq, Structural)]
pub enum Phase {
    /// No command has been given yet.
    Init,
    /// The first trip waits for the element tree.
    AwaitInitialTree,
    /// A later trip waits for a poll of the element tree.
    AwaitStableTree,
    /// A later trip waits out the interval between two polls.
    AwaitPollInterval,
    /// The prompt is with the model.
    Prompting,
    /// An action of the plan is with the interface.
    ExecutingActions,
    /// The command is finished.
    Done,
    /// The command has failed.
    Failed,
}

/// What the outside is to do next.
#[derive(Debug)]
pub enum Request<'a, S> {
    /// Nothing: no command has been given.
    Idle,
    /// Compute the element tree.
    ComputeTree,
    /// Sleep for `ms` milliseconds.
    Sleep { ms: u64 },
    /// Send `prompt` to the model.
    Prompt { prompt: &'a str },
    /// Click the element that `selector` names.
    Click { selector: &'a S },
    /// Type `text` into the element that `selector` names.
    Type { selector: &'a S, text: &'a str },
    /// Nothing: the command has ended, and its outcome can be taken.
    Finished,
}

/// The mathematical value of a [`Request`].
pub ghost enum RequestView<S> {
    Idle,
    ComputeTree,
    Sleep { ms: u64 },
    Prompt { prompt: Seq<char> },
    Click { selector: S },
    Type { selector: S, text: Seq<char> },
    Finished,
}

impl<'a, S> View for Request<'a, S> {
    type V = RequestView<S>;

    open spec fn view(&self) -> RequestView<S> {
        match *self {
            Request::Idle => RequestView::Idle,
            Request::ComputeTree => RequestView::ComputeTree,
            Request::Sleep { ms } => RequestView::Sleep { ms },
            Request::Prompt { prompt } => RequestView::Prompt { prompt: prompt@ },
            Request::Click { selector } => RequestView::Click { selector: *selector },
            Request::Type { selector, text } => RequestView::Type {
                selector: *selector,
                text: text@,
            },
            Request::Finished => RequestView::Finished,
        }
    }
}

/// What came of the last request.
#[derive(Debug)]
pub enum Event<S> {
    /// The interface computed this tree.
    Tree(Tree<S>),
    /// The sleep is over.
    Slept,
    /// The model answered with this text.
    Response(String),
    /// The interface performed the action.
    ActionDone,
    /// The interface failed, with this message.
    InterfaceFailed { message: String },
    /// The model failed, with this message.
    ModelFailed { message: String },
}

/// The mathematical value of an [`Event`].
pub ghost enum EventView<S> {
    Tree(TreeView<S>),
    Slept,
    Response(Seq<char>),
    ActionDone,
    InterfaceFailed { message: Seq<char> },
    ModelFailed { message: Seq<char> },
}

impl<S> View for Event<S> {
    type V = EventView<S>;

    open spec fn view(&self) -> EventView<S> {
        match *self {
            Event::Tree(tree) => EventView::Tree(tree@),
            Event::Slept => EventView::Slept,
            Event::Response(text) => EventView::Response(text@),
            Event::ActionDone => EventView::ActionDone,
            Event::InterfaceFailed { message } => EventView::InterfaceFailed {
                message: message@,
            },
            Event::ModelFailed { message } => EventView::ModelFailed { message: message@ },
        }
    }
}

/// The value of an outcome.
pub open spec fn outcome_view(outcome: Option<Result<String, ExecutionError>>) -> Option<
    Result<Seq<char>, ExecutionErrorView>,
> {
    match outcome {
        None => None,
        Some(Ok(log)) => Some(Ok(log@)),
        Some(Err(e)) => Some(Err(e@)),
    }
}

/// The value of an optional tree.
pub open spec fn opt_tree_view<S>(tree: Option<Tree<S>>) -> Option<TreeView<S>> {
    match tree {
        None => None,
        Some(t) => Some(t@),
    }
}

/// The mathematical value of an [`Executor`].
pub ghost struct ExecutorView<S> {
    pub opts: ExecutorOpts,
    pub template: Seq<char>,
    pub command: Seq<char>,
    pub phase: Phase,
    /// Number of trips that ended with a waitpoint.
    pub num_trips: u32,
    /// The descriptions of the trips whose actions all succeeded.
    pub previous_actions: Seq<Seq<char>>,
    /// The last tree that the interface computed.
    pub tree: Option<TreeView<S>>,
    pub stability: Stability,
    /// The prompt of the current trip.
    pub prompt: Seq<char>,
    /// The plan of the current trip.
    pub group: ActionGroupView,
    /// Index of the action that is being executed.
    pub next_action: nat,
    pub outcome: Option<Result<Seq<char>, ExecutionErrorView>>,
}

/// The identifier that an action names.
pub open spec fn action_id(action: ActionView) -> u32 {
    match action {
        ActionView::Click { id } => id,
        ActionView::Type { id, .. } => id,
    }
}

/// The machine after the failure `error`.
pub open spec fn failed<S>(s: ExecutorView<S>, error: ExecutionErrorView) -> ExecutorView<S> {
    ExecutorView { phase: Phase::Failed, outcome: Some(Err(error)), ..s }
}

/// The machine with the prompt of the current trip made from its tree, and
/// sent.
pub open spec fn prompting<S: PartialEq>(s: ExecutorView<S>) -> ExecutorView<S> {
    ExecutorView {
        phase: Phase::Prompting,
        prompt: prompt_text(s.template, tree_text(s.tree->0), s.command, s.previous_actions),
        ..s
    }
}

/// The machine after a poll interval, or on entering the monitor: another
/// poll if one is due, else the prompt of the next trip if the tree is
/// stable, else the monitor's failure.
pub open spec fn settle<S: PartialEq>(s: ExecutorView<S>) -> ExecutorView<S> {
    if s.stability.polling(s.opts) {
        ExecutorView { phase: Phase::AwaitStableTree, ..s }
    } else {
        match s.stability.verdict(s.opts) {
            Verdict::Stable => prompting(s),
            Verdict::NoTreeUpdate { timeout_ms } => failed(
                s,
                ExecutionErrorView::NoTreeUpdate { timeout_ms },
            ),
            Verdict::TreeStabilisationTimeout { timeout_ms } => failed(
                s,
                ExecutionErrorView::TreeStabilisationTimeout { timeout_ms },
            ),
        }
    }
}

/// The machine once all actions of the trip have succeeded: the trip's
/// description joins the log; a complete plan ends the command, and an
/// incomplete one starts the next trip unless the limit of trips is reached.
pub open spec fn trip_done<S: PartialEq>(s: ExecutorView<S>) -> ExecutorView<S> {
    let log = s.previous_actions.push(s.group.description);
    if s.group.complete {
        ExecutorView {
            phase: Phase::Done,
            previous_actions: log,
            outcome: Some(Ok(join(log, "\n"@))),
            ..s
        }
    } else {
        let trips = (s.num_trips + 1) as u32;
        if trips >= s.opts.max_round_trips {
            failed(
                ExecutorView { previous_actions: log, num_trips: trips, ..s },
                ExecutionErrorView::CommandNotFinished { num_trips: trips },
            )
        } else {
            settle(
                ExecutorView {
                    previous_actions: log,
                    num_trips: trips,
                    stability: Stability::fresh(),
                    ..s
                },
            )
        }
    }
}

/// The machine turning to the action at `next_action`: it is executed if
/// its identifier stands for a selector of the current tree, and fails the
/// command if not; past the last action the trip is done.
pub open spec fn next_action<S: PartialEq>(s: ExecutorView<S>) -> ExecutorView<S> {
    if s.next_action < s.group.actions.len() {
        let id = action_id(s.group.actions[s.next_action as int]);
        if resolve(id as int, s.tree->0.selectors) is Some {
            ExecutorView { phase: Phase::ExecutingActions, ..s }
        } else {
            failed(s, ExecutionErrorView::IdNotFound { id: id as usize })
        }
    } else {
        trip_done(s)
    }
}

/// The machine after the model's answer `text`: the plan in its fenced
/// block is parsed and its first action is turned to.
pub open spec fn answered<S: PartialEq>(s: ExecutorView<S>, text: Seq<char>) -> ExecutorView<S> {
    match parse_lines(fenced(lines_of(text))) {
        Err(e) => failed(s, ExecutionErrorView::ActionParseError(e)),
        Ok(group) => next_action(ExecutorView { group, next_action: 0, ..s }),
    }
}

/// The machine at the start of the command `command`.
pub open spec fn started<S>(s: ExecutorView<S>, command: Seq<char>) -> ExecutorView<S> {
    let fresh = ExecutorView {
        command,
        num_trips: 0,
        previous_actions: Seq::empty(),
        tree: None,
        stability: Stability::fresh(),
        prompt: Seq::empty(),
        group: ActionGroupView { actions: Seq::empty(), description: Seq::empty(), complete: true },
        next_action: 0,
        outcome: None,
        ..s
    };
    if s.opts.max_round_trips == 0 {
        failed(fresh, ExecutionErrorView::CommandNotFinished { num_trips: 0 })
    } else {
        ExecutorView { phase: Phase::AwaitInitialTree, ..fresh }
    }
}

/// The machine after `event`. An event that does not answer the pending
/// request leaves the machine as it is.
pub open spec fn step_spec<S: PartialEq>(s: ExecutorView<S>, event: EventView<S>) -> ExecutorView<S> {
    match (s.phase, event) {
        (Phase::AwaitInitialTree, EventView::Tree(tree)) => prompting(
            ExecutorView { tree: Some(tree), ..s },
        ),
        (Phase::AwaitInitialTree, EventView::InterfaceFailed { message }) => failed(
            s,
            ExecutionErrorView::InterfaceError { source: message },
        ),
        (Phase::AwaitStableTree, EventView::Tree(tree)) => ExecutorView {
            phase: Phase::AwaitPollInterval,
            stability: s.stability.observed(tree_eq(tree, s.tree->0)),
            tree: Some(tree),
            ..s
        },
        (Phase::AwaitStableTree, EventView::InterfaceFailed { message }) => failed(
            s,
            ExecutionErrorView::InterfaceError { source: message },
        ),
        (Phase::AwaitPollInterval, EventView::Slept) => settle(s),
        (Phase::Prompting, EventView::Response(text)) => answered(s, text),
        (Phase::Prompting, EventView::ModelFailed { message }) => failed(
            s,
            ExecutionErrorView::ModelError { source: message },
        ),
        (Phase::ExecutingActions, EventView::ActionDone) => next_action(
            ExecutorView { next_action: s.next_action + 1, ..s },
        ),
        (Phase::ExecutingActions, EventView::InterfaceFailed { message }) => failed(
            s,
            ExecutionErrorView::InterfaceError { source: message },
        ),
        _ => s,
    }
}

/// What the machine asks for.
pub open spec fn request_spec<S>(s: ExecutorView<S>) -> RequestView<S> {
    match s.phase {
        Phase::Init => RequestView::Idle,
        Phase::AwaitInitialTree => RequestView::ComputeTree,
        Phase::AwaitStableTree => RequestView::ComputeTree,
        Phase::AwaitPollInterval => RequestView::Sleep { ms: s.opts.tree_poll_interval_ms as u64 },
        Phase::Prompting => RequestView::Prompt { prompt: s.prompt },
        Phase::ExecutingActions => match s.group.actions[s.next_action as int] {
            ActionView::Click { id } => RequestView::Click {
                selector: resolve(id as int, s.tree->0.selectors)->0,
            },
            ActionView::Type { id, text } => RequestView::Type {
                selector: resolve(id as int, s.tree->0.selectors)->0,
                text,
            },
        },
        Phase::Done => RequestView::Finished,
        Phase::Failed => RequestView::Finished,
    }
}

/// Whether the command is under way: neither waiting to be given nor ended.
pub open spec fn active(phase: Phase) -> bool {
    phase != Phase::Init && phase != Phase::Done && phase != Phase::Failed
}

/// What holds of every state of the machine.
pub open spec fn machine_wf<S: PartialEq>(s: ExecutorView<S>) -> bool {
    &&& s.opts.valid()
    &&& s.tree is Some ==> tree_wf(s.tree->0)
    &&& (s.phase == Phase::AwaitStableTree || s.phase == Phase::AwaitPollInterval || s.phase
        == Phase::Prompting || s.phase == Phase::ExecutingActions) ==> s.tree is Some
    &&& s.phase == Phase::AwaitStableTree ==> s.stability.polling(s.opts)
    &&& s.phase == Phase::ExecutingActions ==> s.next_action < s.group.actions.len() && resolve(
        action_id(s.group.actions[s.next_action as int]) as int,
        s.tree->0.selectors,
    ) is Some
    &&& active(s.phase) ==> s.num_trips < s.opts.max_round_trips
    &&& s.num_trips <= s.opts.max_round_trips
    &&& s.previous_actions.len() >= s.num_trips
    &&& s.phase == Phase::Done ==> s.outcome is Some && s.outcome->0 is Ok
    &&& s.phase == Phase::Failed ==> s.outcome is Some && s.outcome->0 is Err
    &&& (s.phase != Phase::Done && s.phase != Phase::Failed) ==> s.outcome is None
}

/// Every step keeps the machine well formed: in particular the number of
/// trips never passes the configured maximum.
pub proof fn lemma_step_keeps_wf<S: PartialEq>(s: ExecutorView<S>, event: EventView<S>)
    requires
        machine_wf(s),
        event is Tree ==> tree_wf(event->Tree_0),
    ensures
        machine_wf(step_spec(s, event)),
{
}

/// An action that the interface fails ends the command with
/// `InterfaceError`, and the trip's description does not join the log.
pub proof fn lemma_failed_trip_not_credited<S: PartialEq>(s: ExecutorView<S>, message: Seq<char>)
    requires
        s.phase == Phase::ExecutingActions,
    ensures
        step_spec(s, EventView::InterfaceFailed { message }).previous_actions
            == s.previous_actions,
        step_spec(s, EventView::InterfaceFailed { message }).phase == Phase::Failed,
        step_spec(s, EventView::InterfaceFailed { message }).outcome == Some(
            Err::<Seq<char>, ExecutionErrorView>(
                ExecutionErrorView::InterfaceError { source: message },
            ),
        ),
{
}

/// An answer whose plan is complete and holds no action ends the command at
/// once: the outcome is the log with the plan's description, and the
/// stability monitor is not entered.
pub proof fn lemma_complete_plan_finishes<S: PartialEq>(
    s: ExecutorView<S>,
    text: Seq<char>,
    group: ActionGroupView,
)
    requires
        s.phase == Phase::Prompting,
        parse_lines(fenced(lines_of(text))) == Ok::<ActionGroupView, ActionParseErrorView>(group),
        group.actions.len() == 0,
        group.complete,
    ensures
        step_spec(s, EventView::Response(text)).phase == Phase::Done,
        step_spec(s, EventView::Response(text)).outcome == Some(
            Ok::<Seq<char>, ExecutionErrorView>(
                join(s.previous_actions.push(group.description), "\n"@),
            ),
        ),
        step_spec(s, EventView::Response(text)).stability == s.stability,
        step_spec(s, EventView::Response(text)).num_trips == s.num_trips,
{
}

/// An answer whose plan ends at a waitpoint, once its actions are done,
/// fails the command with `CommandNotFinished` if the trip was the last one
/// allowed; the number reported is that of the trips made.
pub proof fn lemma_last_trip_must_finish<S: PartialEq>(
    s: ExecutorView<S>,
    text: Seq<char>,
    group: ActionGroupView,
)
    requires
        s.phase == Phase::Prompting,
        parse_lines(fenced(lines_of(text))) == Ok::<ActionGroupView, ActionParseErrorView>(group),
        group.actions.len() == 0,
        !group.complete,
        s.num_trips + 1 >= s.opts.max_round_trips,
        s.num_trips < u32::MAX,
    ensures
        step_spec(s, EventView::Response(text)).phase == Phase::Failed,
        step_spec(s, EventView::Response(text)).outcome == Some(
            Err::<Seq<char>, ExecutionErrorView>(
                ExecutionErrorView::CommandNotFinished { num_trips: (s.num_trips + 1) as u32 },
            ),
        ),
{
}

/// Whatever happens, descriptions only join the log: no step removes or
/// changes an earlier trip's description.
pub proof fn lemma_log_only_grows<S: PartialEq>(s: ExecutorView<S>, event: EventView<S>)
    ensures
        s.previous_actions.len() <= step_spec(s, event).previous_actions.len(),
        step_spec(s, event).previous_actions.take(s.previous_actions.len() as int)
            == s.previous_actions,
{
    let after = step_spec(s, event).previous_actions;
    let before = s.previous_actions;
    assert(after.take(before.len() as int) =~= before);
}

/// A system for executing natural-language commands against an interface.
pub struct Executor<S: PartialEq> {
    opts: ExecutorOpts,
    template: String,
    command: String,
    phase: Phase,
    num_trips: u32,
    previous_actions: Vec<String>,
    tree: Option<Tree<S>>,
    stability: Stability,
    prompt: String,
    group: ActionGroup,
    next_action: usize,
    outcome: Option<Result<String, ExecutionError>>,
}

impl<S: PartialEq> View for Executor<S> {
    type V = ExecutorView<S>;

    closed spec fn view(&self) -> ExecutorView<S> {
        ExecutorView {
            opts: self.opts,
            template: self.template@,
            command: self.command@,
            phase: self.phase,
            num_trips: self.num_trips,
            previous_actions: strings_view(self.previous_actions@),
            tree: opt_tree_view(self.tree),
            stability: self.stability,
            prompt: self.prompt@,
            group: self.group@,
            next_action: self.next_action as nat,
            outcome: outcome_view(self.outcome),
        }
    }
}

/// The machine before any command: nothing asked, nothing known.
pub open spec fn initial<S>(opts: ExecutorOpts, template: Seq<char>) -> ExecutorView<S> {
    ExecutorView {
        opts,
        template,
        command: Seq::empty(),
        phase: Phase::Init,
        num_trips: 0,
        previous_actions: Seq::empty(),
        tree: None,
        stability: Stability::fresh(),
        prompt: Seq::empty(),
        group: ActionGroupView { actions: Seq::empty(), description: Seq::empty(), complete: true },
        next_action: 0,
        outcome: None,
    }
}

/// The lines of a list of strings, borrowed.
fn borrow_lines(lines: &Vec<String>) -> (r: Vec<&str>)
    ensures
        lines_view(r@) == strings_view(lines@),
{
    let mut out: Vec<&str> = Vec::new();
    let mut i: usize = 0;
    while i < lines.len()
        invariant
            i <= lines.len(),
            out.len() == i,
            forall|j: int| 0 <= j < i ==> (#[trigger] out@[j])@ == lines@[j]@,
        decreases lines.len() - i,
    {
        out.push(lines[i].as_str());
        i += 1;
    }
    assert(lines_view(out@) =~= strings_view(lines@));
    out
}

impl<S: PartialEq> Executor<S> {
    /// Every executor is a well-formed machine.
    #[verifier::type_invariant]
    spec fn well_formed(&self) -> bool {
        machine_wf(self@)
    }

    /// Creates a new executor with the given options and prompt template.
    pub fn new(opts: ExecutorOpts, template: String) -> (r: Self)
        requires
            opts.valid(),
        ensures
            r@ == initial::<S>(opts, template@),
    {
        let r = Executor {
            opts,
            template,
            command: String::new(),
            phase: Phase::Init,
            num_trips: 0,
            previous_actions: Vec::new(),
            tree: None,
            stability: Stability::new(),
            prompt: String::new(),
            group: ActionGroup::default(),
            next_action: 0,
            outcome: None,
        };
        assert(r@.previous_actions =~= Seq::<Seq<char>>::empty());
        r
    }

    /// Starts the execution of the given natural-language user command.
    /// Nothing of an earlier command is kept. With no round trip allowed
    /// the command fails at once.
    pub fn execute_command(self, command: &str) -> (r: Self)
        ensures
            r@ == started(self@, command@),
    {
        proof {
            use_type_invariant(&self);
        }
        let blocked = self.opts.max_round_trips == 0;
        let r = Executor {
            opts: self.opts,
            template: self.template,
            command: String::from_str(command),
            phase: if blocked {
                Phase::Failed
            } else {
                Phase::AwaitInitialTree
            },
            num_trips: 0,
            previous_actions: Vec::new(),
            tree: None,
            stability: Stability::new(),
            prompt: String::new(),
            group: ActionGroup::default(),
            next_action: 0,
            outcome: if blocked {
                Some(Err(ExecutionError::CommandNotFinished { num_trips: 0 }))
            } else {
                None
            },
        };
        assert(r@.previous_actions =~= Seq::<Seq<char>>::empty());
        r
    }

    /// Where the execution stands.
    pub fn phase(&self) -> (r: Phase)
        ensures
            r == self@.phase,
    {
        self.phase
    }

    /// Number of trips that ended with a waitpoint.
    pub fn num_trips(&self) -> (r: u32)
        ensures
            r == self@.num_trips,
            r <= self@.opts.max_round_trips,
    {
        proof {
            use_type_invariant(self);
        }
        self.num_trips
    }

    /// The last tree that the interface computed.
    pub fn tree(&self) -> (r: Option<&Tree<S>>)
        ensures
            match r {
                Some(tree) => self@.tree == Some(tree@),
                None => self@.tree is None,
            },
    {
        self.tree.as_ref()
    }

    /// The outcome of the command, once it has ended: the descriptions of
    /// all trips, one per line, or the failure.
    pub fn into_outcome(self) -> (r: Option<Result<String, ExecutionError>>)
        ensures
            outcome_view(r) == self@.outcome,
            r is Some <==> (self@.phase == Phase::Done || self@.phase == Phase::Failed),
            self@.phase == Phase::Done ==> r is Some && r->0 is Ok,
            self@.phase == Phase::Failed ==> r is Some && r->0 is Err,
    {
        proof {
            use_type_invariant(&self);
        }
        self.outcome
    }

    /// What the outside is to do next.
    pub fn request(&self) -> (r: Request<'_, S>)
        ensures
            r@ == request_spec(self@),
    {
        proof {
            use_type_invariant(self);
        }
        match self.phase {
            Phase::Init => Request::Idle,
            Phase::AwaitInitialTree => Request::ComputeTree,
            Phase::AwaitStableTree => Request::ComputeTree,
            Phase::AwaitPollInterval => Request::Sleep { ms: self.opts.tree_poll_interval_ms as u64 },
            Phase::Prompting => Request::Prompt { prompt: self.prompt.as_str() },
            Phase::ExecutingActions => {
                let tree = self.tree.as_ref().unwrap();
                assert(self@.group.actions[self.next_action as int]
                    == self.group.actions@[self.next_action as int]@);
                match &self.group.actions[self.next_action] {
                    Action::Click { id } => {
                        let selector = id_to_selector(*id as usize, &tree.selectors).unwrap();
                        Request::Click { selector }
                    },
                    Action::Type { id, text } => {
                        let selector = id_to_selector(*id as usize, &tree.selectors).unwrap();
                        Request::Type { selector, text: text.as_str() }
                    },
                }
            },
            Phase::Done => Request::Finished,
            Phase::Failed => Request::Finished,
        }
    }

    /// Ends the command with `error`.
    fn fail(self, error: ExecutionError) -> (r: Self)
        ensures
            r@ == failed(self@, error@),
    {
        proof {
            use_type_invariant(&self);
        }
        Executor { phase: Phase::Failed, outcome: Some(Err(error)), ..self }
    }

    /// Makes the prompt of the current trip from the current tree.
    fn prompt_now(self) -> (r: Self)
        requires
            self@.tree is Some,
            active(self@.phase),
        ensures
            r@ == prompting(self@),
    {
        proof {
            use_type_invariant(&self);
        }
        let prompt = {
            let tree = self.tree.as_ref().unwrap();
            let text = tree.to_string();
            render_prompt(
                self.template.as_str(),
                text.as_str(),
                self.command.as_str(),
                &self.previous_actions,
            )
        };
        Executor { phase: Phase::Prompting, prompt, ..self }
    }

    /// Asks for another poll if one is due, and ends the monitor if not.
    fn settle_now(self) -> (r: Self)
        requires
            self@.tree is Some,
            active(self@.phase),
        ensures
            r@ == settle(self@),
    {
        proof {
            use_type_invariant(&self);
        }
        if self.stability.keep_polling(&self.opts) {
            Executor { phase: Phase::AwaitStableTree, ..self }
        } else {
            match self.stability.conclude(&self.opts) {
                Verdict::Stable => self.prompt_now(),
                Verdict::NoTreeUpdate { timeout_ms } => self.fail(
                    ExecutionError::NoTreeUpdate { timeout_ms },
                ),
                Verdict::TreeStabilisationTimeout { timeout_ms } => self.fail(
                    ExecutionError::TreeStabilisationTimeout { timeout_ms },
                ),
            }
        }
    }

    /// Credits the trip whose actions have all succeeded, and moves on.
    fn finish_trip(self) -> (r: Self)
        requires
            self@.tree is Some,
            active(self@.phase),
            self@.phase != Phase::ExecutingActions,
            self@.phase != Phase::AwaitStableTree,
        ensures
            r@ == trip_done(self@),
    {
        proof {
            use_type_invariant(&self);
        }
        let ghost before = self@;
        let complete = self.group.complete;
        let description = self.group.description.clone();
        let mut log = self.previous_actions;
        log.push(description);
        assert(strings_view(log@) =~= before.previous_actions.push(before.group.description));
        if complete {
            let joined = join_strings(&log, "\n");
            Executor {
                opts: self.opts,
                template: self.template,
                command: self.command,
                phase: Phase::Done,
                num_trips: self.num_trips,
                previous_actions: log,
                tree: self.tree,
                stability: self.stability,
                prompt: self.prompt,
                group: self.group,
                next_action: self.next_action,
                outcome: Some(Ok(joined)),
            }
        } else {
            let trips = self.num_trips + 1;
            if trips >= self.opts.max_round_trips {
                Executor {
                    opts: self.opts,
                    template: self.template,
                    command: self.command,
                    phase: Phase::Failed,
                    num_trips: trips,
                    previous_actions: log,
                    tree: self.tree,
                    stability: self.stability,
                    prompt: self.prompt,
                    group: self.group,
                    next_action: self.next_action,
                    outcome: Some(Err(ExecutionError::CommandNotFinished { num_trips: trips })),
                }
            } else {
                let next = Executor {
                    opts: self.opts,
                    template: self.template,
                    command: self.command,
                    phase: Phase::Prompting,
                    num_trips: trips,
                    previous_actions: log,
                    tree: self.tree,
                    stability: Stability::new(),
                    prompt: self.prompt,
                    group: self.group,
                    next_action: self.next_action,
                    outcome: None,
                };
                next.settle_now()
            }
        }
    }

    /// Turns to the action at `next_action`, or ends the trip past the last.
    fn turn_to_action(self) -> (r: Self)
        requires
            self@.tree is Some,
            active(self@.phase),
            self@.phase != Phase::ExecutingActions,
            self@.phase != Phase::AwaitStableTree,
        ensures
            r@ == next_action(self@),
    {
        proof {
            use_type_invariant(&self);
        }
        if self.next_action < self.group.actions.len() {
            assert(self@.group.actions[self.next_action as int]
                == self.group.actions@[self.next_action as int]@);
            let id: u32 = match &self.group.actions[self.next_action] {
                Action::Click { id } => *id,
                Action::Type { id, .. } => *id,
            };
            let found = {
                let tree = self.tree.as_ref().unwrap();
                id_to_selector(id as usize, &tree.selectors).is_some()
            };
            if found {
                Executor { phase: Phase::ExecutingActions, ..self }
            } else {
                self.fail(ExecutionError::IdNotFound { id: id as usize })
            }
        } else {
            self.finish_trip()
        }
    }

    /// Reads the plan from the model's answer and turns to its first action.
    fn answer(self, text: String) -> (r: Self)
        requires
            self@.phase == Phase::Prompting,
        ensures
            r@ == answered(self@, text@),
    {
        proof {
            use_type_invariant(&self);
        }
        let lines = fenced_lines(text.as_str());
        let borrowed = borrow_lines(&lines);
        let parsed = ActionGroup::parse_action_strings(borrowed.as_slice());
        match parsed {
            Err(e) => self.fail(ExecutionError::ActionParseError(e)),
            Ok(group) => {
                let next = Executor { group, next_action: 0, ..self };
                next.turn_to_action()
            },
        }
    }

    /// Takes what came of the last request and moves on. An event that does
    /// not answer the pending request is ignored.
    pub fn step(self, event: Event<S>) -> (r: Self)
        requires
            event is Tree ==> tree_wf(event->Tree_0@),
        ensures
            r@ == step_spec(self@, event@),
    {
        proof {
            use_type_invariant(&self);
        }
        match self.phase {
            Phase::AwaitInitialTree => match event {
                Event::Tree(tree) => {
                    let next = Executor { tree: Some(tree), ..self };
                    next.prompt_now()
                },
                Event::InterfaceFailed { message } => self.fail(
                    ExecutionError::InterfaceError { source: message },
                ),
                _ => self,
            },
            Phase::AwaitStableTree => match event {
                Event::Tree(tree) => {
                    let same = {
                        let last = self.tree.as_ref().unwrap();
                        tree == *last
                    };
                    let stability = self.stability.observe(same);
                    Executor {
                        phase: Phase::AwaitPollInterval,
                        stability,
                        tree: Some(tree),
                        ..self
                    }
                },
                Event::InterfaceFailed { message } => self.fail(
                    ExecutionError::InterfaceError { source: message },
                ),
                _ => self,
            },
            Phase::AwaitPollInterval => match event {
                Event::Slept => self.settle_now(),
                _ => self,
            },
            Phase::Prompting => match event {
                Event::Response(text) => self.answer(text),
                Event::ModelFailed { message } => self.fail(
                    ExecutionError::ModelError { source: message },
                ),
                _ => self,
            },
            Phase::ExecutingActions => match event {
                Event::ActionDone => {
                    assert(self@.group.actions.len() == self.group.actions.len());
                    assert(self.next_action < self.group.actions.len());
                    let next_action = self.next_action + 1;
                    let next = Executor { phase: Phase::Prompting, next_action, ..self };
                    next.turn_to_action()
                },
                Event::InterfaceFailed { message } => self.fail(
                    ExecutionError::InterfaceError { source: message },
                ),
                _ => self,
            },
            _ => self,
        }
    }
}

} // verus!
