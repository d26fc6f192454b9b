//! The action language: the lines that the model writes, and how they become
//! a typed plan.
//!
//! The first token of a line selects the kind of action; the line is split at
//! single spaces into at most three fields.

use crate::decimal::{all_digits, is_digit, parse_u32, parse_u32_spec};
use crate::error::{ActionParseError, ActionParseErrorView};
use crate::text::{after, before, chars_of, find, find_from, lemma_find, str_eq, string_of_range, trim, trim_bounds};
use vstd::prelude::*;

verus! {

/// An action we should take on an interface. Actions name elements by their
/// virtual identifiers.
#[derive(Debug, PartialEq, Eq)]
pub enum Action {
    /// Click an element.
    Click {
        /// The identifier of the element to click.
        id: u32,
    },
    /// Type on an element.
    Type {
        /// The identifier of the element to fill out.
        id: u32,
        /// The text to fill it out with.
        text: String,
    },
}

/// The mathematical value of an [`Action`].
pub ghost enum ActionView {
    Click { id: u32 },
    Type { id: u32, text: Seq<char> },
}

impl View for Action {
    type V = ActionView;

    open spec fn view(&self) -> ActionView {
        match *self {
            Action::Click { id } => ActionView::Click { id },
            Action::Type { id, text } => ActionView::Type { id, text: text@ },
        }
    }
}

/// The values of a list of actions.
pub open spec fn actions_view(actions: Seq<Action>) -> Seq<ActionView> {
    Seq::new(actions.len(), |i: int| actions[i]@)
}

/// A group of actions with a description of what they do.
#[derive(Debug, PartialEq, Eq)]
pub struct ActionGroup {
    /// The actions in this group.
    pub actions: Vec<Action>,
    /// The description of the actions taken.
    pub description: String,
    /// Whether or not this action group is final in the context of the
    /// command it furthers.
    pub complete: bool,
}

/// The mathematical value of an [`ActionGroup`].
pub ghost struct ActionGroupView {
    pub actions: Seq<ActionView>,
    pub description: Seq<char>,
    pub complete: bool,
}

impl View for ActionGroup {
    type V = ActionGroupView;

    open spec fn view(&self) -> ActionGroupView {
        ActionGroupView {
            actions: actions_view(self.actions@),
            description: self.description@,
            complete: self.complete,
        }
    }
}

/// The group that stands when the lines hold neither an effective wait nor a
/// finish: the actions read so far, no description, complete.
pub open spec fn default_group(actions: Seq<ActionView>) -> ActionGroupView {
    ActionGroupView { actions, description: Seq::empty(), complete: true }
}

impl Default for ActionGroup {
    fn default() -> (r: ActionGroup)
        ensures
            r@ == default_group(Seq::empty()),
    {
        let r = ActionGroup { actions: Vec::new(), description: String::new(), complete: true };
        assert(r@.actions =~= Seq::<ActionView>::empty());
        r
    }
}

/// The characters of a list of lines.
pub open spec fn lines_view(lines: Seq<&str>) -> Seq<Seq<char>> {
    Seq::new(lines.len(), |i: int| lines[i]@)
}

/// The identifier field without the square brackets that may wrap it. A
/// field that opens a bracket without closing it is left as it is.
pub open spec fn strip_brackets(id: Seq<char>) -> Seq<char> {
    let opened = if id.len() > 0 && id[0] == '[' {
        id.drop_first()
    } else {
        id
    };
    if opened.len() > 0 && opened.last() == ']' {
        opened.drop_last()
    } else {
        id
    }
}

/// The text between the single quotes that wrap `text`, if they do.
pub open spec fn unquote(text: Seq<char>) -> Option<Seq<char>> {
    if text.len() >= 2 && text[0] == '\'' && text.last() == '\'' {
        Some(text.subrange(1, text.len() - 1))
    } else {
        None
    }
}

/// The identifier of a `CLICK` or `FILL` line: its second field, which must
/// be a non-negative integer once brackets are stripped.
pub open spec fn line_id(line: Seq<char>) -> Result<u32, ActionParseErrorView> {
    match after(line, ' ') {
        None => Err(ActionParseErrorView::MissingId { ty: before(line, ' ') }),
        Some(rest) => {
            let id = strip_brackets(before(rest, ' '));
            match parse_u32_spec(id) {
                Some(value) => Ok(value),
                None => Err(ActionParseErrorView::NonIntegerId { id }),
            }
        },
    }
}

/// The text of a `FILL` line whose identifier is well formed: everything
/// after the second space, which must be wrapped in single quotes.
pub open spec fn line_text(line: Seq<char>) -> Result<Seq<char>, ActionParseErrorView> {
    match after(line, ' ') {
        None => Err(ActionParseErrorView::MissingTextInType),
        Some(rest) => match after(rest, ' ') {
            None => Err(ActionParseErrorView::MissingTextInType),
            Some(text) => match unquote(text) {
                Some(inner) => Ok(inner),
                None => Err(ActionParseErrorView::TextInTypeNotSingleQuoted { text }),
            },
        },
    }
}

/// The description of a `WAIT` or `FINISH` line: everything after the first
/// space.
pub open spec fn line_description(line: Seq<char>) -> Seq<char> {
    match after(line, ' ') {
        Some(rest) => rest,
        None => Seq::empty(),
    }
}

/// What the lines from `i` on make of the actions read so far.
pub open spec fn parse_from(lines: Seq<Seq<char>>, i: int, actions: Seq<ActionView>) -> Result<
    ActionGroupView,
    ActionParseErrorView,
>
    decreases lines.len() - i,
{
    if i < 0 || i >= lines.len() {
        Ok(default_group(actions))
    } else {
        let line = lines[i];
        let ty = before(line, ' ');
        if ty == "CLICK"@ {
            match line_id(line) {
                Err(e) => Err(e),
                Ok(id) => parse_from(lines, i + 1, actions.push(ActionView::Click { id })),
            }
        } else if ty == "FILL"@ {
            match line_id(line) {
                Err(e) => Err(e),
                Ok(id) => match line_text(line) {
                    Err(e) => Err(e),
                    Ok(text) => parse_from(
                        lines,
                        i + 1,
                        actions.push(ActionView::Type { id, text }),
                    ),
                },
            }
        } else if ty == "WAIT"@ {
            if i + 1 < lines.len() {
                if line_description(line).len() == 0 {
                    Err(ActionParseErrorView::MissingDescription)
                } else {
                    Ok(
                        ActionGroupView {
                            actions,
                            description: trim(line_description(line)),
                            complete: false,
                        },
                    )
                }
            } else {
                parse_from(lines, i + 1, actions)
            }
        } else if ty == "FINISH"@ {
            if line_description(line).len() == 0 {
                Err(ActionParseErrorView::MissingDescription)
            } else if i + 1 < lines.len() {
                Err(ActionParseErrorView::ActionsAfterFinish)
            } else {
                Ok(
                    ActionGroupView {
                        actions,
                        description: trim(line_description(line)),
                        complete: true,
                    },
                )
            }
        } else {
            parse_from(lines, i + 1, actions)
        }
    }
}

/// The plan that a list of lines stands for, or the first error in it.
pub open spec fn parse_lines(lines: Seq<Seq<char>>) -> Result<
    ActionGroupView,
    ActionParseErrorView,
> {
    parse_from(lines, 0, Seq::empty())
}

/// The value of a parse result.
pub open spec fn parsed_view(r: Result<ActionGroup, ActionParseError>) -> Result<
    ActionGroupView,
    ActionParseErrorView,
> {
    match r {
        Ok(group) => Ok(group@),
        Err(e) => Err(e@),
    }
}

/// A `FINISH` line with a description is an error whenever any line follows
/// it, whatever that line holds.
pub proof fn lemma_finish_must_be_last(lines: Seq<Seq<char>>, i: int, actions: Seq<ActionView>)
    requires
        0 <= i,
        i + 1 < lines.len(),
        before(lines[i], ' ') == "FINISH"@,
        line_description(lines[i]).len() > 0,
    ensures
        parse_from(lines, i, actions) == Err::<ActionGroupView, ActionParseErrorView>(
            ActionParseErrorView::ActionsAfterFinish,
        ),
{
    reveal_strlit("FINISH");
    reveal_strlit("CLICK");
    reveal_strlit("FILL");
    reveal_strlit("WAIT");
    assert("FINISH"@[0] != "CLICK"@[0]);
    assert("FINISH"@[2] != "FILL"@[2]);
    assert("FINISH"@[0] != "WAIT"@[0]);
}

/// A `WAIT` line that nothing follows is ignored, with or without a
/// description: the plan stays complete and undescribed.
pub proof fn lemma_trailing_wait_is_ignored(lines: Seq<Seq<char>>, actions: Seq<ActionView>)
    requires
        lines.len() > 0,
        before(lines.last(), ' ') == "WAIT"@,
    ensures
        parse_from(lines, lines.len() - 1, actions) == Ok::<
            ActionGroupView,
            ActionParseErrorView,
        >(default_group(actions)),
{
    reveal_strlit("CLICK");
    reveal_strlit("FILL");
    reveal_strlit("WAIT");
    assert("WAIT"@[0] != "CLICK"@[0]);
    assert("WAIT"@[0] != "FILL"@[0]);
    let last = lines.len() - 1;
    assert(parse_from(lines, last + 1, actions) == Ok::<ActionGroupView, ActionParseErrorView>(
        default_group(actions),
    ));
}

/// A `WAIT` line with a description that some line follows ends the plan as
/// incomplete; what follows it is not read.
pub proof fn lemma_wait_ends_the_plan(lines: Seq<Seq<char>>, i: int, actions: Seq<ActionView>)
    requires
        0 <= i,
        i + 1 < lines.len(),
        before(lines[i], ' ') == "WAIT"@,
        line_description(lines[i]).len() > 0,
    ensures
        parse_from(lines, i, actions) == Ok::<ActionGroupView, ActionParseErrorView>(
            ActionGroupView {
                actions,
                description: trim(line_description(lines[i])),
                complete: false,
            },
        ),
{
    reveal_strlit("CLICK");
    reveal_strlit("FILL");
    reveal_strlit("WAIT");
    assert("WAIT"@[0] != "CLICK"@[0]);
    assert("WAIT"@[0] != "FILL"@[0]);
}

/// Square brackets around a numeral change nothing: the identifier is read
/// the same with and without them.
pub proof fn lemma_brackets_are_optional(digits: Seq<char>)
    requires
        digits.len() > 0,
        all_digits(digits),
    ensures
        strip_brackets(seq!['['] + digits + seq![']']) == digits,
        strip_brackets(digits) == digits,
{
    let wrapped = seq!['['] + digits + seq![']'];
    assert(wrapped[0] == '[');
    assert(wrapped.last() == ']');
    assert(wrapped.drop_first().drop_last() =~= digits);
    assert(is_digit(digits[0]));
    assert(is_digit(digits[digits.len() - 1]));
    let opened = if digits[0] == '[' {
        digits.drop_first()
    } else {
        digits
    };
    assert(opened == digits);
}

/// Reads the identifier field of the line `cs`, whose first space is at
/// `sp`.
fn read_id(cs: &Vec<char>, sp: usize) -> (r: Result<u32, ActionParseError>)
    requires
        sp == find(cs@, ' '),
    ensures
        match r {
            Ok(id) => line_id(cs@) == Ok::<u32, ActionParseErrorView>(id),
            Err(e) => line_id(cs@) == Err::<u32, ActionParseErrorView>(e@),
        },
{
    proof {
        lemma_find(cs@, ' ');
    }
    if sp >= cs.len() {
        let ty = string_of_range(cs, 0, sp);
        assert(cs@.subrange(0, sp as int) =~= before(cs@, ' '));
        return Err(ActionParseError::MissingId { ty });
    }
    let start = sp + 1;
    let end = find_from(cs, ' ', start);
    let ghost rest = cs@.skip(start as int);
    let ghost field = before(rest, ' ');
    proof {
        lemma_find(rest, ' ');
        assert(field =~= cs@.subrange(start as int, end as int));
    }
    let opened = if start < end && cs[start] == '[' {
        start + 1
    } else {
        start
    };
    let (from, to) = if opened < end && cs[end - 1] == ']' {
        (opened, end - 1)
    } else {
        (start, end)
    };
    proof {
        let o = if field.len() > 0 && field[0] == '[' {
            field.drop_first()
        } else {
            field
        };
        assert(o =~= cs@.subrange(opened as int, end as int));
        assert(strip_brackets(field) =~= cs@.subrange(from as int, to as int));
    }
    match parse_u32(cs, from, to) {
        Some(id) => Ok(id),
        None => Err(ActionParseError::NonIntegerId { id: string_of_range(cs, from, to) }),
    }
}

/// Reads the text field of the line `cs`, whose first space is at `sp`.
fn read_text(cs: &Vec<char>, sp: usize) -> (r: Result<String, ActionParseError>)
    requires
        sp == find(cs@, ' '),
    ensures
        match r {
            Ok(text) => line_text(cs@) == Ok::<Seq<char>, ActionParseErrorView>(text@),
            Err(e) => line_text(cs@) == Err::<Seq<char>, ActionParseErrorView>(e@),
        },
{
    proof {
        lemma_find(cs@, ' ');
    }
    if sp >= cs.len() {
        return Err(ActionParseError::MissingTextInType);
    }
    let start = sp + 1;
    let end = find_from(cs, ' ', start);
    let ghost rest = cs@.skip(start as int);
    proof {
        lemma_find(rest, ' ');
    }
    if end >= cs.len() {
        return Err(ActionParseError::MissingTextInType);
    }
    let from = end + 1;
    let to = cs.len();
    let ghost text = rest.skip(find(rest, ' ') + 1);
    proof {
        assert(text =~= cs@.subrange(from as int, to as int));
    }
    if to - from >= 2 && cs[from] == '\'' && cs[to - 1] == '\'' {
        let inner = string_of_range(cs, from + 1, to - 1);
        proof {
            assert(text.subrange(1, text.len() - 1) =~= cs@.subrange(from + 1, to - 1));
        }
        Ok(inner)
    } else {
        Err(ActionParseError::TextInTypeNotSingleQuoted { text: string_of_range(cs, from, to) })
    }
}

/// Reads the description of the line `cs`, whose first space is at `sp`:
/// none if there is nothing after that space, else what follows it,
/// trimmed.
fn read_description(cs: &Vec<char>, sp: usize) -> (r: Option<String>)
    requires
        sp == find(cs@, ' '),
    ensures
        match r {
            Some(d) => line_description(cs@).len() > 0 && d@ == trim(line_description(cs@)),
            None => line_description(cs@).len() == 0,
        },
{
    proof {
        lemma_find(cs@, ' ');
    }
    if sp >= cs.len() || sp + 1 >= cs.len() {
        return None;
    }
    let from = sp + 1;
    let to = cs.len();
    proof {
        assert(line_description(cs@) =~= cs@.subrange(from as int, to as int));
    }
    let (a, b) = trim_bounds(cs, from, to);
    Some(string_of_range(cs, a, b))
}

impl ActionGroup {
    /// Parses action strings from the model into proper actions.
    pub fn parse_action_strings(actions: &[&str]) -> (r: Result<ActionGroup, ActionParseError>)
        ensures
            parsed_view(r) == parse_lines(lines_view(actions@)),
    {
        let ghost lines = lines_view(actions@);
        let mut group = ActionGroup::default();
        let mut i: usize = 0;
        while i < actions.len()
            invariant
                i <= actions.len(),
                lines == lines_view(actions@),
                group.description@ == Seq::<char>::empty(),
                group.complete,
                parse_lines(lines) == parse_from(lines, i as int, actions_view(group.actions@)),
            decreases actions.len() - i,
        {
            let cs = chars_of(actions[i]);
            assert(cs@ == lines[i as int]);
            let sp = find_from(&cs, ' ', 0);
            assert(cs@.skip(0) =~= cs@);
            proof {
                lemma_find(cs@, ' ');
            }
            let ty = string_of_range(&cs, 0, sp);
            assert(ty@ =~= before(cs@, ' '));
            let more = i + 1 < actions.len();
            let ghost done = actions_view(group.actions@);
            if str_eq(ty.as_str(), "CLICK") {
                match read_id(&cs, sp) {
                    Err(e) => {
                        return Err(e);
                    },
                    Ok(id) => {
                        group.actions.push(Action::Click { id });
                        assert(actions_view(group.actions@) =~= done.push(
                            ActionView::Click { id },
                        ));
                    },
                }
            } else if str_eq(ty.as_str(), "FILL") {
                match read_id(&cs, sp) {
                    Err(e) => {
                        return Err(e);
                    },
                    Ok(id) => match read_text(&cs, sp) {
                        Err(e) => {
                            return Err(e);
                        },
                        Ok(text) => {
                            let ghost t = text@;
                            group.actions.push(Action::Type { id, text });
                            assert(actions_view(group.actions@) =~= done.push(
                                ActionView::Type { id, text: t },
                            ));
                        },
                    },
                }
            } else if str_eq(ty.as_str(), "WAIT") {
                if more {
                    match read_description(&cs, sp) {
                        None => {
                            return Err(ActionParseError::MissingDescription);
                        },
                        Some(description) => {
                            group.description = description;
                            group.complete = false;
                            return Ok(group);
                        },
                    }
                }
            } else if str_eq(ty.as_str(), "FINISH") {
                match read_description(&cs, sp) {
                    None => {
                        return Err(ActionParseError::MissingDescription);
                    },
                    Some(description) => {
                        if more {
                            return Err(ActionParseError::ActionsAfterFinish);
                        }
                        group.description = description;
                        group.complete = true;
                        return Ok(group);
                    },
                }
            }
            i += 1;
        }
        Ok(group)
    }
}

} // verus!
