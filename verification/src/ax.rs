//! The accessibility records that a browser reports, and the rules that turn
//! them into flat records of relevant elements.

use crate::properties::{with_entry, Properties};
use crate::reconstitute::{IntermediateNode, RecordView};
use crate::text::{chars_of, str_eq, string_of_range};
use crate::tree::{opt_view, NodeView};
use vstd::prelude::*;

verus! {

/// What the rules read of a dynamically typed value of the browser.
#[derive(Debug)]
pub struct ScriptValue {
    /// The value itself, if it is a string.
    pub as_string: Option<String>,
    /// Whether the value is the boolean `true`.
    pub is_true: bool,
    /// The value as the browser's bindings print it for debugging: its
    /// rendering between `JsValue(` and `)`.
    pub debug: String,
}

/// The generic representation of a dynamically typed value used by the
/// accessibility interface.
#[derive(Debug)]
pub struct AxValue {
    /// The type of the value.
    pub ty: String,
    /// The value itself.
    pub value: ScriptValue,
}

/// The generic representation of an accessibility property.
#[derive(Debug)]
pub struct AxProperty {
    /// The property's name.
    pub name: String,
    /// The property's value.
    pub value: AxValue,
}

/// A node in the raw accessibility tree.
#[derive(Debug)]
pub struct AxNode {
    /// A unique accessibility-domain-specific node identifier.
    pub node_id: String,
    /// Whether or not this node has been deemed uninteresting by the browser.
    pub ignored: bool,
    /// The accessibility role of the node.
    pub role: Option<AxValue>,
    /// The name associated with the node.
    pub name: Option<AxValue>,
    /// Any accessibility description of the node.
    pub description: Option<AxValue>,
    /// The "value" (i.e. state) of the node.
    pub value: Option<AxValue>,
    /// Arbitrary properties the node may have.
    pub properties: Option<Vec<AxProperty>>,
    /// The unique identifier of the parent in the accessibility tree.
    pub parent_id: Option<String>,
    /// The backend node identifier used across other debugger interfaces.
    pub backend_dom_node_id: Option<u32>,
}

/// A debug rendering has the frame `JsValue(` ... `)`.
pub open spec fn framed(debug: Seq<char>) -> bool {
    &&& debug.len() >= 9
    &&& debug.take(8) == "JsValue("@
    &&& debug.last() == ')'
}

/// The text of a debug rendering: what stands inside the frame, without a
/// leading and without a trailing double quote.
pub open spec fn js_text(debug: Seq<char>) -> Seq<char> {
    let inner = debug.subrange(8, debug.len() - 1);
    let opened = if inner.len() > 0 && inner[0] == '"' {
        inner.drop_first()
    } else {
        inner
    };
    if opened.len() > 0 && opened.last() == '"' {
        opened.drop_last()
    } else {
        opened
    }
}

/// The string that an optional value holds, if it holds one.
pub open spec fn string_of_value(v: Option<AxValue>) -> Option<Seq<char>> {
    match v {
        Some(a) => opt_view(a.value.as_string),
        None => None,
    }
}

/// The text of an optional value.
pub open spec fn text_of_value(v: Option<AxValue>) -> Option<Seq<char>> {
    match v {
        Some(a) => Some(js_text(a.value.debug@)),
        None => None,
    }
}

/// Whether some property says that the element can take the focus.
pub open spec fn focusable(props: Seq<AxProperty>) -> bool {
    exists|i: int|
        0 <= i < props.len() && (#[trigger] props[i]).name@ == "focusable"@
            && props[i].value.value.is_true
}

/// The properties that are kept, from the first `n` reported: all but
/// `focusable`, each with the text of its value; a later one replaces an
/// earlier one of the same name.
pub open spec fn kept(props: Seq<AxProperty>, n: nat) -> Seq<(Seq<char>, Seq<char>)>
    decreases n,
{
    if n == 0 {
        Seq::empty()
    } else if props[n - 1].name@ == "focusable"@ {
        kept(props, (n - 1) as nat)
    } else {
        with_entry(
            kept(props, (n - 1) as nat),
            props[n - 1].name@,
            js_text(props[n - 1].value.value.debug@),
        )
    }
}

impl ScriptValue {
    /// Whether the debug rendering has the frame `JsValue(` ... `)`.
    pub fn is_framed(&self) -> (r: bool)
        ensures
            r == framed(self.debug@),
    {
        let cs = chars_of(self.debug.as_str());
        if cs.len() < 9 {
            return false;
        }
        let head = string_of_range(&cs, 0, 8);
        assert(cs@.subrange(0, 8) =~= cs@.take(8));
        str_eq(head.as_str(), "JsValue(") && cs[cs.len() - 1] == ')'
    }
}

/// Converts the given value to a string for sending arbitrary properties to
/// a model.
pub fn js_value_to_string(val: &ScriptValue) -> (r: String)
    requires
        framed(val.debug@),
    ensures
        r@ == js_text(val.debug@),
{
    let cs = chars_of(val.debug.as_str());
    let start: usize = 8;
    let end: usize = cs.len() - 1;
    let ghost inner = cs@.subrange(8, cs.len() - 1);
    let from = if start < end && cs[start] == '"' {
        start + 1
    } else {
        start
    };
    let to = if from < end && cs[end - 1] == '"' {
        end - 1
    } else {
        end
    };
    proof {
        let opened = if inner.len() > 0 && inner[0] == '"' {
            inner.drop_first()
        } else {
            inner
        };
        assert(opened =~= cs@.subrange(from as int, end as int));
        assert(js_text(cs@) =~= cs@.subrange(from as int, to as int));
    }
    string_of_range(&cs, from, to)
}

impl AxNode {
    /// Every value that is turned into text has a framed debug rendering.
    pub open spec fn well_framed(&self) -> bool {
        &&& self.value is Some ==> framed(self.value->0.value.debug@)
        &&& self.properties is Some ==> forall|i: int|
            0 <= i < self.properties->0.len() && (#[trigger] self.properties->0[i]).name@
                != "focusable"@ ==> framed(self.properties->0[i].value.value.debug@)
    }

    /// Whether the node is left out of the tree: it cannot take the focus,
    /// or the browser ignores it, or it is the root of the page.
    pub open spec fn irrelevant(&self) -> bool {
        ||| !(self.properties is Some && focusable(self.properties->0@))
        ||| self.ignored
        ||| string_of_value(self.role) == Some("RootWebArea"@)
    }

    /// The flat record that the node becomes.
    pub open spec fn intermediate(&self) -> RecordView<u32> {
        RecordView {
            id: self.node_id@,
            parent_id: opt_view(self.parent_id),
            remove: self.irrelevant(),
            node: NodeView {
                selector: match self.backend_dom_node_id {
                    Some(id) => id,
                    None => 0,
                },
                name: string_of_value(self.name),
                description: string_of_value(self.description),
                role: string_of_value(self.role),
                state: text_of_value(self.value),
                properties: match self.properties {
                    Some(props) => kept(props@, props@.len()),
                    None => Seq::empty(),
                },
                children: Seq::empty(),
            },
        }
    }

    /// Whether every value that is turned into text has a framed debug
    /// rendering.
    pub fn is_well_framed(&self) -> (r: bool)
        ensures
            r == self.well_framed(),
    {
        match &self.value {
            Some(v) => {
                if !v.value.is_framed() {
                    return false;
                }
            },
            None => {},
        }
        match &self.properties {
            None => true,
            Some(props) => {
                let mut i: usize = 0;
                while i < props.len()
                    invariant
                        i <= props.len(),
                        self.properties == Some(*props),
                        self.value is Some ==> framed(self.value->0.value.debug@),
                        forall|j: int|
                            0 <= j < i && (#[trigger] props@[j]).name@ != "focusable"@ ==> framed(
                                props@[j].value.value.debug@,
                            ),
                    decreases props.len() - i,
                {
                    if !str_eq(props[i].name.as_str(), "focusable") && !props[i].value.value.is_framed() {
                        assert(self.properties->0[i as int].name@ != "focusable"@);
                        return false;
                    }
                    i += 1;
                }
                true
            },
        }
    }

    /// Parses this raw node into a flat record. This also designates which
    /// nodes are to be left out once the nested tree has been rebuilt.
    pub fn into_intermediate(self) -> (r: IntermediateNode<u32>)
        requires
            self.well_framed(),
        ensures
            r@ == self.intermediate(),
    {
        let can_focus = match &self.properties {
            None => false,
            Some(props) => {
                let mut found = false;
                let mut i: usize = 0;
                while i < props.len() && !found
                    invariant
                        i <= props.len(),
                        found ==> focusable(props@),
                        !found ==> forall|j: int|
                            0 <= j < i ==> !((#[trigger] props@[j]).name@ == "focusable"@
                                && props@[j].value.value.is_true),
                    decreases props.len() - i,
                {
                    if str_eq(props[i].name.as_str(), "focusable") && props[i].value.value.is_true {
                        found = true;
                    }
                    i += 1;
                }
                found
            },
        };
        let is_root = match &self.role {
            Some(v) => match &v.value.as_string {
                Some(s) => str_eq(s.as_str(), "RootWebArea"),
                None => false,
            },
            None => false,
        };
        let remove = !can_focus || self.ignored || is_root;
        let value = match &self.value {
            Some(v) => Some(js_value_to_string(&v.value)),
            None => None,
        };
        let ghost all = if self.properties is Some {
            self.properties->0@
        } else {
            Seq::empty()
        };
        let mut properties = Properties::new();
        match self.properties {
            None => {},
            Some(props) => {
                for prop in it: props
                    invariant
                        it.seq() == all,
                        properties@ == kept(all, it.index() as nat),
                        forall|j: int|
                            0 <= j < all.len() && (#[trigger] all[j]).name@ != "focusable"@
                                ==> framed(all[j].value.value.debug@),
                {
                    if !str_eq(prop.name.as_str(), "focusable") {
                        let text = js_value_to_string(&prop.value.value);
                        properties.insert(prop.name, text);
                    }
                }
            },
        }
        let role = match self.role {
            Some(v) => v.value.as_string,
            None => None,
        };
        let name = match self.name {
            Some(v) => v.value.as_string,
            None => None,
        };
        let description = match self.description {
            Some(v) => v.value.as_string,
            None => None,
        };
        let selector = match self.backend_dom_node_id {
            Some(id) => id,
            None => 0,
        };
        IntermediateNode {
            id: self.node_id,
            parent_id: self.parent_id,
            selector,
            name,
            description,
            role,
            value,
            properties,
            remove,
        }
    }
}

} // verus!
