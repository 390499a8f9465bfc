use vstd::prelude::*;

use crate::text::{text_eq, trim_text, trimmed};

verus! {

/// One attribute of an element: its name and its value.
#[derive(Clone, Debug)]
pub struct Attribute {
    pub name: String,
    pub value: String,
}

/// A node of a parsed markup document, holding as plain values what the port
/// table logic reads.
#[derive(Debug)]
pub enum MarkupNode {
    Document { children: Vec<MarkupNode> },
    Fragment { children: Vec<MarkupNode> },
    Doctype,
    ProcessingInstruction,
    Comment,
    Text { text: String },
    Element {
        name: String,
        classes: Vec<String>,
        attributes: Vec<Attribute>,
        children: Vec<MarkupNode>,
    },
}

/// Which elements a document walk collects.
#[derive(Copy, Clone, Debug, PartialEq, Eq, Structural)]
pub enum Pick {
    /// Elements carrying both the `wikitable` and the `sortable` class.
    SortableTable,
    /// `tr` elements whose parent is a `tbody` element.
    BodyRow,
    /// `td` elements.
    DataCell,
    /// Text nodes.
    TextNode,
}

pub open spec fn children_of(n: MarkupNode) -> Seq<MarkupNode> {
    match n {
        MarkupNode::Document { children } => children@,
        MarkupNode::Fragment { children } => children@,
        MarkupNode::Element { children, .. } => children@,
        _ => Seq::empty(),
    }
}

pub open spec fn is_element_named(n: MarkupNode, name: Seq<char>) -> bool {
    match n {
        MarkupNode::Element { name: el, .. } => el@ == name,
        _ => false,
    }
}

/// The element carries the class, compared case-sensitively.
pub open spec fn has_class(n: MarkupNode, class: Seq<char>) -> bool {
    match n {
        MarkupNode::Element { classes, .. } => exists|i: int|
            0 <= i < classes@.len() && (#[trigger] classes@[i])@ == class,
        _ => false,
    }
}

/// The value of the first attribute with the given name.
pub open spec fn attr_in(attrs: Seq<Attribute>, name: Seq<char>) -> Option<Seq<char>>
    decreases attrs.len(),
{
    if attrs.len() == 0 {
        None
    } else if attrs[0].name@ == name {
        Some(attrs[0].value@)
    } else {
        attr_in(attrs.drop_first(), name)
    }
}

/// The value of an element's attribute; nothing for a node that is not an element.
pub open spec fn attr_of(n: MarkupNode, name: Seq<char>) -> Option<Seq<char>> {
    match n {
        MarkupNode::Element { attributes, .. } => attr_in(attributes@, name),
        _ => None,
    }
}

/// All text of a node and its descendants in document order, each piece trimmed
/// when `trim` is set.
pub open spec fn node_text(n: MarkupNode, trim: bool) -> Seq<char>
    decreases n,
{
    match n {
        MarkupNode::Text { text } => if trim {
            trimmed(text@)
        } else {
            text@
        },
        MarkupNode::Document { children } => nodes_text(children@, trim),
        MarkupNode::Fragment { children } => nodes_text(children@, trim),
        MarkupNode::Element { children, .. } => nodes_text(children@, trim),
        _ => Seq::empty(),
    }
}

pub open spec fn nodes_text(s: Seq<MarkupNode>, trim: bool) -> Seq<char>
    decreases s,
{
    if s.len() == 0 {
        Seq::empty()
    } else {
        nodes_text(s.drop_last(), trim) + node_text(s[s.len() - 1], trim)
    }
}

/// Whether a node is collected by a walk, given whether its parent is a `tbody`.
pub open spec fn picked(n: MarkupNode, pick: Pick, parent_is_tbody: bool) -> bool {
    match pick {
        Pick::SortableTable => has_class(n, "wikitable"@) && has_class(n, "sortable"@),
        Pick::BodyRow => parent_is_tbody && is_element_named(n, "tr"@),
        Pick::DataCell => is_element_named(n, "td"@),
        Pick::TextNode => n is Text,
    }
}

/// The nodes that a walk collects from a node and its descendants, in document order.
pub open spec fn select_in(n: MarkupNode, pick: Pick, parent_is_tbody: bool) -> Seq<MarkupNode>
    decreases n,
{
    let own = if picked(n, pick, parent_is_tbody) {
        seq![n]
    } else {
        Seq::empty()
    };
    let below = match n {
        MarkupNode::Document { children } => select_seq(children@, pick, false),
        MarkupNode::Fragment { children } => select_seq(children@, pick, false),
        MarkupNode::Element { children, name, .. } => select_seq(
            children@,
            pick,
            name@ == "tbody"@,
        ),
        _ => Seq::empty(),
    };
    own + below
}

pub open spec fn select_seq(s: Seq<MarkupNode>, pick: Pick, parent_is_tbody: bool) -> Seq<
    MarkupNode,
>
    decreases s,
{
    if s.len() == 0 {
        Seq::empty()
    } else {
        select_seq(s.drop_last(), pick, parent_is_tbody) + select_in(
            s[s.len() - 1],
            pick,
            parent_is_tbody,
        )
    }
}

/// The nodes that a walk collects strictly below a node.
pub open spec fn select_below(n: MarkupNode, pick: Pick) -> Seq<MarkupNode> {
    select_seq(children_of(n), pick, is_element_named(n, "tbody"@))
}

/// The first `a` element among a node and its descendants, in document order.
pub open spec fn first_anchor(n: MarkupNode) -> Option<MarkupNode>
    decreases n,
{
    if is_element_named(n, "a"@) {
        Some(n)
    } else {
        match n {
            MarkupNode::Document { children } => first_anchor_seq(children@),
            MarkupNode::Fragment { children } => first_anchor_seq(children@),
            MarkupNode::Element { children, .. } => first_anchor_seq(children@),
            _ => None,
        }
    }
}

pub open spec fn first_anchor_seq(s: Seq<MarkupNode>) -> Option<MarkupNode>
    decreases s,
{
    if s.len() == 0 {
        None
    } else {
        match first_anchor_seq(s.drop_last()) {
            Some(a) => Some(a),
            None => first_anchor(s[s.len() - 1]),
        }
    }
}

/// The nodes behind a sequence of references.
pub open spec fn nodes(s: Seq<&MarkupNode>) -> Seq<MarkupNode> {
    s.map_values(|r: &MarkupNode| *r)
}

proof fn lemma_first_anchor_prefix(s: Seq<MarkupNode>, k: int)
    requires
        0 <= k <= s.len(),
        first_anchor_seq(s.subrange(0, k)) is Some,
    ensures
        first_anchor_seq(s) == first_anchor_seq(s.subrange(0, k)),
    decreases s.len() - k,
{
    if k < s.len() {
        let t = s.subrange(0, k + 1);
        assert(t.drop_last() =~= s.subrange(0, k));
        lemma_first_anchor_prefix(s, k + 1);
    } else {
        assert(s.subrange(0, k) =~= s);
    }
}

impl MarkupNode {
    /// The element's tag name equals `name`.
    pub fn is_named(&self, name: &str) -> (r: bool)
        ensures
            r == is_element_named(*self, name@),
    {
        match self {
            MarkupNode::Element { name: el, .. } => text_eq(el.as_str(), name),
            _ => false,
        }
    }

    /// The element carries the class `class`, compared case-sensitively.
    #[verifier::loop_isolation(false)]
    pub fn has_class(&self, class: &str) -> (r: bool)
        ensures
            r == has_class(*self, class@),
    {
        match self {
            MarkupNode::Element { classes, .. } => {
                let mut i: usize = 0;
                while i < classes.len()
                    invariant
                        i <= classes@.len(),
                        forall|j: int| 0 <= j < i ==> (#[trigger] classes@[j])@ != class@,
                    decreases classes@.len() - i,
                {
                    if text_eq(classes[i].as_str(), class) {
                        assert(classes@[i as int]@ == class@);
                        return true;
                    }
                    i = i + 1;
                }
                false
            },
            _ => false,
        }
    }

    /// The value of the element's first attribute named `name`.
    #[verifier::loop_isolation(false)]
    pub fn attr(&self, name: &str) -> (r: Option<&String>)
        ensures
            match r {
                Some(v) => attr_of(*self, name@) == Some(v@),
                None => attr_of(*self, name@) is None,
            },
    {
        match self {
            MarkupNode::Element { attributes, .. } => {
                let mut i: usize = 0;
                assert(attributes@.subrange(0, attributes@.len() as int) =~= attributes@);
                while i < attributes.len()
                    invariant
                        i <= attributes@.len(),
                        attr_in(attributes@, name@) == attr_in(
                            attributes@.subrange(i as int, attributes@.len() as int),
                            name@,
                        ),
                    decreases attributes@.len() - i,
                {
                    let ghost rest = attributes@.subrange(i as int, attributes@.len() as int);
                    assert(rest.drop_first() =~= attributes@.subrange(
                        i + 1,
                        attributes@.len() as int,
                    ));
                    assert(rest[0] == attributes@[i as int]);
                    if text_eq(attributes[i].name.as_str(), name) {
                        return Some(&attributes[i].value);
                    }
                    i = i + 1;
                }
                None
            },
            _ => None,
        }
    }

    /// The node's children; none for a node that cannot have any.
    pub fn children(&self) -> (r: &[MarkupNode])
        ensures
            r@ == children_of(*self),
    {
        match self {
            MarkupNode::Document { children } => children.as_slice(),
            MarkupNode::Fragment { children } => children.as_slice(),
            MarkupNode::Element { children, .. } => children.as_slice(),
            _ => &[],
        }
    }

    /// Appends to `out` the nodes that a walk collects from this node and its
    /// descendants, in document order.
    pub fn select_into<'a>(&'a self, pick: Pick, parent_is_tbody: bool, out: &mut Vec<&'a MarkupNode>)
        ensures
            nodes(final(out)@) == nodes(old(out)@) + select_in(*self, pick, parent_is_tbody),
        decreases *self,
    {
        let ghost start = nodes(out@);
        let own = match pick {
            Pick::SortableTable => self.has_class("wikitable") && self.has_class("sortable"),
            Pick::BodyRow => parent_is_tbody && self.is_named("tr"),
            Pick::DataCell => self.is_named("td"),
            Pick::TextNode => match self {
                MarkupNode::Text { .. } => true,
                _ => false,
            },
        };
        if own {
            out.push(self);
        }
        let ghost mid = nodes(out@);
        assert(mid =~= start + (if own { seq![*self] } else { Seq::empty() }));
        let below_tbody = match self {
            MarkupNode::Element { .. } => self.is_named("tbody"),
            _ => false,
        };
        let children = self.children();
        let mut i: usize = 0;
        while i < children.len()
            invariant
                children@ == children_of(*self),
                i <= children@.len(),
                nodes(out@) == mid + select_seq(children@.subrange(0, i as int), pick, below_tbody),
            decreases children@.len() - i,
        {
            assert(children@.subrange(0, i + 1).drop_last() =~= children@.subrange(0, i as int));
            children[i].select_into(pick, below_tbody, out);
            i = i + 1;
        }
        assert(children@.subrange(0, children@.len() as int) =~= children@);
        assert(nodes(out@) =~= start + select_in(*self, pick, parent_is_tbody));
    }

    /// The nodes that a walk collects strictly below this node, in document order.
    pub fn select_below(&self, pick: Pick) -> (r: Vec<&MarkupNode>)
        ensures
            nodes(r@) == select_below(*self, pick),
    {
        let below_tbody = self.is_named("tbody");
        let children = self.children();
        let mut out: Vec<&MarkupNode> = Vec::new();
        assert(nodes(out@) =~= Seq::<MarkupNode>::empty());
        let mut i: usize = 0;
        while i < children.len()
            invariant
                children@ == children_of(*self),
                i <= children@.len(),
                below_tbody == is_element_named(*self, "tbody"@),
                nodes(out@) == select_seq(children@.subrange(0, i as int), pick, below_tbody),
            decreases children@.len() - i,
        {
            assert(children@.subrange(0, i + 1).drop_last() =~= children@.subrange(0, i as int));
            children[i].select_into(pick, below_tbody, &mut out);
            i = i + 1;
        }
        assert(children@.subrange(0, children@.len() as int) =~= children@);
        out
    }

    /// The first `a` element among this node and its descendants, in document order.
    pub fn first_anchor(&self) -> (r: Option<&MarkupNode>)
        ensures
            match r {
                Some(a) => first_anchor(*self) == Some(*a),
                None => first_anchor(*self) is None,
            },
        decreases *self,
    {
        if self.is_named("a") {
            return Some(self);
        }
        let children = self.children();
        let mut i: usize = 0;
        while i < children.len()
            invariant
                children@ == children_of(*self),
                i <= children@.len(),
                !is_element_named(*self, "a"@),
                first_anchor_seq(children@.subrange(0, i as int)) is None,
            decreases children@.len() - i,
        {
            assert(children@.subrange(0, i + 1).drop_last() =~= children@.subrange(0, i as int));
            let found = children[i].first_anchor();
            if found.is_some() {
                proof {
                    let k = i as int + 1;
                    let pre = children@.subrange(0, k);
                    assert(first_anchor_seq(pre) == first_anchor(children@[i as int]));
                    lemma_first_anchor_prefix(children@, k);
                }
                return found;
            }
            i = i + 1;
        }
        assert(children@.subrange(0, children@.len() as int) =~= children@);
        None
    }

    /// All text of the node and its descendants in document order, each piece
    /// trimmed when `trim` is set.
    pub fn text(&self, trim: bool) -> (r: String)
        ensures
            r@ == node_text(*self, trim),
        decreases *self,
    {
        match self {
            MarkupNode::Text { text } => if trim {
                trim_text(text.as_str())
            } else {
                text.clone()
            },
            MarkupNode::Doctype | MarkupNode::ProcessingInstruction | MarkupNode::Comment => {
                String::new()
            },
            _ => {
                let children = self.children();
                let mut r = String::new();
                let mut i: usize = 0;
                while i < children.len()
                    invariant
                        children@ == children_of(*self),
                        i <= children@.len(),
                        r@ == nodes_text(children@.subrange(0, i as int), trim),
                    decreases children@.len() - i,
                {
                    assert(children@.subrange(0, i + 1).drop_last() =~= children@.subrange(
                        0,
                        i as int,
                    ));
                    let t = children[i].text(trim);
                    r.append(t.as_str());
                    i = i + 1;
                }
                assert(children@.subrange(0, children@.len() as int) =~= children@);
                r
            },
        }
    }
}

} // verus!
