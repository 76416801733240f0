//! The document tree that the extraction logic reads: one node type with
//! a tag name, attributes and ordered children, or a run of text.
//! A parsed page is handed to the library as a value of this tree.

use vstd::prelude::*;
use vstd::string::StringExecFns;
use crate::scan::{chars_of, contains_word, eq_str, has_word};

verus! {

/// One node of a parsed page: an element with its tag name, attributes
/// in document order, and ordered child nodes; or a run of text.
#[derive(Debug)]
pub enum DomNode {
    Element { name: String, attrs: Vec<(String, String)>, children: Vec<DomNode> },
    Text { text: String },
}

/// Size of a node, for termination measures of tree walks.
pub open spec fn node_size(n: DomNode) -> nat
    decreases n,
{
    match n {
        DomNode::Text { .. } => 1,
        DomNode::Element { children, .. } => 1 + seq_size(children@),
    }
}

/// Summed size of a sequence of nodes.
pub open spec fn seq_size(s: Seq<DomNode>) -> nat
    decreases s,
{
    if s.len() == 0 {
        0
    } else {
        node_size(s[0]) + seq_size(s.subrange(1, s.len() as int))
    }
}

pub proof fn lemma_seq_size_index(s: Seq<DomNode>, i: int)
    requires
        0 <= i < s.len(),
    ensures
        node_size(s[i]) <= seq_size(s),
    decreases s.len(),
{
    if i > 0 {
        lemma_seq_size_index(s.subrange(1, s.len() as int), i - 1);
        assert(s.subrange(1, s.len() as int)[i - 1] == s[i]);
    }
}

/// The node is an element whose tag name is `tag`.
pub open spec fn has_tag(n: DomNode, tag: Seq<char>) -> bool {
    match n {
        DomNode::Element { name, .. } => name@ == tag,
        DomNode::Text { .. } => false,
    }
}

/// The ordered children of a node; a text node has none.
pub open spec fn children_of(n: DomNode) -> Seq<DomNode> {
    match n {
        DomNode::Element { children, .. } => children@,
        DomNode::Text { .. } => Seq::empty(),
    }
}

/// The value of the first attribute named `key`, if any.
pub open spec fn attr_lookup(attrs: Seq<(String, String)>, key: Seq<char>) -> Option<Seq<char>>
    decreases attrs.len(),
{
    if attrs.len() == 0 {
        None
    } else if attrs[0].0@ == key {
        Some(attrs[0].1@)
    } else {
        attr_lookup(attrs.subrange(1, attrs.len() as int), key)
    }
}

/// The value of the node's attribute `key`, if the node is an element
/// that carries one.
pub open spec fn attr_of(n: DomNode, key: Seq<char>) -> Option<Seq<char>> {
    match n {
        DomNode::Element { attrs, .. } => attr_lookup(attrs@, key),
        DomNode::Text { .. } => None,
    }
}

/// The node's `class` attribute lists `class` as one of its
/// whitespace-separated words.
pub open spec fn spec_has_class(n: DomNode, class: Seq<char>) -> bool {
    match attr_of(n, "class"@) {
        Some(v) => has_word(v, class),
        None => false,
    }
}

/// The rendered text of a node: the concatenation of all text runs in
/// its subtree, in document order.
pub open spec fn node_text(n: DomNode) -> Seq<char>
    decreases n,
{
    match n {
        DomNode::Text { text } => text@,
        DomNode::Element { children, .. } => text_children(children@),
    }
}

/// The concatenated rendered text of a sequence of nodes.
pub open spec fn text_children(s: Seq<DomNode>) -> Seq<char>
    decreases s,
{
    if s.len() == 0 {
        Seq::empty()
    } else {
        text_children(s.subrange(0, s.len() - 1)) + node_text(s[s.len() - 1])
    }
}

/// The serialized form of one attribute: ` key="value"`.
pub open spec fn html_attr_one(a: (String, String)) -> Seq<char> {
    " "@ + a.0@ + "=\""@ + a.1@ + "\""@
}

/// The serialized forms of a sequence of attributes, concatenated.
pub open spec fn html_attrs(attrs: Seq<(String, String)>) -> Seq<char>
    decreases attrs.len(),
{
    if attrs.len() == 0 {
        Seq::empty()
    } else {
        html_attrs(attrs.subrange(0, attrs.len() - 1)) + html_attr_one(attrs[attrs.len() - 1])
    }
}

/// The serialization of a node: a text run verbatim, or
/// `<name attrs>children</name>`.
pub open spec fn html_of(n: DomNode) -> Seq<char>
    decreases n,
{
    match n {
        DomNode::Text { text } => text@,
        DomNode::Element { name, attrs, children } => "<"@ + name@ + html_attrs(attrs@) + ">"@
            + html_children(children@) + "</"@ + name@ + ">"@,
    }
}

/// The concatenated serializations of a sequence of nodes.
pub open spec fn html_children(s: Seq<DomNode>) -> Seq<char>
    decreases s,
{
    if s.len() == 0 {
        Seq::empty()
    } else {
        html_children(s.subrange(0, s.len() - 1)) + html_of(s[s.len() - 1])
    }
}

impl DomNode {
    /// Whether this node is an element with tag name `tag`.
    pub fn tag_is(&self, tag: &str) -> (r: bool)
        ensures
            r == has_tag(*self, tag@),
    {
        match self {
            DomNode::Element { name, .. } => eq_str(name.as_str(), tag),
            DomNode::Text { .. } => false,
        }
    }

    /// The value of this node's first attribute named `key`, if any.
    #[verifier::loop_isolation(false)]
    pub fn attr(&self, key: &str) -> (r: Option<String>)
        ensures
            match r {
                Some(v) => attr_of(*self, key@) == Some(v@),
                None => attr_of(*self, key@) is None,
            },
    {
        match self {
            DomNode::Text { .. } => None,
            DomNode::Element { attrs, .. } => {
                proof {
                    assert(attrs@.subrange(0, attrs@.len() as int) =~= attrs@);
                }
                let mut i: usize = 0;
                while i < attrs.len()
                    invariant
                        0 <= i <= attrs@.len(),
                        attr_lookup(attrs@, key@) == attr_lookup(
                            attrs@.subrange(i as int, attrs@.len() as int),
                            key@,
                        ),
                    decreases attrs@.len() - i,
                {
                    proof {
                        assert(attrs@.subrange(i as int, attrs@.len() as int)[0] == attrs@[i as int]);
                        assert(attrs@.subrange(i as int, attrs@.len() as int).subrange(
                            1,
                            attrs@.len() - i,
                        ) =~= attrs@.subrange(i + 1, attrs@.len() as int));
                    }
                    if eq_str(attrs[i].0.as_str(), key) {
                        return Some(attrs[i].1.clone());
                    }
                    i = i + 1;
                }
                None
            },
        }
    }

    /// Whether this node's `class` attribute lists the word `class`.
    pub fn has_class(&self, class: &str) -> (r: bool)
        ensures
            r == spec_has_class(*self, class@),
    {
        match self.attr("class") {
            None => false,
            Some(v) => {
                let hv = chars_of(v.as_str());
                let wv = chars_of(class);
                contains_word(&hv, &wv)
            },
        }
    }

    /// The rendered text of this node's subtree.
    #[verifier::loop_isolation(false)]
    pub fn text(&self) -> (r: String)
        ensures
            r@ == node_text(*self),
        decreases node_size(*self),
    {
        match self {
            DomNode::Text { text } => text.clone(),
            DomNode::Element { children, .. } => {
                let mut out = String::new();
                let mut i: usize = 0;
                while i < children.len()
                    invariant
                        0 <= i <= children@.len(),
                        out@ == text_children(children@.subrange(0, i as int)),
                    decreases children@.len() - i,
                {
                    proof {
                        lemma_seq_size_index(children@, i as int);
                        assert(node_size(*self) == 1 + seq_size(children@));
                    }
                    let t = children[i].text();
                    out.append(t.as_str());
                    proof {
                        let pre = children@.subrange(0, i + 1);
                        assert(pre.subrange(0, pre.len() - 1) =~= children@.subrange(0, i as int));
                        assert(pre[pre.len() - 1] == children@[i as int]);
                    }
                    i = i + 1;
                }
                proof {
                    assert(children@.subrange(0, children@.len() as int) =~= children@);
                }
                out
            },
        }
    }

    /// The serialization of this node's subtree.
    #[verifier::loop_isolation(false)]
    pub fn html(&self) -> (r: String)
        ensures
            r@ == html_of(*self),
        decreases node_size(*self),
    {
        match self {
            DomNode::Text { text } => text.clone(),
            DomNode::Element { name, attrs, children } => {
                let mut out = String::new();
                out.append("<");
                out.append(name.as_str());
                let mut i: usize = 0;
                while i < attrs.len()
                    invariant
                        0 <= i <= attrs@.len(),
                        out@ == "<"@ + name@ + html_attrs(attrs@.subrange(0, i as int)),
                    decreases attrs@.len() - i,
                {
                    out.append(" ");
                    out.append(attrs[i].0.as_str());
                    out.append("=\"");
                    out.append(attrs[i].1.as_str());
                    out.append("\"");
                    proof {
                        let pre = attrs@.subrange(0, i + 1);
                        assert(pre.subrange(0, pre.len() - 1) =~= attrs@.subrange(0, i as int));
                        assert(pre[pre.len() - 1] == attrs@[i as int]);
                        assert(out@ =~= "<"@ + name@ + html_attrs(attrs@.subrange(0, i + 1)));
                    }
                    i = i + 1;
                }
                proof {
                    assert(attrs@.subrange(0, attrs@.len() as int) =~= attrs@);
                }
                out.append(">");
                let ghost head = "<"@ + name@ + html_attrs(attrs@) + ">"@;
                let mut j: usize = 0;
                while j < children.len()
                    invariant
                        0 <= j <= children@.len(),
                        out@ == head + html_children(children@.subrange(0, j as int)),
                    decreases children@.len() - j,
                {
                    proof {
                        lemma_seq_size_index(children@, j as int);
                        assert(node_size(*self) == 1 + seq_size(children@));
                    }
                    let h = children[j].html();
                    out.append(h.as_str());
                    proof {
                        let pre = children@.subrange(0, j + 1);
                        assert(pre.subrange(0, pre.len() - 1) =~= children@.subrange(0, j as int));
                        assert(pre[pre.len() - 1] == children@[j as int]);
                        assert(out@ =~= head + html_children(children@.subrange(0, j + 1)));
                    }
                    j = j + 1;
                }
                proof {
                    assert(children@.subrange(0, children@.len() as int) =~= children@);
                }
                out.append("</");
                out.append(name.as_str());
                out.append(">");
                proof {
                    assert(out@ =~= html_of(*self));
                }
                out
            },
        }
    }
}

} // verus!
