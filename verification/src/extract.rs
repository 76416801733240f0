//! Extracting the article body from a section page: for every content
//! container, drop its final child unconditionally, keep children up to
//! the first stop element (an embedded next-section heading, a table, an
//! image link, or boilerplate marker text), and join their
//! serializations with newlines.

use vstd::prelude::*;
use vstd::string::StringExecFns;
use crate::dom::{
    DomNode, children_of, has_tag, html_of, lemma_seq_size_index, node_size, node_text, seq_size,
    spec_has_class,
};
use crate::scan::{chars_of, contains_chars, contains_sub};
use crate::skip_last::truncate_last;

verus! {

/// The node itself is a heading directly containing a link.
pub open spec fn heading_link_at(n: DomNode) -> bool {
    has_tag(n, "h3"@) && exists|i: int|
        0 <= i < children_of(n).len() && has_tag(children_of(n)[i], "a"@)
}

/// The node itself is a link directly containing an image.
pub open spec fn image_link_at(n: DomNode) -> bool {
    has_tag(n, "a"@) && exists|i: int|
        0 <= i < children_of(n).len() && has_tag(children_of(n)[i], "img"@)
}

/// Somewhere in the node's subtree a heading directly contains a link.
pub open spec fn has_heading_link(n: DomNode) -> bool
    decreases n,
{
    heading_link_at(n) || (match n {
        DomNode::Text { .. } => false,
        DomNode::Element { children, .. } => any_heading_link(children@),
    })
}

/// Some node of `s` has a heading-directly-containing-a-link in its subtree.
pub open spec fn any_heading_link(s: Seq<DomNode>) -> bool
    decreases s,
{
    if s.len() == 0 {
        false
    } else {
        any_heading_link(s.subrange(0, s.len() - 1)) || has_heading_link(s[s.len() - 1])
    }
}

/// Somewhere in the node's subtree a link directly contains an image.
pub open spec fn has_link_image(n: DomNode) -> bool
    decreases n,
{
    image_link_at(n) || (match n {
        DomNode::Text { .. } => false,
        DomNode::Element { children, .. } => any_link_image(children@),
    })
}

/// Some node of `s` has a link-directly-containing-an-image in its subtree.
pub open spec fn any_link_image(s: Seq<DomNode>) -> bool
    decreases s,
{
    if s.len() == 0 {
        false
    } else {
        any_link_image(s.subrange(0, s.len() - 1)) || has_link_image(s[s.len() - 1])
    }
}

pub proof fn lemma_any_heading_link_iff(s: Seq<DomNode>)
    ensures
        any_heading_link(s) <==> exists|i: int| 0 <= i < s.len() && has_heading_link(s[i]),
    decreases s,
{
    if s.len() > 0 {
        lemma_any_heading_link_iff(s.subrange(0, s.len() - 1));
        if any_heading_link(s.subrange(0, s.len() - 1)) {
            let i = choose|i: int|
                0 <= i < s.len() - 1 && #[trigger] has_heading_link(s.subrange(0, s.len() - 1)[i]);
            assert(s.subrange(0, s.len() - 1)[i] == s[i]);
        }
        if exists|i: int| 0 <= i < s.len() && has_heading_link(s[i]) {
            let i = choose|i: int| 0 <= i < s.len() && #[trigger] has_heading_link(s[i]);
            if i < s.len() - 1 {
                assert(s.subrange(0, s.len() - 1)[i] == s[i]);
            }
        }
    }
}

pub proof fn lemma_any_link_image_iff(s: Seq<DomNode>)
    ensures
        any_link_image(s) <==> exists|i: int| 0 <= i < s.len() && has_link_image(s[i]),
    decreases s,
{
    if s.len() > 0 {
        lemma_any_link_image_iff(s.subrange(0, s.len() - 1));
        if any_link_image(s.subrange(0, s.len() - 1)) {
            let i = choose|i: int|
                0 <= i < s.len() - 1 && #[trigger] has_link_image(s.subrange(0, s.len() - 1)[i]);
            assert(s.subrange(0, s.len() - 1)[i] == s[i]);
        }
        if exists|i: int| 0 <= i < s.len() && has_link_image(s[i]) {
            let i = choose|i: int| 0 <= i < s.len() && #[trigger] has_link_image(s[i]);
            if i < s.len() - 1 {
                assert(s.subrange(0, s.len() - 1)[i] == s[i]);
            }
        }
    }
}

/// Extraction stops at this element: it signals the next section, tabular
/// data, an image link, or one of the fixed boilerplate marker texts.
pub open spec fn is_stop(n: DomNode) -> bool {
    has_heading_link(n) || has_tag(n, "table"@) || has_link_image(n) || (has_tag(n, "b"@)
        && contains_sub(node_text(n), "Continued in PART"@)) || contains_sub(
        node_text(n),
        "ENTIRE case file index"@,
    ) || contains_sub(node_text(n), "Read all of my case files"@)
}

/// The position of the first stop element of `s`, or `s.len()` if none.
pub open spec fn stop_idx(s: Seq<DomNode>) -> int
    decreases s,
{
    if s.len() == 0 {
        0
    } else if is_stop(s[0]) {
        0
    } else {
        1 + stop_idx(s.subrange(1, s.len() as int))
    }
}

/// `stop_idx` is exactly the position of the first stop element.
pub proof fn lemma_stop_idx_at(s: Seq<DomNode>, i: int)
    requires
        0 <= i <= s.len(),
        forall|k: int| 0 <= k < i ==> !is_stop(s[k]),
        i < s.len() ==> is_stop(s[i]),
    ensures
        stop_idx(s) == i,
    decreases i,
{
    if i > 0 {
        let t = s.subrange(1, s.len() as int);
        assert(forall|k: int| 0 <= k < i - 1 ==> t[k] == s[k + 1]);
        lemma_stop_idx_at(t, i - 1);
    }
}

/// A table anywhere in the sequence bounds the retained prefix: the cut
/// comes no later than the table, whatever follows it.
pub proof fn lemma_stop_before_table(s: Seq<DomNode>, i: int)
    requires
        0 <= i < s.len(),
        has_tag(s[i], "table"@),
    ensures
        stop_idx(s) <= i,
    decreases i,
{
    if !is_stop(s[0]) {
        let t = s.subrange(1, s.len() as int);
        assert(t[i - 1] == s[i]);
        lemma_stop_before_table(t, i - 1);
    }
}

/// The container's children with the final one dropped unconditionally.
pub open spec fn trunc_children(c: DomNode) -> Seq<DomNode> {
    let ch = children_of(c);
    if ch.len() == 0 {
        ch
    } else {
        ch.take(ch.len() - 1)
    }
}

/// The children a container contributes to the article body: everything
/// before the first stop element of its truncated child sequence.
pub open spec fn kept_children(c: DomNode) -> Seq<DomNode> {
    trunc_children(c).take(stop_idx(trunc_children(c)))
}

/// Fragments joined with a newline between each adjacent pair.
pub open spec fn join_nl(frags: Seq<Seq<char>>) -> Seq<char>
    decreases frags,
{
    if frags.len() == 0 {
        Seq::empty()
    } else if frags.len() == 1 {
        frags[0]
    } else {
        join_nl(frags.subrange(0, frags.len() - 1)) + "\n"@ + frags[frags.len() - 1]
    }
}

/// One container's extracted fragment: its kept children serialized and
/// joined with newlines.
pub open spec fn fragment_of(c: DomNode) -> Seq<char> {
    join_nl(kept_children(c).map_values(|n: DomNode| html_of(n)))
}

/// A content container: an element marked by one of the two content
/// container classes.
pub open spec fn is_container(n: DomNode) -> bool {
    spec_has_class(n, "blog-content"@) || spec_has_class(n, "blogs_entrybody"@)
}

/// The extracted fragments of every content container in the subtree of
/// `n`, in document order.
pub open spec fn fragments_in(n: DomNode) -> Seq<Seq<char>>
    decreases n,
{
    let here: Seq<Seq<char>> = if is_container(n) {
        seq![fragment_of(n)]
    } else {
        Seq::empty()
    };
    match n {
        DomNode::Text { .. } => here,
        DomNode::Element { children, .. } => here + fragments_in_children(children@),
    }
}

/// The extracted fragments below each node of `s`, concatenated.
pub open spec fn fragments_in_children(s: Seq<DomNode>) -> Seq<Seq<char>>
    decreases s,
{
    if s.len() == 0 {
        Seq::empty()
    } else {
        fragments_in_children(s.subrange(0, s.len() - 1)) + fragments_in(s[s.len() - 1])
    }
}

/// The whole page's extracted article body: every container's fragment,
/// joined with newlines.
pub open spec fn section_text(d: DomNode) -> Seq<char> {
    join_nl(fragments_in(d))
}

/// Whether some direct child of `n` is an element tagged `tag`.
#[verifier::loop_isolation(false)]
fn any_direct_child_tag(n: &DomNode, tag: &str) -> (r: bool)
    ensures
        r == exists|i: int| 0 <= i < children_of(*n).len() && has_tag(children_of(*n)[i], tag@),
{
    match n {
        DomNode::Text { .. } => false,
        DomNode::Element { children, .. } => {
            let mut i: usize = 0;
            while i < children.len()
                invariant
                    0 <= i <= children@.len(),
                    forall|k: int| 0 <= k < i ==> !has_tag(children@[k], tag@),
                decreases children@.len() - i,
            {
                if children[i].tag_is(tag) {
                    proof {
                        assert(has_tag(children_of(*n)[i as int], tag@));
                    }
                    return true;
                }
                i = i + 1;
            }
            false
        },
    }
}

/// Whether a heading directly containing a link stands in `n`'s subtree.
#[verifier::loop_isolation(false)]
fn find_heading_link(n: &DomNode) -> (r: bool)
    ensures
        r == has_heading_link(*n),
    decreases node_size(*n),
{
    if n.tag_is("h3") && any_direct_child_tag(n, "a") {
        return true;
    }
    match n {
        DomNode::Text { .. } => false,
        DomNode::Element { children, .. } => {
            proof {
                lemma_any_heading_link_iff(children@);
            }
            let mut i: usize = 0;
            while i < children.len()
                invariant
                    0 <= i <= children@.len(),
                    forall|k: int| 0 <= k < i ==> !has_heading_link(children@[k]),
                decreases children@.len() - i,
            {
                proof {
                    lemma_seq_size_index(children@, i as int);
                    assert(node_size(*n) == 1 + seq_size(children@));
                }
                if find_heading_link(&children[i]) {
                    return true;
                }
                i = i + 1;
            }
            false
        },
    }
}

/// Whether a link directly containing an image stands in `n`'s subtree.
#[verifier::loop_isolation(false)]
fn find_link_image(n: &DomNode) -> (r: bool)
    ensures
        r == has_link_image(*n),
    decreases node_size(*n),
{
    if n.tag_is("a") && any_direct_child_tag(n, "img") {
        return true;
    }
    match n {
        DomNode::Text { .. } => false,
        DomNode::Element { children, .. } => {
            proof {
                lemma_any_link_image_iff(children@);
            }
            let mut i: usize = 0;
            while i < children.len()
                invariant
                    0 <= i <= children@.len(),
                    forall|k: int| 0 <= k < i ==> !has_link_image(children@[k]),
                decreases children@.len() - i,
            {
                proof {
                    lemma_seq_size_index(children@, i as int);
                    assert(node_size(*n) == 1 + seq_size(children@));
                }
                if find_link_image(&children[i]) {
                    return true;
                }
                i = i + 1;
            }
            false
        },
    }
}

/// Whether extraction stops at this element.
fn is_stop_elem(n: &DomNode) -> (r: bool)
    ensures
        r == is_stop(*n),
{
    if find_heading_link(n) {
        return true;
    }
    if n.tag_is("table") {
        return true;
    }
    if find_link_image(n) {
        return true;
    }
    let t = n.text();
    let tc = chars_of(t.as_str());
    if n.tag_is("b") {
        let pat = chars_of("Continued in PART");
        if contains_chars(&tc, &pat) {
            return true;
        }
    }
    let pat2 = chars_of("ENTIRE case file index");
    if contains_chars(&tc, &pat2) {
        return true;
    }
    let pat3 = chars_of("Read all of my case files");
    contains_chars(&tc, &pat3)
}

/// One container's extracted fragment.
#[verifier::loop_isolation(false)]
fn extract_fragment(c: &DomNode) -> (r: String)
    ensures
        r@ == fragment_of(*c),
{
    match c {
        DomNode::Text { .. } => {
            proof {
                assert(kept_children(*c).map_values(|n: DomNode| html_of(n))
                    =~= Seq::<Seq<char>>::empty());
            }
            String::new()
        },
        DomNode::Element { children, .. } => {
            let ghost tr = trunc_children(*c);
            let mut refs: Vec<&DomNode> = Vec::new();
            let mut i: usize = 0;
            while i < children.len()
                invariant
                    0 <= i <= children@.len(),
                    refs@.len() == i,
                    forall|k: int| 0 <= k < i ==> *refs@[k] == children@[k],
                decreases children@.len() - i,
            {
                refs.push(&children[i]);
                i = i + 1;
            }
            let trunc = truncate_last(refs);
            proof {
                assert(trunc@.len() == tr.len());
                assert(forall|k: int| 0 <= k < tr.len() ==> *trunc@[k] == tr[k]);
            }
            let ghost m = tr.map_values(|n: DomNode| html_of(n));
            let mut out = String::new();
            let mut k: usize = 0;
            while k < trunc.len()
                invariant
                    0 <= k <= tr.len(),
                    trunc@.len() == tr.len(),
                    forall|j: int| 0 <= j < tr.len() ==> *trunc@[j] == tr[j],
                    forall|j: int| 0 <= j < k ==> !is_stop(tr[j]),
                    out@ == join_nl(m.take(k as int)),
                decreases tr.len() - k,
            {
                let el: &DomNode = trunc[k];
                if is_stop_elem(el) {
                    proof {
                        lemma_stop_idx_at(tr, k as int);
                        assert(kept_children(*c).map_values(|n: DomNode| html_of(n))
                            =~= m.take(k as int));
                    }
                    return out;
                }
                if k > 0 {
                    out.append("\n");
                }
                let h = el.html();
                out.append(h.as_str());
                proof {
                    let pre = m.take(k + 1);
                    assert(pre.subrange(0, pre.len() - 1) =~= m.take(k as int));
                    assert(pre[pre.len() - 1] == html_of(tr[k as int]));
                    assert(out@ =~= join_nl(m.take(k + 1)));
                }
                k = k + 1;
            }
            proof {
                lemma_stop_idx_at(tr, tr.len() as int);
                assert(m.take(tr.len() as int) =~= m);
                assert(kept_children(*c).map_values(|n: DomNode| html_of(n)) =~= m);
            }
            out
        },
    }
}

/// Collects every container's extracted fragment below `n`, in document
/// order.
#[verifier::loop_isolation(false)]
fn collect_fragments(n: &DomNode, out: &mut Vec<String>)
    ensures
        final(out)@.map_values(|s: String| s@) == old(out)@.map_values(|s: String| s@)
            + fragments_in(*n),
    decreases node_size(*n),
{
    let ghost pre = old(out)@.map_values(|s: String| s@);
    if n.has_class("blog-content") || n.has_class("blogs_entrybody") {
        out.push(extract_fragment(n));
    }
    let ghost here: Seq<Seq<char>> = if is_container(*n) {
        seq![fragment_of(*n)]
    } else {
        Seq::empty()
    };
    proof {
        assert(out@.map_values(|s: String| s@) =~= pre + here);
    }
    match n {
        DomNode::Text { .. } => {
            proof {
                assert(out@.map_values(|s: String| s@) =~= pre + fragments_in(*n));
            }
        },
        DomNode::Element { children, .. } => {
            let mut i: usize = 0;
            while i < children.len()
                invariant
                    0 <= i <= children@.len(),
                    out@.map_values(|s: String| s@) == pre + here + fragments_in_children(
                        children@.subrange(0, i as int),
                    ),
                decreases children@.len() - i,
            {
                proof {
                    lemma_seq_size_index(children@, i as int);
                    assert(node_size(*n) == 1 + seq_size(children@));
                }
                collect_fragments(&children[i], out);
                proof {
                    let prefix = children@.subrange(0, i + 1);
                    assert(prefix.subrange(0, prefix.len() - 1) =~= children@.subrange(
                        0,
                        i as int,
                    ));
                    assert(prefix[prefix.len() - 1] == children@[i as int]);
                    assert(out@.map_values(|s: String| s@) =~= pre + here
                        + fragments_in_children(prefix));
                }
                i = i + 1;
            }
            proof {
                assert(children@.subrange(0, children@.len() as int) =~= children@);
                assert(out@.map_values(|s: String| s@) =~= pre + fragments_in(*n));
            }
        },
    }
}

/// The page's extracted article body: every content container's kept
/// children serialized, containers and children joined with newlines.
#[verifier::loop_isolation(false)]
pub fn get_section_text(doc: &DomNode) -> (r: String)
    ensures
        r@ == section_text(*doc),
{
    let mut frags: Vec<String> = Vec::new();
    collect_fragments(doc, &mut frags);
    proof {
        assert(frags@.map_values(|s: String| s@) =~= fragments_in(*doc));
    }
    let ghost m = fragments_in(*doc);
    let mut out = String::new();
    let mut k: usize = 0;
    while k < frags.len()
        invariant
            0 <= k <= frags@.len(),
            frags@.map_values(|s: String| s@) == m,
            out@ == join_nl(m.take(k as int)),
        decreases frags@.len() - k,
    {
        if k > 0 {
            out.append("\n");
        }
        out.append(frags[k].as_str());
        proof {
            let pre = m.take(k + 1);
            assert(pre.subrange(0, pre.len() - 1) =~= m.take(k as int));
            assert(pre[pre.len() - 1] == m[k as int]);
            assert(out@ =~= join_nl(m.take(k + 1)));
        }
        k = k + 1;
    }
    proof {
        assert(m.take(m.len() as int) =~= m);
    }
    out
}

/// Extraction is a pure function of the document: any two results that
/// meet `get_section_text`'s contract for the same document are equal.
pub proof fn lemma_get_section_text_deterministic(doc: DomNode, r1: String, r2: String)
    requires
        r1@ == section_text(doc),
        r2@ == section_text(doc),
    ensures
        r1@ == r2@,
{
}

} // verus!
