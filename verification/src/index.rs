//! Parsing the index page into an ordered list of cases, each an ordered
//! list of sections. The filtered element stream of the index page is
//! expected to open with a separator, carry headings and links, and end
//! at a terminal separator before the footer; anything else is reported
//! as a structural violation instead of aborting.

use vstd::prelude::*;
use crate::dom::{
    DomNode, attr_of, has_tag, lemma_seq_size_index, node_size, node_text, seq_size,
    spec_has_class,
};

verus! {

/// A named link to one section page of a case.
#[derive(Debug, PartialEq)]
pub struct Section {
    pub name: String,
    pub link: String,
}

/// Mathematical image of a `Section`.
#[verifier::ext_equal]
pub struct SectionView {
    pub name: Seq<char>,
    pub link: Seq<char>,
}

impl View for Section {
    type V = SectionView;

    open spec fn view(&self) -> SectionView {
        SectionView { name: self.name@, link: self.link@ }
    }
}

/// A case: its heading text and its sections in first-encountered order.
#[derive(Debug, PartialEq)]
pub struct Case {
    pub name: String,
    pub sections: Vec<Section>,
}

/// Mathematical image of a `Case`.
#[verifier::ext_equal]
pub struct CaseView {
    pub name: Seq<char>,
    pub sections: Seq<SectionView>,
}

impl View for Case {
    type V = CaseView;

    open spec fn view(&self) -> CaseView {
        CaseView {
            name: self.name@,
            sections: self.sections@.map_values(|s: Section| s@),
        }
    }
}

/// One element of the filtered index stream: a case heading, a section
/// link (with its target, if it has one), or a structural separator.
#[derive(Debug, PartialEq)]
pub enum IndexEntry {
    Heading { name: String },
    Link { name: String, href: Option<String> },
    Separator,
}

/// Mathematical image of an `IndexEntry`.
pub enum EntryView {
    Heading { name: Seq<char> },
    Link { name: Seq<char>, href: Option<Seq<char>> },
    Separator,
}

impl View for IndexEntry {
    type V = EntryView;

    open spec fn view(&self) -> EntryView {
        match self {
            IndexEntry::Heading { name } => EntryView::Heading { name: name@ },
            IndexEntry::Link { name, href } => (EntryView::Link {
                name: name@,
                href: match href {
                    Some(h) => Some(h@),
                    None => None,
                },
            }),
            IndexEntry::Separator => EntryView::Separator,
        }
    }
}

/// What an entry is, for reporting a misplaced one.
#[derive(Debug, Clone, Copy, PartialEq, Eq, Structural)]
pub enum EntryKind {
    Heading,
    Link,
    Separator,
}

/// Why the filtered index stream does not parse. Positions index into
/// the filtered stream that `parse_entries` was given.
#[derive(Debug, Clone, Copy, PartialEq, Eq, Structural)]
pub enum StructuralViolation {
    /// The content region is empty: nothing is left to name the first case.
    MissingCaseName,
    /// The element at `position` cannot stand where it does.
    UnexpectedElementKind { position: usize, kind: EntryKind },
    /// The link at `position` carries no target attribute.
    MissingLinkTarget { position: usize },
}

/// The views of a stream of entries.
pub open spec fn entry_views(s: Seq<IndexEntry>) -> Seq<EntryView> {
    s.map_values(|e: IndexEntry| e@)
}

/// The views of a list of cases.
pub open spec fn case_views(s: Seq<Case>) -> Seq<CaseView> {
    s.map_values(|c: Case| c@)
}

/// A node that the index query matches: a link, a heading, or a separator.
pub open spec fn is_index_tag(n: DomNode) -> bool {
    has_tag(n, "a"@) || has_tag(n, "h1"@) || has_tag(n, "hr"@)
}

/// The entry that a matched node contributes to the filtered stream.
pub open spec fn entry_of(n: DomNode) -> EntryView {
    if has_tag(n, "h1"@) {
        EntryView::Heading { name: node_text(n) }
    } else if has_tag(n, "a"@) {
        EntryView::Link { name: node_text(n), href: attr_of(n, "href"@) }
    } else {
        EntryView::Separator
    }
}

/// The filtered index stream below `n`, in document order: every link,
/// heading or separator that has an ancestor marked as the content
/// container. `inside` says whether such an ancestor is already above `n`.
pub open spec fn entries_in(n: DomNode, inside: bool) -> Seq<EntryView>
    decreases n,
{
    let here: Seq<EntryView> = if inside && is_index_tag(n) {
        seq![entry_of(n)]
    } else {
        Seq::empty()
    };
    match n {
        DomNode::Text { .. } => here,
        DomNode::Element { children, .. } => here + entries_in_children(
            children@,
            inside || spec_has_class(n, "blog-content"@),
        ),
    }
}

/// The filtered index stream below each node of `s`, concatenated.
pub open spec fn entries_in_children(s: Seq<DomNode>, inside: bool) -> Seq<EntryView>
    decreases s,
{
    if s.len() == 0 {
        Seq::empty()
    } else {
        entries_in_children(s.subrange(0, s.len() - 1), inside) + entries_in(
            s[s.len() - 1],
            inside,
        )
    }
}

/// The fold over the filtered stream from position `i` on: a heading
/// flushes the case under construction and opens a new one, a link adds
/// a section to it, the terminal separator or the end of the stream
/// flushes it one final time.
pub open spec fn walk_entries(
    s: Seq<EntryView>,
    i: int,
    cur: CaseView,
    done: Seq<CaseView>,
) -> Result<Seq<CaseView>, StructuralViolation>
    decreases s.len() - i,
{
    if i < 0 || i >= s.len() {
        Ok(done.push(cur))
    } else {
        match s[i] {
            EntryView::Separator => Ok(done.push(cur)),
            EntryView::Heading { name } => walk_entries(
                s,
                i + 1,
                CaseView { name, sections: Seq::empty() },
                done.push(cur),
            ),
            EntryView::Link { name, href } => match href {
                Some(link) => walk_entries(
                    s,
                    i + 1,
                    CaseView { name: cur.name, sections: cur.sections.push((SectionView {
                        name,
                        link,
                    })) },
                    done,
                ),
                None => Err(StructuralViolation::MissingLinkTarget { position: i as usize }),
            },
        }
    }
}

/// What the filtered index stream parses to: the first element is
/// discarded as the opening separator; the next must be a heading naming
/// the first case; the fold then groups links under headings until the
/// terminal separator or the end of the stream.
pub open spec fn parse_stream(s: Seq<EntryView>) -> Result<
    Seq<CaseView>,
    StructuralViolation,
> {
    if s.len() < 2 {
        Err(StructuralViolation::MissingCaseName)
    } else {
        match s[1] {
            EntryView::Separator => Err(StructuralViolation::UnexpectedElementKind {
                position: 1,
                kind: EntryKind::Separator,
            }),
            EntryView::Link { .. } => Err(StructuralViolation::UnexpectedElementKind {
                position: 1,
                kind: EntryKind::Link,
            }),
            EntryView::Heading { name } => walk_entries(
                s,
                2,
                CaseView { name, sections: Seq::empty() },
                Seq::empty(),
            ),
        }
    }
}

/// The image of a parse result.
pub open spec fn parse_result_view(r: Result<Vec<Case>, StructuralViolation>) -> Result<
    Seq<CaseView>,
    StructuralViolation,
> {
    match r {
        Ok(cs) => Ok(case_views(cs@)),
        Err(e) => Err(e),
    }
}

/// What parsing the whole index document yields.
pub open spec fn index_cases(doc: DomNode) -> Result<Seq<CaseView>, StructuralViolation> {
    parse_stream(entries_in(doc, false))
}

/// Collects the filtered index stream below `n` onto `out`, in document
/// order.
#[verifier::loop_isolation(false)]
fn collect_entries_rec(n: &DomNode, inside: bool, out: &mut Vec<IndexEntry>)
    ensures
        entry_views(final(out)@) == entry_views(old(out)@) + entries_in(*n, inside),
    decreases node_size(*n),
{
    let ghost pre = entry_views(old(out)@);
    if inside {
        if n.tag_is("h1") {
            out.push(IndexEntry::Heading { name: n.text() });
        } else if n.tag_is("a") {
            out.push(IndexEntry::Link { name: n.text(), href: n.attr("href") });
        } else if n.tag_is("hr") {
            out.push(IndexEntry::Separator);
        }
    }
    let ghost here: Seq<EntryView> = if inside && is_index_tag(*n) {
        seq![entry_of(*n)]
    } else {
        Seq::empty()
    };
    proof {
        assert(entry_views(out@) =~= pre + here);
    }
    match n {
        DomNode::Text { .. } => {
            proof {
                assert(entry_views(out@) =~= pre + entries_in(*n, inside));
            }
        },
        DomNode::Element { children, .. } => {
            let inside2 = inside || n.has_class("blog-content");
            let mut i: usize = 0;
            while i < children.len()
                invariant
                    0 <= i <= children@.len(),
                    entry_views(out@) == pre + here + entries_in_children(
                        children@.subrange(0, i as int),
                        inside2,
                    ),
                decreases children@.len() - i,
            {
                proof {
                    lemma_seq_size_index(children@, i as int);
                    assert(node_size(*n) == 1 + seq_size(children@));
                }
                collect_entries_rec(&children[i], inside2, out);
                proof {
                    let prefix = children@.subrange(0, i + 1);
                    assert(prefix.subrange(0, prefix.len() - 1) =~= children@.subrange(
                        0,
                        i as int,
                    ));
                    assert(prefix[prefix.len() - 1] == children@[i as int]);
                    assert(entry_views(out@) =~= pre + here + entries_in_children(
                        prefix,
                        inside2,
                    ));
                }
                i = i + 1;
            }
            proof {
                assert(children@.subrange(0, children@.len() as int) =~= children@);
                assert(entry_views(out@) =~= pre + entries_in(*n, inside));
            }
        },
    }
}

/// The filtered index stream of the whole document, in document order.
pub fn collect_entries(doc: &DomNode) -> (r: Vec<IndexEntry>)
    ensures
        entry_views(r@) == entries_in(*doc, false),
{
    let mut out: Vec<IndexEntry> = Vec::new();
    collect_entries_rec(doc, false, &mut out);
    proof {
        assert(entry_views(out@) =~= entries_in(*doc, false));
    }
    out
}

/// Parses a filtered index stream into cases. Returns the cases in
/// first-encountered order, or the structural violation at the first
/// offending entry.
#[verifier::loop_isolation(false)]
pub fn parse_entries(entries: &Vec<IndexEntry>) -> (r: Result<Vec<Case>, StructuralViolation>)
    ensures
        parse_result_view(r) == parse_stream(entry_views(entries@)),
{
    let ghost ev = entry_views(entries@);
    if entries.len() < 2 {
        return Err(StructuralViolation::MissingCaseName);
    }
    let first_name: String = match &entries[1] {
        IndexEntry::Separator => {
            return Err(StructuralViolation::UnexpectedElementKind {
                position: 1,
                kind: EntryKind::Separator,
            });
        },
        IndexEntry::Link { .. } => {
            return Err(StructuralViolation::UnexpectedElementKind {
                position: 1,
                kind: EntryKind::Link,
            });
        },
        IndexEntry::Heading { name } => name.clone(),
    };
    let mut done: Vec<Case> = Vec::new();
    let mut cur_name: String = first_name;
    let mut cur_secs: Vec<Section> = Vec::new();
    let mut i: usize = 2;
    proof {
        assert(case_views(done@) =~= Seq::<CaseView>::empty());
        assert(cur_secs@.map_values(|s: Section| s@) =~= Seq::<SectionView>::empty());
    }
    while i < entries.len()
        invariant
            2 <= i <= entries@.len(),
            walk_entries(
                ev,
                i as int,
                (CaseView { name: cur_name@, sections: cur_secs@.map_values(|s: Section| s@) }),
                case_views(done@),
            ) == parse_stream(ev),
        decreases entries@.len() - i,
    {
        let ghost cur = CaseView {
            name: cur_name@,
            sections: cur_secs@.map_values(|s: Section| s@),
        };
        let ghost dv = case_views(done@);
        match &entries[i] {
            IndexEntry::Separator => {
                done.push(Case { name: cur_name, sections: cur_secs });
                proof {
                    assert(case_views(done@) =~= dv.push(cur));
                }
                return Ok(done);
            },
            IndexEntry::Heading { name } => {
                done.push(Case { name: cur_name, sections: cur_secs });
                cur_name = name.clone();
                cur_secs = Vec::new();
                proof {
                    assert(case_views(done@) =~= dv.push(cur));
                    assert(cur_secs@.map_values(|s: Section| s@)
                        =~= Seq::<SectionView>::empty());
                }
            },
            IndexEntry::Link { name, href } => {
                match href {
                    None => {
                        return Err(StructuralViolation::MissingLinkTarget { position: i });
                    },
                    Some(h) => {
                        let ghost sv = cur_secs@.map_values(|s: Section| s@);
                        cur_secs.push(Section { name: name.clone(), link: h.clone() });
                        proof {
                            assert(cur_secs@.map_values(|s: Section| s@) =~= sv.push(
                                (SectionView { name: name@, link: h@ }),
                            ));
                        }
                    },
                }
            },
        }
        i = i + 1;
    }
    let ghost dv = case_views(done@);
    let ghost cur = CaseView {
        name: cur_name@,
        sections: cur_secs@.map_values(|s: Section| s@),
    };
    done.push(Case { name: cur_name, sections: cur_secs });
    proof {
        assert(case_views(done@) =~= dv.push(cur));
    }
    Ok(done)
}

/// Parses the index document: filters it to its heading, link and
/// separator elements under the content container, then groups them
/// into cases.
pub fn get_cases(doc: &DomNode) -> (r: Result<Vec<Case>, StructuralViolation>)
    ensures
        parse_result_view(r) == index_cases(*doc),
{
    let entries = collect_entries(doc);
    parse_entries(&entries)
}

/// Parsing the index is a pure function of the document: any two results
/// that meet `get_cases`'s contract for the same document are equal.
pub proof fn lemma_get_cases_deterministic(
    doc: DomNode,
    r1: Result<Vec<Case>, StructuralViolation>,
    r2: Result<Vec<Case>, StructuralViolation>,
)
    requires
        parse_result_view(r1) == index_cases(doc),
        parse_result_view(r2) == index_cases(doc),
    ensures
        parse_result_view(r1) == parse_result_view(r2),
{
}

} // verus!
