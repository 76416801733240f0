//! Assembling the final document: one block per case, in index order,
//! each holding its heading and its sections' headings and extracted
//! bodies, concatenated in the order they are given.

use vstd::prelude::*;
use vstd::string::StringExecFns;

verus! {

/// The text of one case's sections: `<h2>name</h2>` on a line, then the
/// section's extracted body, per section in order.
pub open spec fn sections_block(parts: Seq<(Seq<char>, Seq<char>)>) -> Seq<char>
    decreases parts,
{
    if parts.len() == 0 {
        Seq::empty()
    } else {
        sections_block(parts.subrange(0, parts.len() - 1)) + "<h2>"@ + parts[parts.len() - 1].0
            + "</h2>\n"@ + parts[parts.len() - 1].1
    }
}

/// The text of one case: `<h1>name</h1>` on a line, its section blocks,
/// and a trailing newline.
pub open spec fn case_block(name: Seq<char>, parts: Seq<(Seq<char>, Seq<char>)>) -> Seq<char> {
    "<h1>"@ + name + "</h1>\n"@ + sections_block(parts) + "\n"@
}

/// The views of a list of (section name, extracted body) pairs.
pub open spec fn part_views(parts: Seq<(String, String)>) -> Seq<(Seq<char>, Seq<char>)> {
    parts.map_values(|p: (String, String)| (p.0@, p.1@))
}

/// Renders one case's text from its name and its sections' names and
/// extracted bodies, kept in the order given.
#[verifier::loop_isolation(false)]
pub fn render_case(name: &str, parts: &Vec<(String, String)>) -> (r: String)
    ensures
        r@ == case_block(name@, part_views(parts@)),
{
    let ghost m = part_views(parts@);
    let mut out = String::new();
    out.append("<h1>");
    out.append(name);
    out.append("</h1>\n");
    let ghost head = "<h1>"@ + name@ + "</h1>\n"@;
    let mut i: usize = 0;
    while i < parts.len()
        invariant
            0 <= i <= parts@.len(),
            out@ == head + sections_block(m.take(i as int)),
        decreases parts@.len() - i,
    {
        out.append("<h2>");
        out.append(parts[i].0.as_str());
        out.append("</h2>\n");
        out.append(parts[i].1.as_str());
        proof {
            let pre = m.take(i + 1);
            assert(pre.subrange(0, pre.len() - 1) =~= m.take(i as int));
            assert(pre[pre.len() - 1] == m[i as int]);
            assert(out@ =~= head + sections_block(m.take(i + 1)));
        }
        i = i + 1;
    }
    proof {
        assert(m.take(m.len() as int) =~= m);
    }
    out.append("\n");
    proof {
        assert(out@ =~= case_block(name@, m));
    }
    out
}

/// The concatenation of case texts, in the order given.
pub open spec fn concat_texts(texts: Seq<Seq<char>>) -> Seq<char>
    decreases texts,
{
    if texts.len() == 0 {
        Seq::empty()
    } else {
        concat_texts(texts.subrange(0, texts.len() - 1)) + texts[texts.len() - 1]
    }
}

/// Concatenates the case texts in the order given: the artifact lists
/// the cases exactly as the index listed them, whatever order their
/// texts were produced in.
#[verifier::loop_isolation(false)]
pub fn assemble(texts: &Vec<String>) -> (r: String)
    ensures
        r@ == concat_texts(texts@.map_values(|s: String| s@)),
{
    let ghost m = texts@.map_values(|s: String| s@);
    let mut out = String::new();
    let mut i: usize = 0;
    while i < texts.len()
        invariant
            0 <= i <= texts@.len(),
            out@ == concat_texts(m.take(i as int)),
        decreases texts@.len() - i,
    {
        out.append(texts[i].as_str());
        proof {
            let pre = m.take(i + 1);
            assert(pre.subrange(0, pre.len() - 1) =~= m.take(i as int));
            assert(pre[pre.len() - 1] == m[i as int]);
            assert(out@ =~= concat_texts(m.take(i + 1)));
        }
        i = i + 1;
    }
    proof {
        assert(m.take(m.len() as int) =~= m);
    }
    out
}

/// Concatenation splits around any cut: the texts before it, then the
/// texts after it.
pub proof fn lemma_concat_texts_split(a: Seq<Seq<char>>, b: Seq<Seq<char>>)
    ensures
        concat_texts(a + b) == concat_texts(a) + concat_texts(b),
    decreases b,
{
    if b.len() == 0 {
        assert(a + b =~= a);
        assert(concat_texts(a) + concat_texts(b) =~= concat_texts(a));
    } else {
        lemma_concat_texts_split(a, b.subrange(0, b.len() - 1));
        assert((a + b).subrange(0, (a + b).len() - 1) =~= a + b.subrange(0, b.len() - 1));
        assert((a + b)[(a + b).len() - 1] == b[b.len() - 1]);
        assert(concat_texts(a) + (concat_texts(b.subrange(0, b.len() - 1)) + b[b.len() - 1])
            =~= (concat_texts(a) + concat_texts(b.subrange(0, b.len() - 1))) + b[b.len() - 1]);
    }
}

/// Each case's text stands in the artifact at its own index position:
/// the assembled document keeps the order of the given case texts, so
/// the order of cases (and of the sections rendered inside each text)
/// survives however the texts themselves were computed.
pub proof fn lemma_assemble_keeps_order(texts: Seq<Seq<char>>, i: int)
    requires
        0 <= i < texts.len(),
    ensures
        concat_texts(texts) == concat_texts(texts.take(i)) + texts[i] + concat_texts(
            texts.skip(i + 1),
        ),
{
    let mid = seq![texts[i]];
    assert(texts =~= (texts.take(i) + mid) + texts.skip(i + 1));
    lemma_concat_texts_split(texts.take(i) + mid, texts.skip(i + 1));
    lemma_concat_texts_split(texts.take(i), mid);
    assert(concat_texts(mid) == concat_texts(mid.subrange(0, 0)) + mid[0]);
    assert(concat_texts(mid.subrange(0, 0)) + mid[0] =~= mid[0]);
}

} // verus!
