//! Markdown emphasis codec: a run's formatting flags map to toggle-style
//! markers (`**bold**`, `*italic*`, `__underline__`), and a marked-up line is
//! scanned back into runs by flipping flags at each marker.
//!
//! Underline is write-only: the decode grammar treats any two identical
//! consecutive marker characters as a bold toggle, so a `__…__` span decodes
//! as bold and underline does not survive an encode–decode round trip. The
//! round-trip law in [`crate::laws`] therefore speaks of runs without
//! underline.

use vstd::prelude::*;

use crate::model::{Paragraph, SpecParagraph, SpecRun};
use crate::text::{spec_is_blank, is_blank, chars_to_string};

verus! {

/// The Markdown image of one run: its text wrapped in `**…**` when bold,
/// then in `*…*` when italic, then in `__…__` when underlined.
pub open spec fn spec_encode_run(r: SpecRun) -> Seq<char> {
    let b = if r.bold {
        seq!['*', '*'] + r.text + seq!['*', '*']
    } else {
        r.text
    };
    let i = if r.italic {
        seq!['*'] + b + seq!['*']
    } else {
        b
    };
    if r.underline {
        seq!['_', '_'] + i + seq!['_', '_']
    } else {
        i
    }
}

/// The Markdown images of the runs with non-empty text, concatenated in
/// document order.
pub open spec fn spec_encode_runs(runs: Seq<SpecRun>) -> Seq<char>
    decreases runs.len(),
{
    if runs.len() == 0 {
        Seq::empty()
    } else if runs[0].text.len() == 0 {
        spec_encode_runs(runs.drop_first())
    } else {
        spec_encode_run(runs[0]) + spec_encode_runs(runs.drop_first())
    }
}

/// No run of the paragraph carries any text.
pub open spec fn spec_all_runs_empty(runs: Seq<SpecRun>) -> bool {
    forall|i: int| 0 <= i < runs.len() ==> runs[i].text.len() == 0
}

/// The Markdown line for one paragraph: blank paragraphs give an empty line;
/// a paragraph whose runs carry no text falls back to its aggregate plain
/// text; otherwise the runs' Markdown images are concatenated.
pub open spec fn spec_paragraph_to_markdown(p: SpecParagraph) -> Seq<char> {
    if spec_is_blank(p.plain) {
        Seq::empty()
    } else if spec_all_runs_empty(p.runs) {
        p.plain
    } else {
        spec_encode_runs(p.runs)
    }
}

/// Appends `src` to `dst`.
pub fn push_all(dst: &mut Vec<char>, src: &Vec<char>)
    ensures
        final(dst)@ == old(dst)@ + src@,
{
    let mut k: usize = 0;
    proof {
        assert(dst@ =~= old(dst)@ + src@.subrange(0, 0));
    }
    while k < src.len()
        invariant
            0 <= k <= src.len(),
            dst@ == old(dst)@ + src@.subrange(0, k as int),
        decreases src.len() - k,
    {
        dst.push(src[k]);
        proof {
            assert(src@.subrange(0, k + 1) =~= src@.subrange(0, k as int).push(src@[k as int]));
            assert(dst@ =~= old(dst)@ + src@.subrange(0, k + 1));
        }
        k = k + 1;
    }
    proof {
        assert(src@.subrange(0, src@.len() as int) =~= src@);
    }
}

/// The Markdown image of one run, as characters.
fn encode_run(r: &crate::model::Run) -> (out: Vec<char>)
    ensures
        out@ == spec_encode_run(r@),
{
    let mut out: Vec<char> = Vec::new();
    if r.underline {
        out.push('_');
        out.push('_');
    }
    if r.italic {
        out.push('*');
    }
    if r.bold {
        out.push('*');
        out.push('*');
    }
    push_all(&mut out, &r.text);
    if r.bold {
        out.push('*');
        out.push('*');
    }
    if r.italic {
        out.push('*');
    }
    if r.underline {
        out.push('_');
        out.push('_');
    }
    proof {
        assert(out@ =~= spec_encode_run(r@));
    }
    out
}

/// The Markdown line for one paragraph.
pub fn paragraph_to_markdown(p: &Paragraph) -> (out: Vec<char>)
    ensures
        out@ == spec_paragraph_to_markdown(p@),
{
    if is_blank(&p.plain) {
        let out: Vec<char> = Vec::new();
        return out;
    }
    let mut parts: Vec<char> = Vec::new();
    let mut any: bool = false;
    let mut i: usize = 0;
    proof {
        assert(p@.runs.subrange(0, p@.runs.len() as int) =~= p@.runs);
    }
    while i < p.runs.len()
        invariant
            0 <= i <= p.runs.len(),
            p@.runs.len() == p.runs@.len(),
            spec_encode_runs(p@.runs) =~= parts@ + spec_encode_runs(
                p@.runs.subrange(i as int, p@.runs.len() as int),
            ),
            any <==> !spec_all_runs_empty(p@.runs.subrange(0, i as int)),
        decreases p.runs.len() - i,
    {
        let ghost rest = p@.runs.subrange(i as int, p@.runs.len() as int);
        proof {
            assert(rest[0] == p.runs@[i as int]@);
            assert(rest.drop_first() =~= p@.runs.subrange(i + 1, p@.runs.len() as int));
        }
        let run = &p.runs[i];
        if run.text.len() > 0 {
            let enc = encode_run(run);
            push_all(&mut parts, &enc);
            any = true;
            proof {
                assert(!spec_all_runs_empty(p@.runs.subrange(0, i + 1))) by {
                    assert(p@.runs.subrange(0, i + 1)[i as int].text.len() > 0);
                }
            }
        } else {
            proof {
                let pre0 = p@.runs.subrange(0, i as int);
                let pre1 = p@.runs.subrange(0, i + 1);
                if !any {
                    assert forall|k: int| 0 <= k < i + 1 implies pre1[k].text.len() == 0 by {
                        if k < i {
                            assert(pre0[k].text.len() == 0);
                            assert(pre1[k] == pre0[k]);
                        } else {
                            assert(pre1[k] == p.runs@[i as int]@);
                        }
                    }
                } else {
                    assert(!spec_all_runs_empty(pre0));
                    let w = choose|k: int|
                        0 <= k < pre0.len() && #[trigger] pre0[k].text.len() != 0;
                    assert(pre1[w] == pre0[w]);
                    assert(!spec_all_runs_empty(pre1));
                }
            }
        }
        i = i + 1;
    }
    proof {
        assert(p@.runs.subrange(0, p@.runs.len() as int) =~= p@.runs);
        assert(spec_encode_runs(p@.runs.subrange(i as int, p@.runs.len() as int)) =~= Seq::<
            char,
        >::empty());
    }
    if any {
        proof {
            assert(parts@ =~= spec_encode_runs(p@.runs));
        }
        parts
    } else {
        let mut out: Vec<char> = Vec::new();
        push_all(&mut out, &p.plain);
        proof {
            assert(out@ =~= p@.plain);
        }
        out
    }
}

/// The Markdown text for a whole document: one line per paragraph, in order.
pub open spec fn spec_document_to_markdown(paras: Seq<SpecParagraph>) -> Seq<char> {
    crate::text::spec_join_lines(paras.map_values(|p: SpecParagraph| spec_paragraph_to_markdown(p)))
}

/// Converts an ordered sequence of paragraphs to Markdown text, one line per
/// paragraph, joined with newlines.
pub fn document_to_markdown(paras: &Vec<Paragraph>) -> (r: String)
    ensures
        r@ == spec_document_to_markdown(paras@.map_values(|p: Paragraph| p@)),
{
    let mut lines: Vec<Vec<char>> = Vec::new();
    let mut i: usize = 0;
    while i < paras.len()
        invariant
            0 <= i <= paras.len(),
            lines.deep_view() =~= paras@.subrange(0, i as int).map_values(
                |p: Paragraph| p@,
            ).map_values(|p: SpecParagraph| spec_paragraph_to_markdown(p)),
        decreases paras.len() - i,
    {
        let ghost pre = lines.deep_view();
        let line = paragraph_to_markdown(&paras[i]);
        let ghost linev = line@;
        lines.push(line);
        proof {
            assert(lines.deep_view() =~= pre.push(lines@[lines@.len() - 1].deep_view()));
            assert(lines@[lines@.len() - 1].deep_view() =~= linev);
            assert(paras@.subrange(0, i + 1).map_values(|p: Paragraph| p@).map_values(
                |p: SpecParagraph| spec_paragraph_to_markdown(p),
            ) =~= pre.push(spec_paragraph_to_markdown(paras@[i as int]@)));
        }
        i = i + 1;
    }
    proof {
        assert(paras@.subrange(0, i as int) =~= paras@);
    }
    let joined = crate::text::join_lines(&lines);
    chars_to_string(&joined)
}

} // verus!
