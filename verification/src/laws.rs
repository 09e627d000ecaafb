//! Cross-component laws of the emphasis codec, stated and proved over the
//! specification functions that the executable contracts use.

use vstd::prelude::*;

use crate::model::{Alignment, SpecParagraph, SpecRun};
use crate::codec::{
    spec_encode_run, spec_encode_runs, spec_paragraph_to_markdown, spec_document_to_markdown,
};
use crate::decode::{
    spec_decode_runs, spec_scan_runs, spec_flush, spec_is_marker, spec_markdown_to_document,
    SpecMdParagraph,
};
use crate::text::{spec_is_blank, spec_split_lines, spec_join_lines};

verus! {

/// A structured document of exactly one paragraph with no runs becomes the
/// empty Markdown text — one blank line — and that text becomes exactly one
/// empty, justified paragraph at the base size.
pub proof fn lemma_blank_paragraph_identity(p: SpecParagraph, base_size_pt: u32)
    requires
        base_size_pt >= 2,
        p.runs.len() == 0,
        spec_is_blank(p.plain),
    ensures
        spec_document_to_markdown(seq![p]).len() == 0,
        spec_markdown_to_document(
            spec_split_lines(spec_document_to_markdown(seq![p])),
            base_size_pt,
        ) == seq![
            SpecMdParagraph {
                runs: Seq::<SpecRun>::empty(),
                alignment: Alignment::Justify,
                font_size_pt: base_size_pt,
            },
        ],
{
    let lines = seq![p].map_values(|q: SpecParagraph| spec_paragraph_to_markdown(q));
    assert(spec_paragraph_to_markdown(p) =~= Seq::<char>::empty());
    assert(lines =~= seq![Seq::<char>::empty()]);
    assert(spec_join_lines(lines) == lines[0]);
    assert(spec_document_to_markdown(seq![p]).len() == 0);
    assert(spec_split_lines(spec_document_to_markdown(seq![p])) =~= Seq::<Seq<char>>::empty());
    assert(spec_markdown_to_document(
        spec_split_lines(spec_document_to_markdown(seq![p])),
        base_size_pt,
    ) =~= seq![
        SpecMdParagraph {
            runs: Seq::<SpecRun>::empty(),
            alignment: Alignment::Justify,
            font_size_pt: base_size_pt,
        },
    ]);
}

/// `n` asterisks.
pub open spec fn spec_stars(n: int) -> Seq<char> {
    Seq::new(n as nat, |i: int| '*')
}

/// How many marker characters open (and close) a run's encoding.
pub open spec fn spec_star_count(r: SpecRun) -> int {
    (if r.bold {
        2int
    } else {
        0int
    }) + (if r.italic {
        1int
    } else {
        0int
    })
}

/// The runs of a paragraph whose encoding decodes back exactly: every run
/// carries text free of marker and heading characters, no run is underlined,
/// and adjacent runs differ visibly — never both italic, never both entirely
/// plain.
pub open spec fn spec_round_trippable(runs: Seq<SpecRun>) -> bool {
    &&& forall|i: int| 0 <= i < runs.len() ==> (#[trigger] runs[i]).text.len() > 0
    &&& forall|i: int| 0 <= i < runs.len() ==> !(#[trigger] runs[i]).underline
    &&& forall|i: int, k: int|
        0 <= i < runs.len() && 0 <= k < runs[i].text.len() ==> !spec_is_marker(
            #[trigger] runs[i].text[k],
        ) && runs[i].text[k] != '#'
    &&& forall|i: int|
        0 <= i < runs.len() - 1 ==> !((#[trigger] runs[i]).italic && runs[i + 1].italic)
    &&& forall|i: int|
        0 <= i < runs.len() - 1 ==> ((#[trigger] runs[i]).bold || runs[i].italic || runs[i
            + 1].bold || runs[i + 1].italic)
}

/// Scanning text free of markers only accumulates it into the buffer.
proof fn lemma_scan_text(
    t: Seq<char>,
    rest: Seq<char>,
    b: bool,
    it: bool,
    buf: Seq<char>,
    out: Seq<SpecRun>,
)
    requires
        forall|k: int| 0 <= k < t.len() ==> !spec_is_marker(t[k]),
    ensures
        spec_scan_runs(t + rest, b, it, buf, out) == spec_scan_runs(rest, b, it, buf + t, out),
    decreases t.len(),
{
    if t.len() == 0 {
        assert(t + rest =~= rest);
        assert(buf + t =~= buf);
    } else {
        let s = t + rest;
        assert(s[0] == t[0]);
        assert(s.skip(1) =~= t.drop_first() + rest);
        lemma_scan_text(t.drop_first(), rest, b, it, buf.push(t[0]), out);
        assert(buf.push(t[0]) + t.drop_first() =~= buf + t);
    }
}

/// Scanning a run of asterisks: pairs toggle bold, a leftover single toggles
/// italic, and the buffer is flushed with the entry flags at the first
/// toggle.
proof fn lemma_scan_stars(
    m: int,
    rest: Seq<char>,
    b: bool,
    it: bool,
    buf: Seq<char>,
    out: Seq<SpecRun>,
)
    requires
        m >= 1,
        rest.len() > 0 ==> !spec_is_marker(rest[0]),
    ensures
        spec_scan_runs(spec_stars(m) + rest, b, it, buf, out) == spec_scan_runs(
            rest,
            b != ((m / 2) % 2 == 1),
            it != (m % 2 == 1),
            Seq::empty(),
            spec_flush(out, buf, b, it),
        ),
    decreases m,
{
    let s = spec_stars(m) + rest;
    assert(s[0] == '*');
    if m == 1 {
        if rest.len() > 0 {
            assert(s[1] == rest[0]);
            assert(s[1] != s[0]);
        }
        assert(s.skip(1) =~= rest);
    } else {
        assert(s[1] == '*');
        assert(s.skip(2) =~= spec_stars(m - 2) + rest);
        if m == 2 {
            assert(spec_stars(0) + rest =~= rest);
        } else {
            lemma_scan_stars(m - 2, rest, !b, it, Seq::empty(), spec_flush(out, buf, b, it));
            assert(m / 2 == (m - 2) / 2 + 1);
            assert(spec_flush(spec_flush(out, buf, b, it), Seq::empty(), !b, it) == spec_flush(
                out,
                buf,
                b,
                it,
            ));
        }
    }
}

/// A run without underline encodes as a star block, its text, and a mirrored
/// star block.
proof fn lemma_encode_run_shape(r: SpecRun)
    requires
        !r.underline,
    ensures
        spec_encode_run(r) =~= spec_stars(spec_star_count(r)) + r.text + spec_stars(
            spec_star_count(r),
        ),
{
}

/// Entering the scan at a run's own flag state, its text and every following
/// run are recovered in order.
proof fn lemma_scan_runs_aux(runs: Seq<SpecRun>, out: Seq<SpecRun>)
    requires
        runs.len() >= 1,
        spec_round_trippable(runs),
    ensures
        spec_scan_runs(
            runs[0].text + spec_stars(spec_star_count(runs[0])) + spec_encode_runs(
                runs.drop_first(),
            ),
            runs[0].bold,
            runs[0].italic,
            Seq::empty(),
            out,
        ) == out + runs,
    decreases runs.len(),
{
    let r0 = runs[0];
    let c0 = spec_star_count(r0);
    let tail = spec_stars(c0) + spec_encode_runs(runs.drop_first());
    assert(runs[0].text + spec_stars(c0) + spec_encode_runs(runs.drop_first()) =~= r0.text + tail);
    lemma_scan_text(r0.text, tail, r0.bold, r0.italic, Seq::empty(), out);
    assert(Seq::<char>::empty() + r0.text =~= r0.text);
    let flushed = out.push(SpecRun { text: r0.text, bold: r0.bold, italic: r0.italic, underline: false });
    assert(spec_flush(out, r0.text, r0.bold, r0.italic) == flushed);
    assert(r0 == SpecRun { text: r0.text, bold: r0.bold, italic: r0.italic, underline: r0.underline });
    assert(!r0.underline);
    if runs.len() == 1 {
        assert(spec_encode_runs(runs.drop_first()) =~= Seq::<char>::empty());
        if c0 == 0 {
            assert(tail =~= Seq::<char>::empty());
            assert(spec_scan_runs(tail, r0.bold, r0.italic, r0.text, out) == flushed);
        } else {
            assert(tail =~= spec_stars(c0) + Seq::<char>::empty());
            lemma_scan_stars(c0, Seq::empty(), r0.bold, r0.italic, r0.text, out);
            assert(spec_scan_runs(Seq::<char>::empty(), r0.bold != ((c0 / 2) % 2 == 1), r0.italic
                != (c0 % 2 == 1), Seq::empty(), flushed) == flushed);
        }
        assert(out + runs =~= flushed);
    } else {
        let rest = runs.drop_first();
        assert(rest[0] == runs[1]);
        let r1 = runs[1];
        assert(rest[0].text.len() > 0) by {
            assert(runs[1].text.len() > 0);
        }
        let o1 = spec_star_count(r1);
        assert(spec_encode_runs(rest) == spec_encode_run(r1) + spec_encode_runs(rest.drop_first()));
        lemma_encode_run_shape(r1);
        let after = r1.text + spec_stars(o1) + spec_encode_runs(rest.drop_first());
        let m = c0 + o1;
        assert(!(r0.italic && r1.italic));
        assert(r0.bold || r0.italic || r1.bold || r1.italic);
        assert(m >= 1);
        assert(tail =~= spec_stars(m) + after) by {
            assert(spec_encode_run(r1) =~= spec_stars(o1) + r1.text + spec_stars(o1));
        }
        assert(after[0] == r1.text[0]);
        assert(!spec_is_marker(after[0])) by {
            assert(!spec_is_marker(runs[1].text[0]));
        }
        lemma_scan_stars(m, after, r0.bold, r0.italic, r0.text, out);
        assert((r0.bold != ((m / 2) % 2 == 1)) == r1.bold) by {
            assert(m == (if r0.bold { 2int } else { 0int }) + (if r0.italic { 1int } else { 0int })
                + (if r1.italic { 1int } else { 0int }) + (if r1.bold { 2int } else { 0int }));
        }
        assert((r0.italic != (m % 2 == 1)) == r1.italic);
        assert(spec_round_trippable(rest)) by {
            assert(forall|i: int| 0 <= i < rest.len() ==> rest[i] == runs[i + 1]);
        }
        lemma_scan_runs_aux(rest, flushed);
        assert(after =~= rest[0].text + spec_stars(spec_star_count(rest[0])) + spec_encode_runs(
            rest.drop_first(),
        ));
        assert(out + runs =~= flushed + rest);
    }
}

/// ROUND TRIP: for a paragraph built from runs whose text holds none of the
/// marker or heading characters, with no underline, and whose adjacent runs
/// differ visibly, decoding the encoded Markdown line recovers exactly the
/// original runs with their bold and italic flags.
pub proof fn lemma_markdown_round_trip(runs: Seq<SpecRun>)
    requires
        spec_round_trippable(runs),
    ensures
        spec_decode_runs(spec_encode_runs(runs), false) == runs,
{
    if runs.len() == 0 {
        assert(spec_encode_runs(runs) =~= Seq::<char>::empty());
        assert(spec_decode_runs(Seq::<char>::empty(), false) =~= Seq::<SpecRun>::empty());
        assert(runs =~= Seq::<SpecRun>::empty());
    } else {
        let r0 = runs[0];
        let c0 = spec_star_count(r0);
        lemma_encode_run_shape(r0);
        assert(spec_encode_runs(runs) == spec_encode_run(r0) + spec_encode_runs(runs.drop_first()));
        let after = r0.text + spec_stars(c0) + spec_encode_runs(runs.drop_first());
        assert(spec_encode_runs(runs) =~= spec_stars(c0) + after);
        assert(after[0] == r0.text[0]);
        assert(!spec_is_marker(after[0])) by {
            assert(!spec_is_marker(runs[0].text[0]));
        }
        if c0 == 0 {
            assert(!r0.bold && !r0.italic);
            assert(spec_encode_runs(runs) =~= after);
            lemma_scan_runs_aux(runs, Seq::empty());
            assert(Seq::<SpecRun>::empty() + runs =~= runs);
        } else {
            lemma_scan_stars(c0, after, false, false, Seq::empty(), Seq::empty());
            assert(spec_flush(Seq::<SpecRun>::empty(), Seq::<char>::empty(), false, false) =~= Seq::<
                SpecRun,
            >::empty());
            assert((false != ((c0 / 2) % 2 == 1)) == r0.bold);
            assert((false != (c0 % 2 == 1)) == r0.italic);
            lemma_scan_runs_aux(runs, Seq::empty());
            assert(Seq::<SpecRun>::empty() + runs =~= runs);
        }
    }
}

/// The round trip at paragraph level: a paragraph with at least one run and
/// non-blank aggregate text encodes to a Markdown line that decodes back to
/// exactly its runs.
pub proof fn lemma_paragraph_round_trip(p: SpecParagraph)
    requires
        spec_round_trippable(p.runs),
        p.runs.len() > 0,
        !spec_is_blank(p.plain),
    ensures
        spec_decode_runs(spec_paragraph_to_markdown(p), false) == p.runs,
{
    assert(!crate::codec::spec_all_runs_empty(p.runs)) by {
        assert(p.runs[0].text.len() > 0);
    }
    assert(spec_paragraph_to_markdown(p) == spec_encode_runs(p.runs));
    lemma_markdown_round_trip(p.runs);
}

} // verus!
