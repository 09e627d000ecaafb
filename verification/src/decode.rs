//! Decoding Markdown lines into structured paragraphs: a left-to-right scan
//! flips a bold flag on two identical consecutive marker characters and an
//! italic flag on a single one, flushing the accumulated text as a run each
//! time a toggle fires; a leading run of `#` promotes the line to a bold
//! heading; the first and last non-blank lines of a document get their own
//! alignment, emphasis and size.

use vstd::prelude::*;

use crate::model::{Alignment, Run, SpecRun};
use crate::text::{
    spec_trim, spec_trim_front, spec_first_nonblank, spec_last_nonblank, spec_is_blank, trim_chars,
    find_first_last_nonempty,
};

verus! {

/// An emphasis marker character.
pub open spec fn spec_is_marker(c: char) -> bool {
    c == '*' || c == '_'
}

#[verifier::when_used_as_spec(spec_is_marker)]
pub fn is_marker(c: char) -> (r: bool)
    ensures
        r == spec_is_marker(c),
{
    c == '*' || c == '_'
}

/// `s` with its leading `#` characters removed.
pub open spec fn spec_drop_hashes(s: Seq<char>) -> Seq<char>
    decreases s.len(),
{
    if s.len() > 0 && s[0] == '#' {
        spec_drop_hashes(s.drop_first())
    } else {
        s
    }
}

/// The text of a Markdown line with any heading marker stripped, and whether
/// one was present: after leading whitespace, a `#` starts a heading, and the
/// heading text is the line without its leading `#` run, trimmed.
pub open spec fn spec_normalize_heading(line: Seq<char>) -> (Seq<char>, bool) {
    let stripped = spec_trim_front(line);
    if stripped.len() > 0 && stripped[0] == '#' {
        (spec_trim(spec_drop_hashes(stripped)), true)
    } else {
        (line, false)
    }
}

proof fn lemma_drop_hashes_subrange(s: Seq<char>, i: int)
    requires
        0 <= i <= s.len(),
        forall|k: int| 0 <= k < i ==> s[k] == '#',
        i < s.len() ==> s[i] != '#',
    ensures
        spec_drop_hashes(s) == s.subrange(i, s.len() as int),
    decreases i,
{
    if i == 0 {
        assert(s.subrange(0, s.len() as int) =~= s);
    } else {
        lemma_drop_hashes_subrange(s.drop_first(), i - 1);
        assert(s.drop_first().subrange(i - 1, s.drop_first().len() as int) =~= s.subrange(
            i,
            s.len() as int,
        ));
    }
}

/// Strips a heading marker: the returned text is the line without leading
/// whitespace and `#` characters, trimmed, and the flag says whether a `#`
/// was found.
pub fn normalize_heading(line: &Vec<char>) -> (r: (Vec<char>, bool))
    ensures
        (r.0@, r.1) == spec_normalize_heading(line@),
{
    let mut i: usize = 0;
    while i < line.len() && crate::text::is_space(line[i])
        invariant
            0 <= i <= line.len(),
            forall|k: int| 0 <= k < i ==> crate::text::spec_is_space(line@[k]),
        decreases line.len() - i,
    {
        i = i + 1;
    }
    proof {
        crate::text::lemma_trim_front_subrange(line@, i as int);
    }
    let ghost stripped = spec_trim_front(line@);
    if i < line.len() && line[i] == '#' {
        let mut j: usize = i;
        while j < line.len() && line[j] == '#'
            invariant
                i <= j <= line.len(),
                forall|k: int| i <= k < j ==> line@[k] == '#',
            decreases line.len() - j,
        {
            j = j + 1;
        }
        proof {
            assert forall|k: int| 0 <= k < j - i implies stripped[k] == '#' by {
                assert(stripped[k] == line@[i + k]);
            }
            if j < line.len() {
                assert(stripped[j - i] == line@[j as int]);
            }
            lemma_drop_hashes_subrange(stripped, j - i);
            assert(spec_drop_hashes(stripped) =~= line@.subrange(j as int, line@.len() as int));
        }
        let mut tail: Vec<char> = Vec::new();
        let mut k: usize = j;
        while k < line.len()
            invariant
                j <= k <= line.len(),
                tail@ == line@.subrange(j as int, k as int),
            decreases line.len() - k,
        {
            tail.push(line[k]);
            proof {
                assert(line@.subrange(j as int, k + 1) =~= line@.subrange(j as int, k as int).push(
                    line@[k as int],
                ));
            }
            k = k + 1;
        }
        proof {
            assert(tail@ =~= line@.subrange(j as int, line@.len() as int));
        }
        let text = trim_chars(&tail);
        (text, true)
    } else {
        let mut copy: Vec<char> = Vec::new();
        crate::codec::push_all(&mut copy, line);
        proof {
            assert(copy@ =~= line@);
        }
        (copy, false)
    }
}

/// Appends the accumulated text as a run carrying the current flags, unless
/// the buffer is empty.
pub open spec fn spec_flush(out: Seq<SpecRun>, buf: Seq<char>, bold: bool, italic: bool) -> Seq<
    SpecRun,
> {
    if buf.len() == 0 {
        out
    } else {
        out.push(SpecRun { text: buf, bold, italic, underline: false })
    }
}

/// The toggle scan: two identical consecutive markers flip the bold flag, a
/// single marker flips the italic flag, and every other character joins the
/// current run's buffer; each toggle flushes the buffer with the pre-toggle
/// flags.
pub open spec fn spec_scan_runs(
    s: Seq<char>,
    bold: bool,
    italic: bool,
    buf: Seq<char>,
    out: Seq<SpecRun>,
) -> Seq<SpecRun>
    decreases s.len(),
{
    if s.len() == 0 {
        spec_flush(out, buf, bold, italic)
    } else if spec_is_marker(s[0]) && s.len() >= 2 && s[1] == s[0] {
        spec_scan_runs(s.skip(2), !bold, italic, Seq::empty(), spec_flush(out, buf, bold, italic))
    } else if spec_is_marker(s[0]) {
        spec_scan_runs(s.skip(1), bold, !italic, Seq::empty(), spec_flush(out, buf, bold, italic))
    } else {
        spec_scan_runs(s.skip(1), bold, italic, buf.push(s[0]), out)
    }
}

/// The runs recovered from a marked-up line, the bold flag starting at
/// `heading` and the italic flag off.
pub open spec fn spec_decode_runs(s: Seq<char>, heading: bool) -> Seq<SpecRun> {
    spec_scan_runs(s, heading, false, Seq::empty(), Seq::empty())
}

/// Scans a line for emphasis toggles and returns the recovered runs.
pub fn decode_markdown_runs(text: &Vec<char>, heading: bool) -> (runs: Vec<Run>)
    ensures
        crate::model::spec_runs_view(runs@) == spec_decode_runs(text@, heading),
{
    let mut runs: Vec<Run> = Vec::new();
    let mut buf: Vec<char> = Vec::new();
    let mut bold: bool = heading;
    let mut italic: bool = false;
    let mut i: usize = 0;
    proof {
        assert(text@.skip(0) =~= text@);
        assert(crate::model::spec_runs_view(runs@) =~= Seq::<SpecRun>::empty());
    }
    while i < text.len()
        invariant
            0 <= i <= text.len(),
            spec_decode_runs(text@, heading) == spec_scan_runs(
                text@.skip(i as int),
                bold,
                italic,
                buf@,
                crate::model::spec_runs_view(runs@),
            ),
        decreases text.len() - i,
    {
        let ghost rest = text@.skip(i as int);
        let c = text[i];
        proof {
            assert(rest[0] == c);
        }
        if is_marker(c) && i + 1 < text.len() && text[i + 1] == c {
            proof {
                assert(rest[1] == text@[i + 1]);
                assert(rest.skip(2) =~= text@.skip(i + 2));
            }
            flush_runs(&mut runs, &mut buf, bold, italic);
            bold = !bold;
            i = i + 2;
        } else if is_marker(c) {
            proof {
                if rest.len() >= 2 {
                    assert(rest[1] == text@[i + 1]);
                }
                assert(rest.skip(1) =~= text@.skip(i + 1));
            }
            flush_runs(&mut runs, &mut buf, bold, italic);
            italic = !italic;
            i = i + 1;
        } else {
            proof {
                assert(rest.skip(1) =~= text@.skip(i + 1));
            }
            buf.push(c);
            i = i + 1;
        }
    }
    proof {
        assert(text@.skip(i as int).len() == 0);
    }
    flush_runs_final(&mut runs, buf, bold, italic);
    runs
}

/// The runs with a paragraph-level forced italic applied on top of their own
/// flags.
pub open spec fn spec_apply_force_italic(runs: Seq<SpecRun>, force: bool) -> Seq<SpecRun> {
    runs.map_values(
        |r: SpecRun|
            SpecRun { text: r.text, bold: r.bold, italic: r.italic || force, underline: r.underline },
    )
}

/// A paragraph destined for a structured document: its decoded runs, its
/// alignment, and the point size its runs are to carry.
pub struct MdParagraph {
    pub runs: Vec<Run>,
    pub alignment: Alignment,
    pub font_size_pt: u32,
}

/// Mathematical image of an [`MdParagraph`].
pub struct SpecMdParagraph {
    pub runs: Seq<SpecRun>,
    pub alignment: Alignment,
    pub font_size_pt: u32,
}

impl View for MdParagraph {
    type V = SpecMdParagraph;

    open spec fn view(&self) -> SpecMdParagraph {
        SpecMdParagraph {
            runs: crate::model::spec_runs_view(self.runs@),
            alignment: self.alignment,
            font_size_pt: self.font_size_pt,
        }
    }
}

/// The paragraph for one Markdown line: a heading marker turns the initial
/// bold state on, the line is scanned for toggles, and a forced italic is
/// applied to every run; a line with no text gives an empty paragraph.
pub open spec fn spec_line_to_paragraph(
    line: Seq<char>,
    alignment: Alignment,
    force_italic: bool,
    font_size_pt: u32,
) -> SpecMdParagraph {
    let (text, heading) = spec_normalize_heading(line);
    SpecMdParagraph {
        runs: if text.len() == 0 {
            Seq::empty()
        } else {
            spec_apply_force_italic(spec_decode_runs(text, heading), force_italic)
        },
        alignment,
        font_size_pt,
    }
}

/// Builds the structured paragraph for one Markdown source line.
pub fn markdown_line_to_paragraph(
    line: &Vec<char>,
    alignment: Alignment,
    force_italic: bool,
    font_size_pt: u32,
) -> (p: MdParagraph)
    ensures
        p@ == spec_line_to_paragraph(line@, alignment, force_italic, font_size_pt),
{
    let (text, heading) = normalize_heading(line);
    if text.len() == 0 {
        let p = MdParagraph { runs: Vec::new(), alignment, font_size_pt };
        proof {
            assert(crate::model::spec_runs_view(p.runs@) =~= Seq::<SpecRun>::empty());
        }
        p
    } else {
        let runs = decode_markdown_runs(&text, heading);
        let ghost decoded = spec_decode_runs(text@, heading);
        let mut out: Vec<Run> = Vec::new();
        let mut i: usize = 0;
        while i < runs.len()
            invariant
                0 <= i <= runs.len(),
                crate::model::spec_runs_view(runs@) == decoded,
                crate::model::spec_runs_view(out@) =~= spec_apply_force_italic(
                    decoded.subrange(0, i as int),
                    force_italic,
                ),
            decreases runs.len() - i,
        {
            let ghost preout = crate::model::spec_runs_view(out@);
            let r = &runs[i];
            let mut text2: Vec<char> = Vec::new();
            crate::codec::push_all(&mut text2, &r.text);
            let newrun = Run {
                text: text2,
                bold: r.bold,
                italic: r.italic || force_italic,
                underline: r.underline,
            };
            out.push(newrun);
            proof {
                assert(decoded[i as int] == runs@[i as int]@);
                assert(crate::model::spec_runs_view(out@) =~= preout.push(
                    SpecRun {
                        text: decoded[i as int].text,
                        bold: decoded[i as int].bold,
                        italic: decoded[i as int].italic || force_italic,
                        underline: decoded[i as int].underline,
                    },
                ));
                assert(spec_apply_force_italic(decoded.subrange(0, i + 1), force_italic)
                    =~= spec_apply_force_italic(decoded.subrange(0, i as int), force_italic).push(
                    SpecRun {
                        text: decoded[i as int].text,
                        bold: decoded[i as int].bold,
                        italic: decoded[i as int].italic || force_italic,
                        underline: decoded[i as int].underline,
                    },
                ));
            }
            i = i + 1;
        }
        proof {
            assert(decoded.subrange(0, decoded.len() as int) =~= decoded);
        }
        MdParagraph { runs: out, alignment, font_size_pt }
    }
}

/// The alignment, forced-italic flag and point size for the line at `idx`:
/// the first and last non-blank lines are centered, and the last is also
/// forced italic and rendered two points smaller than the base size.
pub open spec fn spec_line_params(
    idx: int,
    first: Option<int>,
    last: Option<int>,
    base_size_pt: u32,
) -> (Alignment, bool, u32) {
    let center = first == Option::Some(idx) || last == Option::Some(idx);
    let forced = last == Option::Some(idx);
    (
        if center {
            Alignment::Center
        } else {
            Alignment::Justify
        },
        forced,
        if forced {
            (base_size_pt - 2) as u32
        } else {
            base_size_pt
        },
    )
}

/// The structured document for a whole Markdown source: one paragraph per
/// line, under the first/last-line policy; an empty source still gives one
/// empty, justified paragraph.
pub open spec fn spec_markdown_to_document(lines: Seq<Seq<char>>, base_size_pt: u32) -> Seq<
    SpecMdParagraph,
> {
    if lines.len() == 0 {
        seq![
            SpecMdParagraph {
                runs: Seq::empty(),
                alignment: Alignment::Justify,
                font_size_pt: base_size_pt,
            },
        ]
    } else {
        let first = spec_first_nonblank(lines);
        let last = spec_last_nonblank(lines);
        Seq::new(
            lines.len(),
            |i: int|
                {
                    let (al, forced, size) = spec_line_params(i, first, last, base_size_pt);
                    spec_line_to_paragraph(lines[i], al, forced, size)
                },
        )
    }
}

/// Converts Markdown source lines to an ordered sequence of structured
/// paragraphs under the first/last-line policy.
pub fn markdown_to_document(lines: &Vec<Vec<char>>, base_size_pt: u32) -> (doc: Vec<MdParagraph>)
    requires
        base_size_pt >= 2,
    ensures
        doc@.map_values(|p: MdParagraph| p@) == spec_markdown_to_document(
            lines.deep_view(),
            base_size_pt,
        ),
{
    let ghost lv = lines.deep_view();
    let mut doc: Vec<MdParagraph> = Vec::new();
    if lines.len() == 0 {
        let p = MdParagraph {
            runs: Vec::new(),
            alignment: Alignment::Justify,
            font_size_pt: base_size_pt,
        };
        proof {
            assert(crate::model::spec_runs_view(p.runs@) =~= Seq::<SpecRun>::empty());
        }
        doc.push(p);
        proof {
            assert(doc@.map_values(|p: MdParagraph| p@) =~= spec_markdown_to_document(
                lv,
                base_size_pt,
            ));
        }
        return doc;
    }
    let found = find_first_last_nonempty(lines);
    let ghost first = spec_first_nonblank(lv);
    let ghost last = spec_last_nonblank(lv);
    let mut i: usize = 0;
    while i < lines.len()
        invariant
            0 <= i <= lines.len(),
            lv == lines.deep_view(),
            lv.len() == lines@.len(),
            lv.len() > 0,
            base_size_pt >= 2,
            first == spec_first_nonblank(lv),
            last == spec_last_nonblank(lv),
            match found {
                Option::None => first is None,
                Option::Some(p) => first == Option::Some(p.0 as int) && last == Option::Some(
                    p.1 as int,
                ),
            },
            doc@.map_values(|p: MdParagraph| p@) =~= spec_markdown_to_document(
                lv,
                base_size_pt,
            ).subrange(0, i as int),
        decreases lines.len() - i,
    {
        let mut alignment = Alignment::Justify;
        let mut force_italic = false;
        let mut size = base_size_pt;
        match found {
            Option::None => {},
            Option::Some(p) => {
                if i == p.0 {
                    alignment = Alignment::Center;
                }
                if i == p.1 {
                    alignment = Alignment::Center;
                    force_italic = true;
                    size = base_size_pt - 2;
                }
            },
        }
        proof {
            crate::text::lemma_first_nonblank(lv);
            crate::text::lemma_last_nonblank(lv);
            if first is None {
                assert(spec_is_blank(lv[lv.len() - 1]));
                assert(last is None) by {
                    if last is Some {
                        assert(!spec_is_blank(lv[last->Some_0]));
                        assert(spec_is_blank(lv[last->Some_0]));
                    }
                }
            }
            let params = spec_line_params(i as int, first, last, base_size_pt);
            assert(alignment == params.0 && force_italic == params.1 && size == params.2);
        }
        let ghost pre = doc@.map_values(|p: MdParagraph| p@);
        proof {
            assert(lv[i as int] == lines@[i as int].deep_view());
            assert(lines@[i as int].deep_view() =~= lines@[i as int]@);
        }
        let p = markdown_line_to_paragraph(&lines[i], alignment, force_italic, size);
        doc.push(p);
        proof {
            assert(doc@.map_values(|p: MdParagraph| p@) =~= pre.push(doc@[doc@.len() - 1]@));
            assert(spec_markdown_to_document(lv, base_size_pt).subrange(0, i + 1)
                =~= spec_markdown_to_document(lv, base_size_pt).subrange(0, i as int).push(
                spec_markdown_to_document(lv, base_size_pt)[i as int],
            ));
        }
        i = i + 1;
    }
    proof {
        assert(spec_markdown_to_document(lv, base_size_pt).subrange(
            0,
            spec_markdown_to_document(lv, base_size_pt).len() as int,
        ) =~= spec_markdown_to_document(lv, base_size_pt));
    }
    doc
}

/// Converts whole Markdown text to a structured document: the text is split
/// into lines and each line becomes a paragraph under the first/last-line
/// policy.
pub fn markdown_text_to_document(text: &str, base_size_pt: u32) -> (doc: Vec<MdParagraph>)
    requires
        base_size_pt >= 2,
    ensures
        doc@.map_values(|p: MdParagraph| p@) == spec_markdown_to_document(
            crate::text::spec_split_lines(text@),
            base_size_pt,
        ),
{
    let chars = crate::text::str_to_chars(text);
    let lines = crate::text::split_lines(&chars);
    markdown_to_document(&lines, base_size_pt)
}

/// Flushes the buffer into the run list and clears it.
fn flush_runs(runs: &mut Vec<Run>, buf: &mut Vec<char>, bold: bool, italic: bool)
    ensures
        crate::model::spec_runs_view(final(runs)@) == spec_flush(
            crate::model::spec_runs_view(old(runs)@),
            old(buf)@,
            bold,
            italic,
        ),
        final(buf)@ == Seq::<char>::empty(),
{
    let ghost pre = crate::model::spec_runs_view(runs@);
    proof {
        if old(buf)@.len() == 0 {
            assert(buf@ =~= Seq::<char>::empty());
        }
    }
    if buf.len() > 0 {
        let mut text: Vec<char> = Vec::new();
        std::mem::swap(&mut text, buf);
        let run = Run { text, bold, italic, underline: false };
        runs.push(run);
        proof {
            assert(crate::model::spec_runs_view(runs@) =~= pre.push(
                SpecRun { text: old(buf)@, bold, italic, underline: false },
            ));
        }
    }
}

/// Flushes the final buffer at the end of the scan.
fn flush_runs_final(runs: &mut Vec<Run>, buf: Vec<char>, bold: bool, italic: bool)
    ensures
        crate::model::spec_runs_view(final(runs)@) == spec_flush(
            crate::model::spec_runs_view(old(runs)@),
            buf@,
            bold,
            italic,
        ),
{
    let ghost pre = crate::model::spec_runs_view(runs@);
    if buf.len() > 0 {
        let run = Run { text: buf, bold, italic, underline: false };
        runs.push(run);
        proof {
            assert(crate::model::spec_runs_view(runs@) =~= pre.push(run@));
        }
    }
}

} // verus!
