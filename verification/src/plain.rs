//! Plain-text handling: stripping Markdown markers to get plain text, and
//! promoting unformatted text to Markdown with bold section headers and an
//! emphasized closing line.

use vstd::prelude::*;

use crate::text::{
    spec_trim, spec_is_blank, spec_lower_seq, spec_starts_with, spec_ends_with,
    spec_first_nonblank, spec_last_nonblank, spec_split_lines, spec_join_lines, trim_chars,
    lower_chars, starts_with, ends_with, find_first_last_nonempty, split_lines, join_lines,
    str_to_chars, chars_to_string,
};

verus! {

/// Markdown text becomes plain text by deleting every `*` and `#`.
pub open spec fn spec_clean_markdown_text(s: Seq<char>) -> Seq<char>
    decreases s.len(),
{
    if s.len() == 0 {
        Seq::empty()
    } else if s[0] == '*' || s[0] == '#' {
        spec_clean_markdown_text(s.drop_first())
    } else {
        seq![s[0]] + spec_clean_markdown_text(s.drop_first())
    }
}

/// Deletes all `*` and `#` characters, turning Markdown into plain text.
pub fn clean_markdown_text(text: &str) -> (r: String)
    ensures
        r@ == spec_clean_markdown_text(text@),
{
    let chars = str_to_chars(text);
    let mut out: Vec<char> = Vec::new();
    let mut i: usize = 0;
    proof {
        assert(chars@.skip(0) =~= chars@);
    }
    while i < chars.len()
        invariant
            0 <= i <= chars.len(),
            chars@ == text@,
            spec_clean_markdown_text(text@) =~= out@ + spec_clean_markdown_text(
                chars@.skip(i as int),
            ),
        decreases chars.len() - i,
    {
        let ghost rest = chars@.skip(i as int);
        proof {
            assert(rest.drop_first() =~= chars@.skip(i + 1));
        }
        let c = chars[i];
        if c != '*' && c != '#' {
            out.push(c);
        }
        i = i + 1;
    }
    proof {
        assert(spec_clean_markdown_text(chars@.skip(i as int)) =~= Seq::<char>::empty());
    }
    chars_to_string(&out)
}

/// The section-label prefixes that open a bold line in promoted text.
pub open spec fn spec_section_prefixes() -> Seq<Seq<char>> {
    seq![
        seq!['t', 'é', 'c', 'n', 'i', 'c', 'a', ' ', 'd', 'o', ' ', 'e', 'x', 'a', 'm', 'e', ':'],
        seq![
            'a', 's', 'p', 'e', 'c', 't', 'o', 's', ' ', 'o', 'b', 's', 'e', 'r', 'v', 'a', 'd',
            'o', 's', ':',
        ],
        seq!['i', 'm', 'p', 'r', 'e', 's', 's', 'ã', 'o', ':'],
        seq!['i', 'n', 'f', 'o', 'r', 'm', 'e', ' ', 'c', 'l', 'í', 'n', 'i', 'c', 'o', ':'],
        seq![
            'i', 'n', 'd', 'i', 'c', 'a', 'ç', 'ã', 'o', ' ', 'c', 'l', 'í', 'n', 'i', 'c', 'a',
            ':',
        ],
        seq!['i', 'n', 'd', 'i', 'c', 'a', 'ç', 'ã', 'o', ':'],
    ]
}

/// The section-label prefixes, as character vectors.
fn section_prefixes() -> (r: Vec<Vec<char>>)
    ensures
        r.deep_view() == spec_section_prefixes(),
{
    let mut r: Vec<Vec<char>> = Vec::new();
    let p0: Vec<char> = vec![
        't', 'é', 'c', 'n', 'i', 'c', 'a', ' ', 'd', 'o', ' ', 'e', 'x', 'a', 'm', 'e', ':',
    ];
    let p1: Vec<char> = vec![
        'a', 's', 'p', 'e', 'c', 't', 'o', 's', ' ', 'o', 'b', 's', 'e', 'r', 'v', 'a', 'd', 'o',
        's', ':',
    ];
    let p2: Vec<char> = vec!['i', 'm', 'p', 'r', 'e', 's', 's', 'ã', 'o', ':'];
    let p3: Vec<char> = vec![
        'i', 'n', 'f', 'o', 'r', 'm', 'e', ' ', 'c', 'l', 'í', 'n', 'i', 'c', 'o', ':',
    ];
    let p4: Vec<char> = vec![
        'i', 'n', 'd', 'i', 'c', 'a', 'ç', 'ã', 'o', ' ', 'c', 'l', 'í', 'n', 'i', 'c', 'a', ':',
    ];
    let p5: Vec<char> = vec!['i', 'n', 'd', 'i', 'c', 'a', 'ç', 'ã', 'o', ':'];
    r.push(p0);
    r.push(p1);
    r.push(p2);
    r.push(p3);
    r.push(p4);
    r.push(p5);
    proof {
        assert(r.deep_view() =~~= spec_section_prefixes());
    }
    r
}

/// A line opens a section (and is promoted to bold) when its trimmed,
/// lowered form starts with a recognized section-label prefix, or ends in a
/// colon at a length of at most 120 characters.
pub open spec fn spec_should_bold_section(line: Seq<char>) -> bool {
    let t = spec_trim(spec_lower_seq(line));
    (exists|k: int|
        0 <= k < spec_section_prefixes().len() && spec_starts_with(
            t,
            #[trigger] spec_section_prefixes()[k],
        )) || (spec_ends_with(t, seq![':']) && t.len() <= 120)
}

/// Decides whether a promoted line becomes a bold section header.
pub fn should_bold_section(line: &str) -> (r: bool)
    ensures
        r == spec_should_bold_section(line@),
{
    let chars = str_to_chars(line);
    should_bold_section_chars(&chars)
}

/// [`should_bold_section`] on a line already held as characters.
pub fn should_bold_section_chars(line: &Vec<char>) -> (r: bool)
    ensures
        r == spec_should_bold_section(line@),
{
    let lowered = lower_chars(line);
    let t = trim_chars(&lowered);
    let prefixes = section_prefixes();
    let mut k: usize = 0;
    while k < prefixes.len()
        invariant
            0 <= k <= prefixes.len(),
            prefixes.deep_view() == spec_section_prefixes(),
            t@ == spec_trim(spec_lower_seq(line@)),
            forall|m: int|
                0 <= m < k ==> !spec_starts_with(t@, #[trigger] spec_section_prefixes()[m]),
        decreases prefixes.len() - k,
    {
        proof {
            assert(prefixes@[k as int].deep_view() =~= prefixes@[k as int]@);
            assert(prefixes@[k as int]@ == spec_section_prefixes()[k as int]);
        }
        if starts_with(&t, &prefixes[k]) {
            return true;
        }
        k = k + 1;
    }
    let colon: Vec<char> = vec![':'];
    proof {
        assert(colon@ =~= seq![':']);
    }
    if ends_with(&t, &colon) && t.len() <= 120 {
        return true;
    }
    false
}

/// The promoted Markdown image of one line: blank lines pass through; the
/// last non-blank line is wrapped in italics; the first non-blank line and
/// section-opening lines are wrapped in bold; everything else passes through
/// trimmed.
pub open spec fn spec_format_line(
    line: Seq<char>,
    first: Option<int>,
    last: Option<int>,
    idx: int,
) -> Seq<char> {
    let stripped = spec_trim(line);
    if stripped.len() == 0 {
        Seq::empty()
    } else if last == Option::Some(idx) {
        seq!['*'] + stripped + seq!['*']
    } else if first == Option::Some(idx) || spec_should_bold_section(stripped) {
        seq!['*', '*'] + stripped + seq!['*', '*']
    } else {
        stripped
    }
}

/// The promoted Markdown image of a whole plain-text document.
pub open spec fn spec_format_lines(lines: Seq<Seq<char>>) -> Seq<Seq<char>> {
    let first = spec_first_nonblank(lines);
    let last = spec_last_nonblank(lines);
    Seq::new(lines.len(), |i: int| spec_format_line(lines[i], first, last, i))
}

/// Promotes plain-text lines to Markdown: the first non-blank line and
/// recognized section headers become bold, the last non-blank line becomes
/// italic, and every other line passes through.
pub fn format_lines_as_markdown(lines: &Vec<String>) -> (r: Vec<String>)
    ensures
        r.deep_view() == spec_format_lines(lines.deep_view()),
{
    let mut chars_lines: Vec<Vec<char>> = Vec::new();
    let mut i: usize = 0;
    while i < lines.len()
        invariant
            0 <= i <= lines.len(),
            chars_lines.deep_view() =~= lines.deep_view().subrange(0, i as int),
        decreases lines.len() - i,
    {
        let ghost pre = chars_lines.deep_view();
        let cl = str_to_chars(&lines[i]);
        let ghost clv = cl@;
        chars_lines.push(cl);
        proof {
            assert(chars_lines.deep_view() =~~= pre.push(clv));
            assert(lines.deep_view().subrange(0, i + 1) =~= pre.push(
                lines@[i as int].deep_view(),
            ));
            assert(lines@[i as int].deep_view() == lines@[i as int]@);
        }
        i = i + 1;
    }
    proof {
        assert(lines.deep_view().subrange(0, lines.deep_view().len() as int) =~= lines.deep_view());
    }
    let formatted = format_chars_lines(&chars_lines);
    let mut r: Vec<String> = Vec::new();
    let mut j: usize = 0;
    while j < formatted.len()
        invariant
            0 <= j <= formatted.len(),
            r.deep_view() =~= formatted.deep_view().subrange(0, j as int),
        decreases formatted.len() - j,
    {
        let ghost pre = r.deep_view();
        let s = chars_to_string(&formatted[j]);
        let ghost sv = s@;
        r.push(s);
        proof {
            assert(r.deep_view() =~~= pre.push(sv));
            assert(formatted.deep_view().subrange(0, j + 1) =~= pre.push(
                formatted@[j as int].deep_view(),
            ));
            assert(formatted@[j as int].deep_view() =~= formatted@[j as int]@);
        }
        j = j + 1;
    }
    proof {
        assert(formatted.deep_view().subrange(0, formatted.deep_view().len() as int)
            =~= formatted.deep_view());
    }
    r
}

/// [`format_lines_as_markdown`] on lines already held as characters.
pub fn format_chars_lines(lines: &Vec<Vec<char>>) -> (r: Vec<Vec<char>>)
    ensures
        r.deep_view() == spec_format_lines(lines.deep_view()),
{
    let ghost lv = lines.deep_view();
    let ghost first = spec_first_nonblank(lv);
    let ghost last = spec_last_nonblank(lv);
    let found = find_first_last_nonempty(lines);
    proof {
        crate::text::lemma_first_nonblank(lv);
        crate::text::lemma_last_nonblank(lv);
        if first is None {
            assert(last is None) by {
                if last is Some {
                    assert(!spec_is_blank(lv[last->Some_0]));
                    assert(spec_is_blank(lv[last->Some_0]));
                }
            }
        }
    }
    let mut r: Vec<Vec<char>> = Vec::new();
    let mut i: usize = 0;
    while i < lines.len()
        invariant
            0 <= i <= lines.len(),
            lv == lines.deep_view(),
            lv.len() == lines@.len(),
            first == spec_first_nonblank(lv),
            last == spec_last_nonblank(lv),
            match found {
                Option::None => first is None && last is None,
                Option::Some(p) => first == Option::Some(p.0 as int) && last == Option::Some(
                    p.1 as int,
                ),
            },
            r.deep_view() =~= spec_format_lines(lv).subrange(0, i as int),
        decreases lines.len() - i,
    {
        proof {
            assert(lv[i as int] == lines@[i as int].deep_view());
            assert(lines@[i as int].deep_view() =~= lines@[i as int]@);
        }
        let stripped = trim_chars(&lines[i]);
        let mut out: Vec<char> = Vec::new();
        if stripped.len() == 0 {
        } else {
            let is_first = match found {
                Option::None => false,
                Option::Some(p) => i == p.0,
            };
            let is_last = match found {
                Option::None => false,
                Option::Some(p) => i == p.1,
            };
            if is_last {
                out.push('*');
                crate::codec::push_all(&mut out, &stripped);
                out.push('*');
            } else if is_first || should_bold_section_chars(&stripped) {
                out.push('*');
                out.push('*');
                crate::codec::push_all(&mut out, &stripped);
                out.push('*');
                out.push('*');
            } else {
                crate::codec::push_all(&mut out, &stripped);
            }
        }
        let ghost pre = r.deep_view();
        let ghost outv = out@;
        proof {
            assert(outv =~= spec_format_line(lv[i as int], first, last, i as int));
        }
        r.push(out);
        proof {
            assert(r.deep_view() =~~= pre.push(outv));
            assert(spec_format_lines(lv).subrange(0, i + 1) =~= pre.push(
                spec_format_lines(lv)[i as int],
            ));
        }
        i = i + 1;
    }
    proof {
        assert(spec_format_lines(lv).subrange(0, spec_format_lines(lv).len() as int)
            =~= spec_format_lines(lv));
    }
    r
}

/// Promotes a whole plain-text document to Markdown: lines are split,
/// formatted, and joined back with newlines.
pub fn promote_plain_text(text: &str) -> (r: String)
    ensures
        r@ == spec_join_lines(spec_format_lines(spec_split_lines(text@))),
{
    let chars = str_to_chars(text);
    let lines = split_lines(&chars);
    let formatted = format_chars_lines(&lines);
    let joined = join_lines(&formatted);
    chars_to_string(&joined)
}

} // verus!
