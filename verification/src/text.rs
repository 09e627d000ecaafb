//! Character classes and line/token utilities shared by the converters.
//!
//! Text is processed as sequences of `char`; `&str` and `String` appear only
//! at the crate boundary.

use vstd::prelude::*;

verus! {

/// The blank characters this library treats as whitespace when trimming,
/// splitting and collapsing: the ASCII whitespace set.
pub open spec fn spec_is_space(c: char) -> bool {
    c == ' ' || c == '\t' || c == '\n' || c == '\r' || c == '\u{b}' || c == '\u{c}'
}

#[verifier::when_used_as_spec(spec_is_space)]
pub fn is_space(c: char) -> (r: bool)
    ensures
        r == spec_is_space(c),
{
    c == ' ' || c == '\t' || c == '\n' || c == '\r' || c == '\u{b}' || c == '\u{c}'
}

/// `s` with leading whitespace removed.
pub open spec fn spec_trim_front(s: Seq<char>) -> Seq<char>
    decreases s.len(),
{
    if s.len() > 0 && spec_is_space(s[0]) {
        spec_trim_front(s.drop_first())
    } else {
        s
    }
}

/// `s` with trailing whitespace removed.
pub open spec fn spec_trim_back(s: Seq<char>) -> Seq<char>
    decreases s.len(),
{
    if s.len() > 0 && spec_is_space(s[s.len() - 1]) {
        spec_trim_back(s.drop_last())
    } else {
        s
    }
}

/// `s` with whitespace removed from both ends.
pub open spec fn spec_trim(s: Seq<char>) -> Seq<char> {
    spec_trim_back(spec_trim_front(s))
}

/// A line is blank when trimming leaves nothing.
pub open spec fn spec_is_blank(s: Seq<char>) -> bool {
    spec_trim(s).len() == 0
}

pub proof fn lemma_trim_front_subrange(s: Seq<char>, i: int)
    requires
        0 <= i <= s.len(),
        forall|k: int| 0 <= k < i ==> spec_is_space(s[k]),
        i < s.len() ==> !spec_is_space(s[i]),
    ensures
        spec_trim_front(s) == s.subrange(i, s.len() as int),
    decreases i,
{
    if i == 0 {
        assert(s.subrange(0, s.len() as int) =~= s);
    } else {
        lemma_trim_front_subrange(s.drop_first(), i - 1);
        assert(s.drop_first().subrange(i - 1, s.drop_first().len() as int) =~= s.subrange(
            i,
            s.len() as int,
        ));
    }
}

pub proof fn lemma_trim_back_subrange(s: Seq<char>, j: int)
    requires
        0 <= j <= s.len(),
        forall|k: int| j <= k < s.len() ==> spec_is_space(s[k]),
        j > 0 ==> !spec_is_space(s[j - 1]),
    ensures
        spec_trim_back(s) == s.subrange(0, j),
    decreases s.len() - j,
{
    if j == s.len() {
        assert(s.subrange(0, s.len() as int) =~= s);
    } else {
        lemma_trim_back_subrange(s.drop_last(), j);
        assert(s.drop_last().subrange(0, j) =~= s.subrange(0, j));
    }
}

/// Copy of `s` with whitespace removed from both ends.
pub fn trim_chars(s: &Vec<char>) -> (r: Vec<char>)
    ensures
        r@ == spec_trim(s@),
{
    let mut i: usize = 0;
    while i < s.len() && is_space(s[i])
        invariant
            0 <= i <= s.len(),
            forall|k: int| 0 <= k < i ==> spec_is_space(s@[k]),
        decreases s.len() - i,
    {
        i = i + 1;
    }
    proof {
        lemma_trim_front_subrange(s@, i as int);
    }
    let ghost front: Seq<char> = spec_trim_front(s@);
    let mut j: usize = s.len();
    while j > i && is_space(s[j - 1])
        invariant
            i <= j <= s.len(),
            forall|k: int| j <= k < s.len() ==> spec_is_space(s@[k]),
        decreases j,
    {
        j = j - 1;
    }
    proof {
        if i < s.len() {
            lemma_trim_back_subrange(front, j - i);
            assert(front.subrange(0, j - i) =~= s@.subrange(i as int, j as int));
        } else {
            assert(front =~= Seq::<char>::empty());
            assert(spec_trim_back(front) =~= s@.subrange(i as int, j as int));
        }
    }
    let mut r: Vec<char> = Vec::new();
    let mut k: usize = i;
    while k < j
        invariant
            i <= k <= j <= s.len(),
            r@ == s@.subrange(i as int, k as int),
        decreases j - k,
    {
        r.push(s[k]);
        proof {
            assert(s@.subrange(i as int, k + 1) =~= s@.subrange(i as int, k as int).push(
                s@[k as int],
            ));
        }
        k = k + 1;
    }
    r
}

/// True when trimming `s` leaves nothing.
pub fn is_blank(s: &Vec<char>) -> (r: bool)
    ensures
        r == spec_is_blank(s@),
{
    let t = trim_chars(s);
    t.len() == 0
}

/// ASCII decimal digit.
pub open spec fn spec_is_digit(c: char) -> bool {
    '0' <= c && c <= '9'
}

#[verifier::when_used_as_spec(spec_is_digit)]
pub fn is_digit(c: char) -> (r: bool)
    ensures
        r == spec_is_digit(c),
{
    '0' <= c && c <= '9'
}

/// ASCII letter.
pub open spec fn spec_is_ascii_alpha(c: char) -> bool {
    ('a' <= c && c <= 'z') || ('A' <= c && c <= 'Z')
}

#[verifier::when_used_as_spec(spec_is_ascii_alpha)]
pub fn is_ascii_alpha(c: char) -> (r: bool)
    ensures
        r == spec_is_ascii_alpha(c),
{
    ('a' <= c && c <= 'z') || ('A' <= c && c <= 'Z')
}

/// ASCII hexadecimal digit.
pub open spec fn spec_is_hex_digit(c: char) -> bool {
    spec_is_digit(c) || ('a' <= c && c <= 'f') || ('A' <= c && c <= 'F')
}

#[verifier::when_used_as_spec(spec_is_hex_digit)]
pub fn is_hex_digit(c: char) -> (r: bool)
    ensures
        r == spec_is_hex_digit(c),
{
    is_digit(c) || ('a' <= c && c <= 'f') || ('A' <= c && c <= 'F')
}

/// A letter, for this library: an ASCII letter or a Latin-1 letter (the
/// accented characters of the domain vocabulary), excluding the multiplication
/// and division signs.
pub open spec fn spec_is_letter(c: char) -> bool {
    spec_is_ascii_alpha(c) || (192 <= c as u32 && c as u32 <= 255 && c as u32 != 215 && c as u32
        != 247)
}

#[verifier::when_used_as_spec(spec_is_letter)]
pub fn is_letter(c: char) -> (r: bool)
    ensures
        r == spec_is_letter(c),
{
    let u = c as u32;
    is_ascii_alpha(c) || (192 <= u && u <= 255 && u != 215 && u != 247)
}

/// A letter or an ASCII digit.
pub open spec fn spec_is_alphanumeric(c: char) -> bool {
    spec_is_letter(c) || spec_is_digit(c)
}

#[verifier::when_used_as_spec(spec_is_alphanumeric)]
pub fn is_alphanumeric(c: char) -> (r: bool)
    ensures
        r == spec_is_alphanumeric(c),
{
    is_letter(c) || is_digit(c)
}

/// Lower-case image of a character: the one-to-one mapping on ASCII and
/// Latin-1 letters; every other character is its own image.
pub open spec fn spec_to_lower(c: char) -> char {
    if 'A' <= c && c <= 'Z' {
        ((c as u32 + 32) as u8) as char
    } else if 192 <= c as u32 && c as u32 <= 222 && c as u32 != 215 {
        ((c as u32 + 32) as u8) as char
    } else {
        c
    }
}

#[verifier::when_used_as_spec(spec_to_lower)]
pub fn to_lower(c: char) -> (r: char)
    ensures
        r == spec_to_lower(c),
{
    let u = c as u32;
    if (65 <= u && u <= 90) || (192 <= u && u <= 222 && u != 215) {
        ((u + 32) as u8) as char
    } else {
        c
    }
}

/// Upper-case image of a character, inverse of [`spec_to_lower`] on letters.
pub open spec fn spec_to_upper(c: char) -> char {
    if 'a' <= c && c <= 'z' {
        ((c as u32 - 32) as u8) as char
    } else if 224 <= c as u32 && c as u32 <= 254 && c as u32 != 247 {
        ((c as u32 - 32) as u8) as char
    } else {
        c
    }
}

#[verifier::when_used_as_spec(spec_to_upper)]
pub fn to_upper(c: char) -> (r: char)
    ensures
        r == spec_to_upper(c),
{
    let u = c as u32;
    if (97 <= u && u <= 122) || (224 <= u && u <= 254 && u != 247) {
        ((u - 32) as u8) as char
    } else {
        c
    }
}

/// The line lowered character by character.
pub open spec fn spec_lower_seq(s: Seq<char>) -> Seq<char> {
    s.map_values(|c: char| spec_to_lower(c))
}

/// Copy of `s` with each character lowered.
pub fn lower_chars(s: &Vec<char>) -> (r: Vec<char>)
    ensures
        r@ == spec_lower_seq(s@),
{
    let mut r: Vec<char> = Vec::new();
    let mut i: usize = 0;
    while i < s.len()
        invariant
            0 <= i <= s.len(),
            r@ == spec_lower_seq(s@.subrange(0, i as int)),
        decreases s.len() - i,
    {
        r.push(to_lower(s[i]));
        proof {
            assert(spec_lower_seq(s@.subrange(0, i + 1)) =~= spec_lower_seq(
                s@.subrange(0, i as int),
            ).push(spec_to_lower(s@[i as int])));
        }
        i = i + 1;
    }
    proof {
        assert(s@.subrange(0, s@.len() as int) =~= s@);
    }
    r
}

/// The line is entirely upper-case: raising its characters changes nothing.
pub open spec fn spec_is_all_upper(s: Seq<char>) -> bool {
    forall|i: int| 0 <= i < s.len() ==> spec_to_upper(s[i]) == s[i]
}

pub fn is_all_upper(s: &Vec<char>) -> (r: bool)
    ensures
        r == spec_is_all_upper(s@),
{
    let mut i: usize = 0;
    while i < s.len()
        invariant
            0 <= i <= s.len(),
            forall|k: int| 0 <= k < i ==> spec_to_upper(s@[k]) == s@[k],
        decreases s.len() - i,
    {
        if to_upper(s[i]) != s[i] {
            return false;
        }
        i = i + 1;
    }
    true
}

/// `s` begins with `pre`.
pub open spec fn spec_starts_with(s: Seq<char>, pre: Seq<char>) -> bool {
    pre.len() <= s.len() && s.subrange(0, pre.len() as int) == pre
}

pub fn starts_with(s: &Vec<char>, pre: &Vec<char>) -> (r: bool)
    ensures
        r == spec_starts_with(s@, pre@),
{
    if pre.len() > s.len() {
        return false;
    }
    let mut i: usize = 0;
    while i < pre.len()
        invariant
            0 <= i <= pre.len() <= s.len(),
            forall|k: int| 0 <= k < i ==> s@[k] == pre@[k],
        decreases pre.len() - i,
    {
        if s[i] != pre[i] {
            assert(s@.subrange(0, pre@.len() as int) != pre@);
            return false;
        }
        i = i + 1;
    }
    proof {
        assert(s@.subrange(0, pre@.len() as int) =~= pre@);
    }
    true
}

/// `s` ends with `suf`.
pub open spec fn spec_ends_with(s: Seq<char>, suf: Seq<char>) -> bool {
    suf.len() <= s.len() && s.subrange(s.len() - suf.len(), s.len() as int) == suf
}

pub fn ends_with(s: &Vec<char>, suf: &Vec<char>) -> (r: bool)
    ensures
        r == spec_ends_with(s@, suf@),
{
    if suf.len() > s.len() {
        return false;
    }
    let off: usize = s.len() - suf.len();
    let mut i: usize = 0;
    while i < suf.len()
        invariant
            0 <= i <= suf.len() <= s.len(),
            off == s.len() - suf.len(),
            forall|k: int| 0 <= k < i ==> s@[off + k] == suf@[k],
        decreases suf.len() - i,
    {
        if s[off + i] != suf[i] {
            assert(s@.subrange(s@.len() - suf@.len(), s@.len() as int)[i as int] != suf@[i as int]);
            return false;
        }
        i = i + 1;
    }
    proof {
        assert(s@.subrange(s@.len() - suf@.len(), s@.len() as int) =~= suf@);
    }
    true
}

/// `pat` occurs somewhere in `s`.
pub open spec fn spec_contains_seq(s: Seq<char>, pat: Seq<char>) -> bool {
    exists|i: int|
        0 <= i <= s.len() - pat.len() && #[trigger] s.subrange(i, i + pat.len() as int) == pat
}

/// `pat` matches in `s` at offset `i`.
fn match_at(s: &Vec<char>, pat: &Vec<char>, i: usize) -> (r: bool)
    requires
        i + pat@.len() <= s@.len(),
    ensures
        r == (s@.subrange(i as int, i + pat@.len() as int) == pat@),
{
    let n = s.len();
    let mut j: usize = 0;
    while j < pat.len()
        invariant
            n == s@.len(),
            i + pat@.len() <= s@.len(),
            0 <= j <= pat.len(),
            forall|k: int| 0 <= k < j ==> s@[i + k] == pat@[k],
        decreases pat.len() - j,
    {
        if s[i + j] != pat[j] {
            proof {
                if s@.subrange(i as int, i + pat@.len() as int) == pat@ {
                    assert(s@.subrange(i as int, i + pat@.len() as int)[j as int] == pat@[j as int]);
                }
            }
            return false;
        }
        j = j + 1;
    }
    proof {
        assert(s@.subrange(i as int, i + pat@.len() as int) =~= pat@);
    }
    true
}

pub fn contains_seq(s: &Vec<char>, pat: &Vec<char>) -> (r: bool)
    ensures
        r == spec_contains_seq(s@, pat@),
{
    if pat.len() > s.len() {
        return false;
    }
    if pat.len() == 0 {
        proof {
            assert(s@.subrange(0, 0 + pat@.len() as int) =~= pat@);
        }
        return true;
    }
    let mut i: usize = 0;
    while i <= s.len() - pat.len()
        invariant
            1 <= pat@.len() <= s@.len(),
            0 <= i <= s@.len() - pat@.len() + 1,
            forall|k: int|
                0 <= k < i ==> #[trigger] s@.subrange(k, k + pat@.len() as int) != pat@,
        decreases s@.len() + 1 - i,
    {
        if match_at(s, pat, i) {
            return true;
        }
        i = i + 1;
    }
    false
}

pub fn eq_chars(a: &Vec<char>, b: &Vec<char>) -> (r: bool)
    ensures
        r == (a@ == b@),
{
    if a.len() != b.len() {
        return false;
    }
    let mut i: usize = 0;
    while i < a.len()
        invariant
            a@.len() == b@.len(),
            0 <= i <= a.len(),
            forall|k: int| 0 <= k < i ==> a@[k] == b@[k],
        decreases a.len() - i,
    {
        if a[i] != b[i] {
            return false;
        }
        i = i + 1;
    }
    proof {
        assert(a@ =~= b@);
    }
    true
}

/// Index of the first newline in `s`, or its length when there is none.
pub open spec fn spec_line_end(s: Seq<char>) -> int
    decreases s.len(),
{
    if s.len() == 0 {
        0
    } else if s[0] == '\n' {
        0
    } else {
        1 + spec_line_end(s.drop_first())
    }
}

pub proof fn lemma_line_end(s: Seq<char>)
    ensures
        0 <= spec_line_end(s) <= s.len(),
        spec_line_end(s) < s.len() ==> s[spec_line_end(s)] == '\n',
        forall|k: int| 0 <= k < spec_line_end(s) ==> s[k] != '\n',
    decreases s.len(),
{
    if s.len() > 0 && s[0] != '\n' {
        lemma_line_end(s.drop_first());
        assert forall|k: int| 0 <= k < spec_line_end(s) implies s[k] != '\n' by {
            if k > 0 {
                assert(s.drop_first()[k - 1] != '\n');
            }
        }
    }
}

/// One line of `s` starting at its front: everything before the first
/// newline, with one trailing carriage return removed.
pub open spec fn spec_first_line(s: Seq<char>) -> Seq<char> {
    let raw = s.subrange(0, spec_line_end(s));
    if raw.len() > 0 && raw[raw.len() - 1] == '\r' {
        raw.drop_last()
    } else {
        raw
    }
}

/// The lines of `s`, split at newlines, each with one trailing carriage
/// return removed; text ending in a newline yields no final empty line.
pub open spec fn spec_split_lines(s: Seq<char>) -> Seq<Seq<char>>
    decreases s.len(),
    via spec_split_lines_decreases
{
    if s.len() == 0 {
        Seq::empty()
    } else {
        let e = spec_line_end(s);
        if e >= s.len() {
            seq![spec_first_line(s)]
        } else {
            seq![spec_first_line(s)] + spec_split_lines(s.subrange(e + 1, s.len() as int))
        }
    }
}

#[via_fn]
proof fn spec_split_lines_decreases(s: Seq<char>) {
    lemma_line_end(s);
}

/// The lines of `s` as separate character vectors.
pub fn split_lines(s: &Vec<char>) -> (r: Vec<Vec<char>>)
    ensures
        r.deep_view() == spec_split_lines(s@),
{
    let mut out: Vec<Vec<char>> = Vec::new();
    let mut pos: usize = 0;
    proof {
        assert(out.deep_view() =~= Seq::<Seq<char>>::empty());
        assert(s@.subrange(0, s@.len() as int) =~= s@);
    }
    while pos < s.len()
        invariant
            0 <= pos <= s.len(),
            spec_split_lines(s@) =~= out.deep_view() + spec_split_lines(
                s@.subrange(pos as int, s@.len() as int),
            ),
        decreases s.len() - pos,
    {
        let ghost rest = s@.subrange(pos as int, s@.len() as int);
        proof {
            lemma_line_end(rest);
        }
        let mut e: usize = pos;
        while e < s.len() && s[e] != '\n'
            invariant
                0 <= pos <= e <= s.len(),
                forall|k: int| pos <= k < e ==> s@[k] != '\n',
            decreases s.len() - e,
        {
            e = e + 1;
        }
        proof {
            assert forall|k: int| 0 <= k < e - pos implies rest[k] != '\n' by {
                assert(rest[k] == s@[pos + k]);
            }
            if e < s.len() {
                assert(rest[e - pos] == s@[e as int]);
            }
            assert(spec_line_end(rest) == e - pos) by {
                if spec_line_end(rest) < e - pos {
                    assert(rest[spec_line_end(rest)] != '\n');
                }
            }
        }
        let mut stop: usize = e;
        if e > pos && s[e - 1] == '\r' {
            stop = e - 1;
        }
        let mut line: Vec<char> = Vec::new();
        let mut k: usize = pos;
        while k < stop
            invariant
                pos <= k <= stop <= s.len(),
                line@ == s@.subrange(pos as int, k as int),
            decreases stop - k,
        {
            line.push(s[k]);
            proof {
                assert(s@.subrange(pos as int, k + 1) =~= s@.subrange(pos as int, k as int).push(
                    s@[k as int],
                ));
            }
            k = k + 1;
        }
        proof {
            let raw = rest.subrange(0, spec_line_end(rest));
            assert(raw =~= s@.subrange(pos as int, e as int));
            if e > pos && s@[e - 1] == '\r' {
                assert(spec_first_line(rest) =~= s@.subrange(pos as int, e - 1));
            } else {
                assert(spec_first_line(rest) =~= s@.subrange(pos as int, e as int));
            }
            assert(line@ == spec_first_line(rest));
        }
        let ghost pre = out.deep_view();
        out.push(line);
        let newpos: usize = if e < s.len() {
            e + 1
        } else {
            e
        };
        proof {
            assert(out.deep_view() =~= pre.push(out@[out@.len() - 1].deep_view()));
            assert(out@[out@.len() - 1].deep_view() =~= out@[out@.len() - 1]@);
            assert(out@[out@.len() - 1]@ == spec_first_line(rest));
            assert(out.deep_view() =~= pre.push(spec_first_line(rest)));
            let newrest = s@.subrange(newpos as int, s@.len() as int);
            if e < s.len() {
                assert(newrest =~= rest.subrange(spec_line_end(rest) + 1, rest.len() as int));
                assert(spec_split_lines(rest) =~= seq![spec_first_line(rest)] + spec_split_lines(
                    newrest,
                ));
            } else {
                assert(spec_split_lines(rest) =~= seq![spec_first_line(rest)]);
                assert(newrest.len() == 0);
                assert(spec_split_lines(newrest) =~= Seq::<Seq<char>>::empty());
            }
            assert(spec_split_lines(s@) =~= out.deep_view() + spec_split_lines(newrest));
        }
        pos = newpos;
    }
    proof {
        assert(s@.subrange(pos as int, s@.len() as int).len() == 0);
        assert(spec_split_lines(s@) =~= out.deep_view());
    }
    out
}

/// The lines joined with single newlines, no trailing newline.
pub open spec fn spec_join_lines(lines: Seq<Seq<char>>) -> Seq<char>
    decreases lines.len(),
{
    if lines.len() == 0 {
        Seq::empty()
    } else if lines.len() == 1 {
        lines[0]
    } else {
        lines[0] + seq!['\n'] + spec_join_lines(lines.drop_first())
    }
}

/// The lines joined with single newlines.
pub fn join_lines(lines: &Vec<Vec<char>>) -> (r: Vec<char>)
    ensures
        r@ == spec_join_lines(lines.deep_view()),
{
    let mut r: Vec<char> = Vec::new();
    let mut i: usize = 0;
    proof {
        assert(lines.deep_view().subrange(0, lines.deep_view().len() as int) =~= lines.deep_view());
    }
    while i < lines.len()
        invariant
            0 <= i <= lines.len(),
            spec_join_lines(lines.deep_view()) =~= r@ + spec_join_lines(
                lines.deep_view().subrange(i as int, lines.deep_view().len() as int),
            ),
            i > 0 && i < lines.len() ==> r@.len() > 0 && r@[r@.len() - 1] == '\n',
            i == 0 ==> r@.len() == 0,
        decreases lines.len() - i,
    {
        let ghost rest = lines.deep_view().subrange(i as int, lines.deep_view().len() as int);
        let line = &lines[i];
        let mut k: usize = 0;
        let ghost r0 = r@;
        while k < line.len()
            invariant
                0 <= k <= line.len(),
                r@ == r0 + line@.subrange(0, k as int),
            decreases line.len() - k,
        {
            r.push(line[k]);
            proof {
                assert(line@.subrange(0, k + 1) =~= line@.subrange(0, k as int).push(
                    line@[k as int],
                ));
            }
            k = k + 1;
        }
        proof {
            assert(line@.subrange(0, line@.len() as int) =~= line@);
            assert(rest[0] == line@);
        }
        if i + 1 < lines.len() {
            r.push('\n');
            proof {
                let newrest = lines.deep_view().subrange(i + 1, lines.deep_view().len() as int);
                assert(newrest =~= rest.drop_first());
                assert(rest.len() > 1);
                assert(spec_join_lines(rest) =~= rest[0] + seq!['\n'] + spec_join_lines(newrest));
                assert(r@ =~= r0 + line@ + seq!['\n']);
                assert(spec_join_lines(lines.deep_view()) =~= r@ + spec_join_lines(newrest));
            }
        } else {
            proof {
                let newrest = lines.deep_view().subrange(i + 1, lines.deep_view().len() as int);
                assert(rest.len() == 1);
                assert(spec_join_lines(rest) == rest[0]);
                assert(newrest.len() == 0);
                assert(r@ =~= r0 + line@);
                assert(spec_join_lines(lines.deep_view()) =~= r@ + spec_join_lines(newrest));
            }
        }
        i = i + 1;
    }
    proof {
        assert(spec_join_lines(lines.deep_view().subrange(i as int, lines.deep_view().len() as int))
            =~= Seq::<char>::empty());
        assert(spec_join_lines(lines.deep_view()) =~= r@);
    }
    r
}

/// `s` with every maximal run of whitespace replaced by a single space;
/// `after_space` says whether the character just before `s` was part of a
/// run that has already emitted its space.
pub open spec fn spec_collapse_go(s: Seq<char>, after_space: bool) -> Seq<char>
    decreases s.len(),
{
    if s.len() == 0 {
        Seq::empty()
    } else if spec_is_space(s[0]) {
        if after_space {
            spec_collapse_go(s.drop_first(), true)
        } else {
            seq![' '] + spec_collapse_go(s.drop_first(), true)
        }
    } else {
        seq![s[0]] + spec_collapse_go(s.drop_first(), false)
    }
}

/// `s` with every maximal run of whitespace replaced by a single space.
pub open spec fn spec_collapse_spaces(s: Seq<char>) -> Seq<char> {
    spec_collapse_go(s, false)
}

pub fn collapse_spaces(s: &Vec<char>) -> (r: Vec<char>)
    ensures
        r@ == spec_collapse_spaces(s@),
{
    let mut r: Vec<char> = Vec::new();
    let mut after_space: bool = false;
    let mut i: usize = 0;
    proof {
        assert(s@.subrange(0, s@.len() as int) =~= s@);
    }
    while i < s.len()
        invariant
            0 <= i <= s.len(),
            spec_collapse_spaces(s@) =~= r@ + spec_collapse_go(
                s@.subrange(i as int, s@.len() as int),
                after_space,
            ),
        decreases s.len() - i,
    {
        let ghost rest = s@.subrange(i as int, s@.len() as int);
        proof {
            assert(rest.drop_first() =~= s@.subrange(i + 1, s@.len() as int));
        }
        let c = s[i];
        if is_space(c) {
            if !after_space {
                r.push(' ');
            }
            after_space = true;
        } else {
            r.push(c);
            after_space = false;
        }
        i = i + 1;
    }
    proof {
        assert(spec_collapse_go(s@.subrange(i as int, s@.len() as int), after_space) =~= Seq::<
            char,
        >::empty());
    }
    r
}

/// Index of the first non-blank line, when one exists.
pub open spec fn spec_first_nonblank(lines: Seq<Seq<char>>) -> Option<int>
    decreases lines.len(),
{
    if lines.len() == 0 {
        Option::None
    } else if !spec_is_blank(lines[0]) {
        Option::Some(0int)
    } else {
        match spec_first_nonblank(lines.drop_first()) {
            Option::None => Option::None,
            Option::Some(i) => Option::Some(i + 1),
        }
    }
}

/// Index of the last non-blank line, when one exists.
pub open spec fn spec_last_nonblank(lines: Seq<Seq<char>>) -> Option<int>
    decreases lines.len(),
{
    if lines.len() == 0 {
        Option::None
    } else if !spec_is_blank(lines[lines.len() - 1]) {
        Option::Some(lines.len() - 1)
    } else {
        spec_last_nonblank(lines.drop_last())
    }
}

pub proof fn lemma_first_nonblank(lines: Seq<Seq<char>>)
    ensures
        match spec_first_nonblank(lines) {
            Option::None => forall|k: int| 0 <= k < lines.len() ==> spec_is_blank(lines[k]),
            Option::Some(i) => 0 <= i < lines.len() && !spec_is_blank(lines[i]) && forall|k: int|
                0 <= k < i ==> spec_is_blank(lines[k]),
        },
    decreases lines.len(),
{
    if lines.len() > 0 && spec_is_blank(lines[0]) {
        lemma_first_nonblank(lines.drop_first());
        assert forall|k: int|
            0 <= k < lines.len() && (spec_first_nonblank(lines) is None
                || k < spec_first_nonblank(lines)->Some_0) implies spec_is_blank(lines[k]) by {
            if k > 0 {
                assert(lines.drop_first()[k - 1] == lines[k]);
            }
        }
    }
}

pub proof fn lemma_last_nonblank(lines: Seq<Seq<char>>)
    ensures
        match spec_last_nonblank(lines) {
            Option::None => forall|k: int| 0 <= k < lines.len() ==> spec_is_blank(lines[k]),
            Option::Some(i) => 0 <= i < lines.len() && !spec_is_blank(lines[i]) && forall|k: int|
                i < k < lines.len() ==> spec_is_blank(lines[k]),
        },
    decreases lines.len(),
{
    if lines.len() > 0 && spec_is_blank(lines[lines.len() - 1]) {
        lemma_last_nonblank(lines.drop_last());
        assert forall|k: int|
            0 <= k < lines.len() && (spec_last_nonblank(lines) is None
                || k > spec_last_nonblank(lines)->Some_0) implies spec_is_blank(lines[k]) by {
            if k < lines.len() - 1 {
                assert(lines.drop_last()[k] == lines[k]);
            }
        }
    }
}

/// Indices of the first and last non-blank lines, when any line is non-blank.
pub fn find_first_last_nonempty(lines: &Vec<Vec<char>>) -> (r: Option<(usize, usize)>)
    ensures
        match r {
            Option::None => spec_first_nonblank(lines.deep_view()) is None,
            Option::Some(p) => spec_first_nonblank(lines.deep_view()) == Option::Some(p.0 as int)
                && spec_last_nonblank(lines.deep_view()) == Option::Some(p.1 as int),
        },
{
    let ghost lv = lines.deep_view();
    proof {
        lemma_first_nonblank(lv);
        lemma_last_nonblank(lv);
        assert(lv.len() == lines@.len());
    }
    let mut first: usize = 0;
    let mut found_first: bool = false;
    let mut i: usize = 0;
    while i < lines.len() && !found_first
        invariant
            0 <= i <= lines.len(),
            lv.len() == lines@.len(),
            lv == lines.deep_view(),
            !found_first ==> forall|k: int| 0 <= k < i ==> spec_is_blank(lv[k]),
            found_first ==> first < i && !spec_is_blank(lv[first as int]) && forall|k: int|
                0 <= k < first ==> spec_is_blank(lv[k]),
        decreases lines.len() - i,
    {
        proof {
            assert(lv[i as int] == lines@[i as int].deep_view());
            assert(lines@[i as int].deep_view() =~= lines@[i as int]@);
        }
        if !is_blank(&lines[i]) {
            first = i;
            found_first = true;
        }
        i = i + 1;
    }
    if !found_first {
        proof {
            if spec_first_nonblank(lv) is Some {
                let w = spec_first_nonblank(lv)->Some_0;
                assert(spec_is_blank(lv[w]));
            }
        }
        return Option::None;
    }
    proof {
        match spec_first_nonblank(lv) {
            Option::None => {
                assert(spec_is_blank(lv[first as int]));
            },
            Option::Some(w) => {
                if w < first {
                    assert(spec_is_blank(lv[w]));
                }
                if first < w {
                    assert(spec_is_blank(lv[first as int]));
                }
            },
        }
    }
    let mut last: usize = first;
    let mut j: usize = lines.len();
    let mut found_last: bool = false;
    while j > 0 && !found_last
        invariant
            0 <= j <= lines.len(),
            lv.len() == lines@.len(),
            lv == lines.deep_view(),
            !found_last ==> forall|k: int| j <= k < lines@.len() ==> spec_is_blank(lv[k]),
            found_last ==> j <= last < lines@.len() && !spec_is_blank(lv[last as int])
                && forall|k: int| last < k < lines@.len() ==> spec_is_blank(lv[k]),
        decreases j,
    {
        proof {
            assert(lv[j - 1] == lines@[j - 1].deep_view());
            assert(lines@[j - 1].deep_view() =~= lines@[j - 1]@);
        }
        if !is_blank(&lines[j - 1]) {
            last = j - 1;
            found_last = true;
        }
        j = j - 1;
    }
    proof {
        assert(found_last) by {
            if !found_last {
                assert(spec_is_blank(lv[first as int]));
            }
        }
        match spec_last_nonblank(lv) {
            Option::None => {
                assert(spec_is_blank(lv[last as int]));
            },
            Option::Some(w) => {
                if w < last {
                    assert(spec_is_blank(lv[last as int]));
                }
                if last < w {
                    assert(spec_is_blank(lv[w]));
                }
            },
        }
    }
    Option::Some((first, last))
}

/// The characters of the string, in order.
pub fn str_to_chars(s: &str) -> (r: Vec<char>)
    ensures
        r@ == s@,
{
    broadcast use vstd::string::group_string_axioms;

    let mut r: Vec<char> = Vec::new();
    for c in it: s.chars()
        invariant
            it.seq() == s@,
            r@ == s@.subrange(0, it.index() as int),
    {
        let ghost i = it.index() as int;
        r.push(c);
        proof {
            assert(s@.subrange(0, i + 1) =~= s@.subrange(0, i).push(s@[i]));
        }
    }
    proof {
        assert(s@.subrange(0, s@.len() as int) =~= s@);
    }
    r
}

/// Relies on `String`'s `FromIterator`: the string made of exactly these
/// characters, in order.
#[verifier::external_body]
pub fn chars_to_string(v: &Vec<char>) -> (r: String)
    ensures
        r@ == v@,
{
    v.iter().collect()
}

} // verus!
