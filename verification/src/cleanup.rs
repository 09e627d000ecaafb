//! Cleanup and classification of legacy rich-text markup: brace-delimited
//! groups, control words and escape sequences are stripped from the raw text;
//! surviving lines are filtered for noise and tidied; and the result is
//! classified into Markdown headings, bold section labels, italic notes and
//! plain prose.

use vstd::prelude::*;

use crate::codec::push_all;
use crate::text::{spec_is_space, is_space, eq_chars};

verus! {

/// `c` occurs in `s`.
pub open spec fn spec_contains_char(s: Seq<char>, c: char) -> bool {
    exists|i: int| 0 <= i < s.len() && s[i] == c
}

pub fn contains_char(s: &Vec<char>, c: char) -> (r: bool)
    ensures
        r == spec_contains_char(s@, c),
{
    let mut i: usize = 0;
    while i < s.len()
        invariant
            0 <= i <= s.len(),
            forall|k: int| 0 <= k < i ==> s@[k] != c,
        decreases s.len() - i,
    {
        if s[i] == c {
            return true;
        }
        i = i + 1;
    }
    false
}

/// First index at or after `i` holding a brace, or the length of `s`.
pub open spec fn spec_brace_end(s: Seq<char>, i: int) -> int
    decreases s.len() - i,
    when 0 <= i
{
    if i >= s.len() {
        s.len() as int
    } else if s[i] == '{' || s[i] == '}' {
        i
    } else {
        spec_brace_end(s, i + 1)
    }
}

proof fn lemma_brace_end(s: Seq<char>, i: int)
    requires
        0 <= i <= s.len(),
    ensures
        i <= spec_brace_end(s, i) <= s.len(),
        forall|k: int| i <= k < spec_brace_end(s, i) ==> !(s[k] == '{' || s[k] == '}'),
        spec_brace_end(s, i) < s.len() ==> (s[spec_brace_end(s, i)] == '{' || s[spec_brace_end(
            s,
            i,
        )] == '}'),
    decreases s.len() - i,
{
    if i < s.len() && !(s[i] == '{' || s[i] == '}') {
        lemma_brace_end(s, i + 1);
    }
}

/// One left-to-right pass removing every innermost brace group: a `{`, a
/// body without braces, and a `}` disappear together; everything else stays.
pub open spec fn spec_remove_groups_once(s: Seq<char>) -> Seq<char>
    decreases s.len(),
    via spec_remove_groups_once_decreases
{
    if s.len() == 0 {
        Seq::empty()
    } else if s[0] == '{' {
        let j = spec_brace_end(s, 1);
        if j < s.len() && s[j] == '}' {
            spec_remove_groups_once(s.skip(j + 1))
        } else {
            s.subrange(0, j) + spec_remove_groups_once(s.skip(j))
        }
    } else {
        seq![s[0]] + spec_remove_groups_once(s.drop_first())
    }
}

#[via_fn]
proof fn spec_remove_groups_once_decreases(s: Seq<char>) {
    if s.len() > 0 && s[0] == '{' {
        lemma_brace_end(s, 1);
    }
}

/// A pass never lengthens the text, and a pass that changes it shortens it.
proof fn lemma_remove_groups_once_len(s: Seq<char>)
    ensures
        spec_remove_groups_once(s).len() <= s.len(),
        spec_remove_groups_once(s) != s ==> spec_remove_groups_once(s).len() < s.len(),
    decreases s.len(),
{
    if s.len() == 0 {
        assert(spec_remove_groups_once(s) =~= s);
    } else if s[0] == '{' {
        lemma_brace_end(s, 1);
        let j = spec_brace_end(s, 1);
        if j < s.len() && s[j] == '}' {
            lemma_remove_groups_once_len(s.skip(j + 1));
            assert(s.skip(j + 1).len() == s.len() - j - 1);
            assert(spec_remove_groups_once(s).len() < s.len());
        } else {
            lemma_remove_groups_once_len(s.skip(j));
            assert(s.skip(j).len() == s.len() - j);
            assert(spec_remove_groups_once(s).len() == j + spec_remove_groups_once(s.skip(j)).len());
            if spec_remove_groups_once(s.skip(j)) == s.skip(j) {
                assert(spec_remove_groups_once(s) =~= s);
            }
        }
    } else {
        lemma_remove_groups_once_len(s.drop_first());
        assert(spec_remove_groups_once(s).len() == 1 + spec_remove_groups_once(
            s.drop_first(),
        ).len());
        if spec_remove_groups_once(s.drop_first()) == s.drop_first() {
            assert(spec_remove_groups_once(s) =~= s);
        }
    }
}

/// Innermost brace groups are removed again and again until a pass changes
/// nothing; text with at most one kind of brace left is kept as it stands.
pub open spec fn spec_remove_groups(s: Seq<char>) -> Seq<char>
    decreases s.len(),
    via spec_remove_groups_decreases
{
    if !(spec_contains_char(s, '{') && spec_contains_char(s, '}')) {
        s
    } else {
        let t = spec_remove_groups_once(s);
        if t == s {
            s
        } else {
            spec_remove_groups(t)
        }
    }
}

#[via_fn]
proof fn spec_remove_groups_decreases(s: Seq<char>) {
    lemma_remove_groups_once_len(s);
}

/// One pass of innermost-group removal.
pub fn remove_groups_once(s: &Vec<char>) -> (r: Vec<char>)
    ensures
        r@ == spec_remove_groups_once(s@),
{
    let mut out: Vec<char> = Vec::new();
    let mut i: usize = 0;
    proof {
        assert(s@.skip(0) =~= s@);
    }
    while i < s.len()
        invariant
            0 <= i <= s.len(),
            spec_remove_groups_once(s@) =~= out@ + spec_remove_groups_once(s@.skip(i as int)),
        decreases s.len() - i,
    {
        let ghost rest = s@.skip(i as int);
        if s[i] == '{' {
            let mut j: usize = i + 1;
            while j < s.len() && s[j] != '{' && s[j] != '}'
                invariant
                    i + 1 <= j <= s.len(),
                    forall|k: int| i + 1 <= k < j ==> !(s@[k] == '{' || s@[k] == '}'),
                decreases s.len() - j,
            {
                j = j + 1;
            }
            proof {
                lemma_brace_end(rest, 1);
                assert forall|k: int| 1 <= k < j - i implies !(rest[k] == '{' || rest[k] == '}')
                    by {
                    assert(rest[k] == s@[i + k]);
                }
                if j < s.len() {
                    assert(rest[j - i] == s@[j as int]);
                }
                assert(spec_brace_end(rest, 1) == j - i) by {
                    if spec_brace_end(rest, 1) < j - i {
                        assert(!(rest[spec_brace_end(rest, 1)] == '{' || rest[spec_brace_end(
                            rest,
                            1,
                        )] == '}'));
                    }
                }
            }
            if j < s.len() && s[j] == '}' {
                proof {
                    assert(rest[j - i] == s@[j as int]);
                    assert(rest.skip(j - i + 1) =~= s@.skip(j + 1));
                }
                i = j + 1;
            } else {
                let mut k: usize = i;
                let ghost out0 = out@;
                while k < j
                    invariant
                        i <= k <= j <= s.len(),
                        out@ == out0 + s@.subrange(i as int, k as int),
                    decreases j - k,
                {
                    out.push(s[k]);
                    proof {
                        assert(s@.subrange(i as int, k + 1) =~= s@.subrange(i as int, k as int).push(
                            s@[k as int],
                        ));
                    }
                    k = k + 1;
                }
                proof {
                    assert(rest.subrange(0, j - i) =~= s@.subrange(i as int, j as int));
                    assert(rest.skip(j - i) =~= s@.skip(j as int));
                }
                proof {
                    assert(spec_remove_groups_once(rest) =~= s@.subrange(i as int, j as int)
                        + spec_remove_groups_once(s@.skip(j as int)));
                    assert(out@ + spec_remove_groups_once(s@.skip(j as int))
                        =~= out0 + spec_remove_groups_once(rest));
                }
                i = j;
            }
        } else {
            proof {
                assert(rest[0] == s@[i as int]);
                assert(rest.drop_first() =~= s@.skip(i + 1));
            }
            out.push(s[i]);
            i = i + 1;
        }
    }
    proof {
        assert(spec_remove_groups_once(s@.skip(i as int)) =~= Seq::<char>::empty());
    }
    out
}

/// First index at or after `i` not holding an ASCII letter, or the length.
pub open spec fn spec_alpha_end(s: Seq<char>, i: int) -> int
    decreases s.len() - i,
    when 0 <= i
{
    if i >= s.len() {
        s.len() as int
    } else if crate::text::spec_is_ascii_alpha(s[i]) {
        spec_alpha_end(s, i + 1)
    } else {
        i
    }
}

proof fn lemma_alpha_end(s: Seq<char>, i: int)
    requires
        0 <= i <= s.len(),
    ensures
        i <= spec_alpha_end(s, i) <= s.len(),
        forall|k: int| i <= k < spec_alpha_end(s, i) ==> crate::text::spec_is_ascii_alpha(s[k]),
        spec_alpha_end(s, i) < s.len() ==> !crate::text::spec_is_ascii_alpha(
            s[spec_alpha_end(s, i)],
        ),
    decreases s.len() - i,
{
    if i < s.len() && crate::text::spec_is_ascii_alpha(s[i]) {
        lemma_alpha_end(s, i + 1);
    }
}

fn alpha_end(s: &Vec<char>, i: usize) -> (r: usize)
    requires
        i <= s@.len(),
    ensures
        r == spec_alpha_end(s@, i as int),
        i <= r <= s@.len(),
{
    proof {
        lemma_alpha_end(s@, i as int);
    }
    let mut j: usize = i;
    while j < s.len() && crate::text::is_ascii_alpha(s[j])
        invariant
            i <= j <= s.len(),
            forall|k: int| i <= k < j ==> crate::text::spec_is_ascii_alpha(s@[k]),
        decreases s.len() - j,
    {
        j = j + 1;
    }
    proof {
        if spec_alpha_end(s@, i as int) < j {
            assert(!crate::text::spec_is_ascii_alpha(s@[spec_alpha_end(s@, i as int)]));
        }
        if j < spec_alpha_end(s@, i as int) {
            assert(crate::text::spec_is_ascii_alpha(s@[j as int]));
        }
    }
    j
}

/// First index at or after `i` not holding an ASCII digit, or the length.
pub open spec fn spec_digit_end(s: Seq<char>, i: int) -> int
    decreases s.len() - i,
    when 0 <= i
{
    if i >= s.len() {
        s.len() as int
    } else if crate::text::spec_is_digit(s[i]) {
        spec_digit_end(s, i + 1)
    } else {
        i
    }
}

proof fn lemma_digit_end(s: Seq<char>, i: int)
    requires
        0 <= i <= s.len(),
    ensures
        i <= spec_digit_end(s, i) <= s.len(),
        forall|k: int| i <= k < spec_digit_end(s, i) ==> crate::text::spec_is_digit(s[k]),
        spec_digit_end(s, i) < s.len() ==> !crate::text::spec_is_digit(s[spec_digit_end(s, i)]),
    decreases s.len() - i,
{
    if i < s.len() && crate::text::spec_is_digit(s[i]) {
        lemma_digit_end(s, i + 1);
    }
}

fn digit_end(s: &Vec<char>, i: usize) -> (r: usize)
    requires
        i <= s@.len(),
    ensures
        r == spec_digit_end(s@, i as int),
        i <= r <= s@.len(),
{
    proof {
        lemma_digit_end(s@, i as int);
    }
    let mut j: usize = i;
    while j < s.len() && crate::text::is_digit(s[j])
        invariant
            i <= j <= s.len(),
            forall|k: int| i <= k < j ==> crate::text::spec_is_digit(s@[k]),
        decreases s.len() - j,
    {
        j = j + 1;
    }
    proof {
        if spec_digit_end(s@, i as int) < j {
            assert(!crate::text::spec_is_digit(s@[spec_digit_end(s@, i as int)]));
        }
        if j < spec_digit_end(s@, i as int) {
            assert(crate::text::spec_is_digit(s@[j as int]));
        }
    }
    j
}

/// First index at or after `i` not holding whitespace, or the length.
pub open spec fn spec_space_end(s: Seq<char>, i: int) -> int
    decreases s.len() - i,
    when 0 <= i
{
    if i >= s.len() {
        s.len() as int
    } else if spec_is_space(s[i]) {
        spec_space_end(s, i + 1)
    } else {
        i
    }
}

proof fn lemma_space_end(s: Seq<char>, i: int)
    requires
        0 <= i <= s.len(),
    ensures
        i <= spec_space_end(s, i) <= s.len(),
        forall|k: int| i <= k < spec_space_end(s, i) ==> spec_is_space(s[k]),
        spec_space_end(s, i) < s.len() ==> !spec_is_space(s[spec_space_end(s, i)]),
    decreases s.len() - i,
{
    if i < s.len() && spec_is_space(s[i]) {
        lemma_space_end(s, i + 1);
    }
}

fn space_end(s: &Vec<char>, i: usize) -> (r: usize)
    requires
        i <= s@.len(),
    ensures
        r == spec_space_end(s@, i as int),
        i <= r <= s@.len(),
{
    proof {
        lemma_space_end(s@, i as int);
    }
    let mut j: usize = i;
    while j < s.len() && is_space(s[j])
        invariant
            i <= j <= s.len(),
            forall|k: int| i <= k < j ==> spec_is_space(s@[k]),
        decreases s.len() - j,
    {
        j = j + 1;
    }
    proof {
        if spec_space_end(s@, i as int) < j {
            assert(!spec_is_space(s@[spec_space_end(s@, i as int)]));
        }
        if j < spec_space_end(s@, i as int) {
            assert(spec_is_space(s@[j as int]));
        }
    }
    j
}

/// A control word is a backslash, letters, optional digits, and optional
/// trailing whitespace; each becomes a single space.
pub open spec fn spec_strip_controls(s: Seq<char>) -> Seq<char>
    decreases s.len(),
    via spec_strip_controls_decreases
{
    if s.len() == 0 {
        Seq::empty()
    } else if s[0] == '\\' && s.len() >= 2 && crate::text::spec_is_ascii_alpha(s[1]) {
        let a = spec_alpha_end(s, 1);
        let d = spec_digit_end(s, a);
        let w = spec_space_end(s, d);
        seq![' '] + spec_strip_controls(s.skip(w))
    } else {
        seq![s[0]] + spec_strip_controls(s.drop_first())
    }
}

#[via_fn]
proof fn spec_strip_controls_decreases(s: Seq<char>) {
    if s.len() > 0 && s[0] == '\\' && s.len() >= 2 && crate::text::spec_is_ascii_alpha(s[1]) {
        lemma_alpha_end(s, 1);
        let a = spec_alpha_end(s, 1);
        assert(a >= 2) by {
            if a < 2 {
                assert(!crate::text::spec_is_ascii_alpha(s[1]));
            }
        }
        lemma_digit_end(s, a);
        lemma_space_end(s, spec_digit_end(s, a));
    }
}

/// Replaces every control word by one space.
pub fn strip_controls(s: &Vec<char>) -> (r: Vec<char>)
    ensures
        r@ == spec_strip_controls(s@),
{
    let mut out: Vec<char> = Vec::new();
    let mut i: usize = 0;
    proof {
        assert(s@.skip(0) =~= s@);
    }
    while i < s.len()
        invariant
            0 <= i <= s.len(),
            spec_strip_controls(s@) =~= out@ + spec_strip_controls(s@.skip(i as int)),
        decreases s.len() - i,
    {
        let ghost rest = s@.skip(i as int);
        proof {
            assert(rest[0] == s@[i as int]);
            if rest.len() >= 2 {
                assert(rest[1] == s@[i + 1]);
            }
        }
        if s[i] == '\\' && i + 1 < s.len() && crate::text::is_ascii_alpha(s[i + 1]) {
            let a = alpha_end(s, i + 1);
            let d = digit_end(s, a);
            let w = space_end(s, d);
            proof {
                lemma_run_translate_alpha(s@, i as int, i + 1);
                lemma_run_translate_digit(s@, i as int, a as int);
                lemma_run_translate_space(s@, i as int, d as int);
                assert(rest.skip(w - i) =~= s@.skip(w as int));
            }
            out.push(' ');
            i = w;
        } else {
            proof {
                assert(rest.drop_first() =~= s@.skip(i + 1));
            }
            out.push(s[i]);
            i = i + 1;
        }
    }
    proof {
        assert(spec_strip_controls(s@.skip(i as int)) =~= Seq::<char>::empty());
    }
    out
}

/// Run ends computed on the whole text agree with those computed on its
/// suffix starting at `base`.
proof fn lemma_run_translate_alpha(s: Seq<char>, base: int, j: int)
    requires
        0 <= base <= j <= s.len(),
    ensures
        spec_alpha_end(s.skip(base), j - base) == spec_alpha_end(s, j) - base,
    decreases s.len() - j,
{
    if j < s.len() {
        assert(s.skip(base)[j - base] == s[j]);
        if crate::text::spec_is_ascii_alpha(s[j]) {
            lemma_run_translate_alpha(s, base, j + 1);
        }
    }
}

proof fn lemma_run_translate_digit(s: Seq<char>, base: int, j: int)
    requires
        0 <= base <= j <= s.len(),
    ensures
        spec_digit_end(s.skip(base), j - base) == spec_digit_end(s, j) - base,
    decreases s.len() - j,
{
    if j < s.len() {
        assert(s.skip(base)[j - base] == s[j]);
        if crate::text::spec_is_digit(s[j]) {
            lemma_run_translate_digit(s, base, j + 1);
        }
    }
}

proof fn lemma_run_translate_space(s: Seq<char>, base: int, j: int)
    requires
        0 <= base <= j <= s.len(),
    ensures
        spec_space_end(s.skip(base), j - base) == spec_space_end(s, j) - base,
    decreases s.len() - j,
{
    if j < s.len() {
        assert(s.skip(base)[j - base] == s[j]);
        if spec_is_space(s[j]) {
            lemma_run_translate_space(s, base, j + 1);
        }
    }
}

/// An escaped brace (a backslash before `{` or `}`) disappears.
pub open spec fn spec_strip_brace_escapes(s: Seq<char>) -> Seq<char>
    decreases s.len(),
{
    if s.len() == 0 {
        Seq::empty()
    } else if s[0] == '\\' && s.len() >= 2 && (s[1] == '{' || s[1] == '}') {
        spec_strip_brace_escapes(s.skip(2))
    } else {
        seq![s[0]] + spec_strip_brace_escapes(s.drop_first())
    }
}

/// Removes escaped-brace sequences.
pub fn strip_brace_escapes(s: &Vec<char>) -> (r: Vec<char>)
    ensures
        r@ == spec_strip_brace_escapes(s@),
{
    let mut out: Vec<char> = Vec::new();
    let mut i: usize = 0;
    proof {
        assert(s@.skip(0) =~= s@);
    }
    while i < s.len()
        invariant
            0 <= i <= s.len(),
            spec_strip_brace_escapes(s@) =~= out@ + spec_strip_brace_escapes(s@.skip(i as int)),
        decreases s.len() - i,
    {
        let ghost rest = s@.skip(i as int);
        proof {
            assert(rest[0] == s@[i as int]);
            if rest.len() >= 2 {
                assert(rest[1] == s@[i + 1]);
            }
        }
        if s[i] == '\\' && i + 1 < s.len() && (s[i + 1] == '{' || s[i + 1] == '}') {
            proof {
                assert(rest.skip(2) =~= s@.skip(i + 2));
            }
            i = i + 2;
        } else {
            proof {
                assert(rest.drop_first() =~= s@.skip(i + 1));
            }
            out.push(s[i]);
            i = i + 1;
        }
    }
    proof {
        assert(spec_strip_brace_escapes(s@.skip(i as int)) =~= Seq::<char>::empty());
    }
    out
}

/// A hex escape (a backslash, an apostrophe and two hex digits) disappears.
pub open spec fn spec_strip_hex_escapes(s: Seq<char>) -> Seq<char>
    decreases s.len(),
{
    if s.len() == 0 {
        Seq::empty()
    } else if s[0] == '\\' && s.len() >= 4 && s[1] == '\'' && crate::text::spec_is_hex_digit(s[2])
        && crate::text::spec_is_hex_digit(s[3]) {
        spec_strip_hex_escapes(s.skip(4))
    } else {
        seq![s[0]] + spec_strip_hex_escapes(s.drop_first())
    }
}

/// Removes hex-escape sequences.
pub fn strip_hex_escapes(s: &Vec<char>) -> (r: Vec<char>)
    ensures
        r@ == spec_strip_hex_escapes(s@),
{
    let mut out: Vec<char> = Vec::new();
    let mut i: usize = 0;
    proof {
        assert(s@.skip(0) =~= s@);
    }
    while i < s.len()
        invariant
            0 <= i <= s.len(),
            spec_strip_hex_escapes(s@) =~= out@ + spec_strip_hex_escapes(s@.skip(i as int)),
        decreases s.len() - i,
    {
        let ghost rest = s@.skip(i as int);
        proof {
            assert(rest[0] == s@[i as int]);
            if rest.len() >= 4 {
                assert(rest[1] == s@[i + 1]);
                assert(rest[2] == s@[i + 2]);
                assert(rest[3] == s@[i + 3]);
            }
        }
        if s[i] == '\\' && s.len() - i >= 4 && s[i + 1] == '\'' && crate::text::is_hex_digit(
            s[i + 2],
        ) && crate::text::is_hex_digit(s[i + 3]) {
            proof {
                assert(rest.skip(4) =~= s@.skip(i + 4));
            }
            i = i + 4;
        } else {
            proof {
                assert(rest.drop_first() =~= s@.skip(i + 1));
            }
            out.push(s[i]);
            i = i + 1;
        }
    }
    proof {
        assert(spec_strip_hex_escapes(s@.skip(i as int)) =~= Seq::<char>::empty());
    }
    out
}

/// A token of digits between whitespace collapses, with its surrounding
/// whitespace, into one space.
pub open spec fn spec_strip_loose_numbers(s: Seq<char>) -> Seq<char>
    decreases s.len(),
    via spec_strip_loose_numbers_decreases
{
    if s.len() == 0 {
        Seq::empty()
    } else if spec_is_space(s[0]) {
        let sp = spec_space_end(s, 0);
        let d = spec_digit_end(s, sp);
        let sp2 = spec_space_end(s, d);
        if d > sp && sp2 > d {
            seq![' '] + spec_strip_loose_numbers(s.skip(sp2))
        } else {
            s.subrange(0, d) + spec_strip_loose_numbers(s.skip(d))
        }
    } else {
        seq![s[0]] + spec_strip_loose_numbers(s.drop_first())
    }
}

#[via_fn]
proof fn spec_strip_loose_numbers_decreases(s: Seq<char>) {
    if s.len() > 0 && spec_is_space(s[0]) {
        lemma_space_end(s, 0);
        let sp = spec_space_end(s, 0);
        assert(sp >= 1) by {
            if sp < 1 {
                assert(!spec_is_space(s[0]));
            }
        }
        lemma_digit_end(s, sp);
        lemma_space_end(s, spec_digit_end(s, sp));
    }
}

/// Replaces every whitespace-digits-whitespace token by one space.
pub fn strip_loose_numbers(s: &Vec<char>) -> (r: Vec<char>)
    ensures
        r@ == spec_strip_loose_numbers(s@),
{
    let mut out: Vec<char> = Vec::new();
    let mut i: usize = 0;
    proof {
        assert(s@.skip(0) =~= s@);
    }
    while i < s.len()
        invariant
            0 <= i <= s.len(),
            spec_strip_loose_numbers(s@) =~= out@ + spec_strip_loose_numbers(s@.skip(i as int)),
        decreases s.len() - i,
    {
        let ghost rest = s@.skip(i as int);
        proof {
            assert(rest[0] == s@[i as int]);
        }
        if is_space(s[i]) {
            let sp = space_end(s, i);
            let d = digit_end(s, sp);
            let sp2 = space_end(s, d);
            proof {
                lemma_run_translate_space(s@, i as int, i as int);
                lemma_run_translate_digit(s@, i as int, sp as int);
                lemma_run_translate_space(s@, i as int, d as int);
                lemma_space_end(s@, i as int);
                assert(sp > i) by {
                    if sp == i {
                        assert(!spec_is_space(s@[i as int]));
                    }
                }
            }
            if d > sp && sp2 > d {
                proof {
                    assert(rest.skip(sp2 - i) =~= s@.skip(sp2 as int));
                }
                out.push(' ');
                i = sp2;
            } else {
                let ghost out0 = out@;
                let mut k: usize = i;
                while k < d
                    invariant
                        i <= k <= d <= s.len(),
                        out@ == out0 + s@.subrange(i as int, k as int),
                    decreases d - k,
                {
                    out.push(s[k]);
                    proof {
                        assert(s@.subrange(i as int, k + 1) =~= s@.subrange(
                            i as int,
                            k as int,
                        ).push(s@[k as int]));
                    }
                    k = k + 1;
                }
                proof {
                    assert(rest.subrange(0, d - i) =~= s@.subrange(i as int, d as int));
                    assert(rest.skip(d - i) =~= s@.skip(d as int));
                    assert(out@ + spec_strip_loose_numbers(s@.skip(d as int)) =~= out0
                        + spec_strip_loose_numbers(rest));
                }
                i = d;
            }
        } else {
            proof {
                assert(rest.drop_first() =~= s@.skip(i + 1));
            }
            out.push(s[i]);
            i = i + 1;
        }
    }
    proof {
        assert(spec_strip_loose_numbers(s@.skip(i as int)) =~= Seq::<char>::empty());
    }
    out
}

/// Control characters are the low ASCII range and the characters just above
/// ASCII (the C1 range); they are removed from every line.
pub open spec fn spec_is_ctrl(c: char) -> bool {
    c as u32 <= 0x1F || (0x7F <= c as u32 && c as u32 <= 0x9F)
}

#[verifier::when_used_as_spec(spec_is_ctrl)]
pub fn is_ctrl(c: char) -> (r: bool)
    ensures
        r == spec_is_ctrl(c),
{
    let u = c as u32;
    u <= 0x1F || (0x7F <= u && u <= 0x9F)
}

/// `s` with its control characters removed.
pub open spec fn spec_strip_ctrl(s: Seq<char>) -> Seq<char>
    decreases s.len(),
{
    if s.len() == 0 {
        Seq::empty()
    } else if spec_is_ctrl(s[0]) {
        spec_strip_ctrl(s.drop_first())
    } else {
        seq![s[0]] + spec_strip_ctrl(s.drop_first())
    }
}

/// Removes control characters.
pub fn strip_ctrl(s: &Vec<char>) -> (r: Vec<char>)
    ensures
        r@ == spec_strip_ctrl(s@),
{
    let mut out: Vec<char> = Vec::new();
    let mut i: usize = 0;
    proof {
        assert(s@.skip(0) =~= s@);
    }
    while i < s.len()
        invariant
            0 <= i <= s.len(),
            spec_strip_ctrl(s@) =~= out@ + spec_strip_ctrl(s@.skip(i as int)),
        decreases s.len() - i,
    {
        let ghost rest = s@.skip(i as int);
        proof {
            assert(rest[0] == s@[i as int]);
            assert(rest.drop_first() =~= s@.skip(i + 1));
        }
        if !is_ctrl(s[i]) {
            out.push(s[i]);
        }
        i = i + 1;
    }
    proof {
        assert(spec_strip_ctrl(s@.skip(i as int)) =~= Seq::<char>::empty());
    }
    out
}

/// The number of occurrences of `c` in `s`.
pub open spec fn spec_count_char(s: Seq<char>, c: char) -> int
    decreases s.len(),
{
    if s.len() == 0 {
        0
    } else if s[0] == c {
        1 + spec_count_char(s.drop_first(), c)
    } else {
        spec_count_char(s.drop_first(), c)
    }
}

proof fn lemma_count_char_bound(s: Seq<char>, c: char)
    ensures
        0 <= spec_count_char(s, c) <= s.len(),
    decreases s.len(),
{
    if s.len() > 0 {
        lemma_count_char_bound(s.drop_first(), c);
    }
}

pub fn count_char(s: &Vec<char>, c: char) -> (r: usize)
    ensures
        r == spec_count_char(s@, c),
{
    proof {
        lemma_count_char_bound(s@, c);
    }
    let mut r: usize = 0;
    let mut i: usize = 0;
    proof {
        assert(s@.skip(0) =~= s@);
    }
    while i < s.len()
        invariant
            0 <= i <= s.len(),
            r <= i,
            spec_count_char(s@, c) == r + spec_count_char(s@.skip(i as int), c),
        decreases s.len() - i,
    {
        let ghost rest = s@.skip(i as int);
        proof {
            assert(rest[0] == s@[i as int]);
            assert(rest.drop_first() =~= s@.skip(i + 1));
            lemma_count_char_bound(s@.skip(i as int), c);
            lemma_count_char_bound(s@.skip(i + 1), c);
        }
        if s[i] == c {
            r = r + 1;
        }
        i = i + 1;
    }
    r
}

/// The known font-name artifacts that a legacy document leaves behind.
pub open spec fn spec_font_names() -> Seq<Seq<char>> {
    seq![
        seq!['t', 'i', 'm', 'e', 's', ' ', 'n', 'e', 'w', ' ', 'r', 'o', 'm', 'a', 'n'],
        seq!['a', 'r', 'i', 'a', 'l'],
        seq!['c', 'a', 'l', 'i', 'b', 'r', 'i'],
        seq!['h', 'e', 'l', 'v', 'e', 't', 'i', 'c', 'a'],
        seq!['t', 'r', 'e', 'b', 'u', 'c', 'h', 'e', 't', ' ', 'm', 's'],
        seq!['c', 'a', 'm', 'b', 'r', 'i', 'a'],
        seq!['t', 'i', 'm', 'e', 's'],
    ]
}

fn font_names() -> (r: Vec<Vec<char>>)
    ensures
        r.deep_view() == spec_font_names(),
{
    let mut r: Vec<Vec<char>> = Vec::new();
    let f0: Vec<char> = vec!['t', 'i', 'm', 'e', 's', ' ', 'n', 'e', 'w', ' ', 'r', 'o', 'm', 'a', 'n'];
    let f1: Vec<char> = vec!['a', 'r', 'i', 'a', 'l'];
    let f2: Vec<char> = vec!['c', 'a', 'l', 'i', 'b', 'r', 'i'];
    let f3: Vec<char> = vec!['h', 'e', 'l', 'v', 'e', 't', 'i', 'c', 'a'];
    let f4: Vec<char> = vec!['t', 'r', 'e', 'b', 'u', 'c', 'h', 'e', 't', ' ', 'm', 's'];
    let f5: Vec<char> = vec!['c', 'a', 'm', 'b', 'r', 'i', 'a'];
    let f6: Vec<char> = vec!['t', 'i', 'm', 'e', 's'];
    r.push(f0);
    r.push(f1);
    r.push(f2);
    r.push(f3);
    r.push(f4);
    r.push(f5);
    r.push(f6);
    proof {
        assert(r.deep_view() =~~= spec_font_names());
    }
    r
}

/// The lowered line names a font.
pub open spec fn spec_is_font_name(lower: Seq<char>) -> bool {
    exists|k: int| 0 <= k < spec_font_names().len() && #[trigger] spec_font_names()[k] == lower
}

/// Length of the part of the line that must be words: everything, or
/// everything before one trailing closing brace.
pub open spec fn spec_only_words_len(lower: Seq<char>) -> int {
    if lower.len() > 0 && lower[lower.len() - 1] == '}' {
        lower.len() - 1
    } else {
        lower.len() as int
    }
}

/// The lowered line is only lower-case ASCII letters and whitespace, with at
/// most one trailing closing brace.
pub open spec fn spec_is_only_words(lower: Seq<char>) -> bool {
    spec_only_words_len(lower) >= 1 && forall|k: int|
        0 <= k < spec_only_words_len(lower) ==> ('a' <= #[trigger] lower[k] && lower[k] <= 'z')
            || spec_is_space(lower[k])
}

/// The line is only digits, whitespace and hyphens.
pub open spec fn spec_is_only_nums(line: Seq<char>) -> bool {
    line.len() >= 1 && forall|k: int|
        0 <= k < line.len() ==> crate::text::spec_is_digit(#[trigger] line[k]) || spec_is_space(
            line[k],
        ) || line[k] == '-'
}

/// A cleaned line is dropped as noise when it names a font, is only words or
/// only numbers, closes more braces than it has spaces, or is shorter than
/// three characters without being fully alphanumeric.
pub open spec fn spec_is_noise(line: Seq<char>) -> bool {
    let lower = crate::text::spec_lower_seq(line);
    spec_is_font_name(lower) || spec_is_only_words(lower) || spec_is_only_nums(line)
        || spec_count_char(line, '}') > spec_count_char(line, ' ') || (line.len() < 3 && !(
    forall|k: int| 0 <= k < line.len() ==> crate::text::spec_is_alphanumeric(#[trigger] line[k])))
}

/// Decides whether a cleaned line is dropped as noise.
pub fn is_noise(line: &Vec<char>) -> (r: bool)
    ensures
        r == spec_is_noise(line@),
{
    let lower = crate::text::lower_chars(line);
    let fonts = font_names();
    let mut k: usize = 0;
    let mut is_font: bool = false;
    while k < fonts.len()
        invariant
            0 <= k <= fonts.len(),
            fonts.deep_view() == spec_font_names(),
            lower@ == crate::text::spec_lower_seq(line@),
            is_font <==> exists|m: int|
                0 <= m < k && #[trigger] spec_font_names()[m] == lower@,
        decreases fonts.len() - k,
    {
        proof {
            assert(fonts@[k as int].deep_view() =~= fonts@[k as int]@);
            assert(fonts@[k as int]@ == spec_font_names()[k as int]);
        }
        if eq_chars(&fonts[k], &lower) {
            is_font = true;
        }
        k = k + 1;
    }
    if is_font {
        return true;
    }
    // only lower-case words, with at most one trailing brace
    let body_len: usize = if lower.len() > 0 && lower[lower.len() - 1] == '}' {
        lower.len() - 1
    } else {
        lower.len()
    };
    proof {
        assert(body_len == spec_only_words_len(lower@));
    }
    if body_len >= 1 {
        if words_prefix(&lower, body_len) {
            return true;
        }
    }
    // only digits, whitespace and hyphens
    if line.len() >= 1 {
        if nums_prefix(line, line.len()) {
            return true;
        }
    }
    if count_char(line, '}') > count_char(line, ' ') {
        return true;
    }
    if line.len() < 3 {
        if !alnum_prefix(line, line.len()) {
            return true;
        }
    }
    false
}

/// The first `n` characters are lower-case ASCII letters or whitespace.
fn words_prefix(s: &Vec<char>, n: usize) -> (r: bool)
    requires
        n <= s@.len(),
    ensures
        r == (forall|q: int|
            0 <= q < n ==> ('a' <= #[trigger] s@[q] && s@[q] <= 'z') || spec_is_space(s@[q])),
{
    let mut m: usize = 0;
    while m < n
        invariant
            0 <= m <= n <= s@.len(),
            forall|q: int|
                0 <= q < m ==> ('a' <= #[trigger] s@[q] && s@[q] <= 'z') || spec_is_space(s@[q]),
        decreases n - m,
    {
        let c = s[m];
        if !(('a' <= c && c <= 'z') || is_space(c)) {
            return false;
        }
        m = m + 1;
    }
    true
}

/// The first `n` characters are digits, whitespace or hyphens.
fn nums_prefix(s: &Vec<char>, n: usize) -> (r: bool)
    requires
        n <= s@.len(),
    ensures
        r == (forall|q: int|
            0 <= q < n ==> crate::text::spec_is_digit(#[trigger] s@[q]) || spec_is_space(s@[q])
                || s@[q] == '-'),
{
    let mut m: usize = 0;
    while m < n
        invariant
            0 <= m <= n <= s@.len(),
            forall|q: int|
                0 <= q < m ==> crate::text::spec_is_digit(#[trigger] s@[q]) || spec_is_space(s@[q])
                    || s@[q] == '-',
        decreases n - m,
    {
        let c = s[m];
        if !(crate::text::is_digit(c) || is_space(c) || c == '-') {
            return false;
        }
        m = m + 1;
    }
    true
}

/// The first `n` characters are alphanumeric.
fn alnum_prefix(s: &Vec<char>, n: usize) -> (r: bool)
    requires
        n <= s@.len(),
    ensures
        r == (forall|q: int| 0 <= q < n ==> crate::text::spec_is_alphanumeric(#[trigger] s@[q])),
{
    let mut m: usize = 0;
    while m < n
        invariant
            0 <= m <= n <= s@.len(),
            forall|q: int| 0 <= q < m ==> crate::text::spec_is_alphanumeric(#[trigger] s@[q]),
        decreases n - m,
    {
        if !crate::text::is_alphanumeric(s[m]) {
            return false;
        }
        m = m + 1;
    }
    true
}

/// A digit or a hyphen: the characters of a loose numeric token.
pub open spec fn spec_is_numdash(c: char) -> bool {
    crate::text::spec_is_digit(c) || c == '-'
}

#[verifier::when_used_as_spec(spec_is_numdash)]
pub fn is_numdash(c: char) -> (r: bool)
    ensures
        r == spec_is_numdash(c),
{
    crate::text::is_digit(c) || c == '-'
}

/// First index at or after `i` not holding a digit or hyphen, or the length.
pub open spec fn spec_numdash_end(s: Seq<char>, i: int) -> int
    decreases s.len() - i,
    when 0 <= i
{
    if i >= s.len() {
        s.len() as int
    } else if spec_is_numdash(s[i]) {
        spec_numdash_end(s, i + 1)
    } else {
        i
    }
}

proof fn lemma_numdash_end(s: Seq<char>, i: int)
    requires
        0 <= i <= s.len(),
    ensures
        i <= spec_numdash_end(s, i) <= s.len(),
        forall|k: int| i <= k < spec_numdash_end(s, i) ==> spec_is_numdash(s[k]),
        spec_numdash_end(s, i) < s.len() ==> !spec_is_numdash(s[spec_numdash_end(s, i)]),
    decreases s.len() - i,
{
    if i < s.len() && spec_is_numdash(s[i]) {
        lemma_numdash_end(s, i + 1);
    }
}

fn numdash_end(s: &Vec<char>, i: usize) -> (r: usize)
    requires
        i <= s@.len(),
    ensures
        r == spec_numdash_end(s@, i as int),
        i <= r <= s@.len(),
{
    proof {
        lemma_numdash_end(s@, i as int);
    }
    let mut j: usize = i;
    while j < s.len() && is_numdash(s[j])
        invariant
            i <= j <= s.len(),
            forall|k: int| i <= k < j ==> spec_is_numdash(s@[k]),
        decreases s.len() - j,
    {
        j = j + 1;
    }
    proof {
        if spec_numdash_end(s@, i as int) < j {
            assert(!spec_is_numdash(s@[spec_numdash_end(s@, i as int)]));
        }
        if j < spec_numdash_end(s@, i as int) {
            assert(spec_is_numdash(s@[j as int]));
        }
    }
    j
}

/// Start of the maximal digit-or-hyphen run ending at the end of `t`, or the
/// length when the last character is no such run.
pub open spec fn spec_numdash_start(t: Seq<char>) -> int
    decreases t.len(),
{
    if t.len() > 0 && spec_is_numdash(t[t.len() - 1]) {
        spec_numdash_start(t.drop_last())
    } else {
        t.len() as int
    }
}

proof fn lemma_numdash_start(t: Seq<char>)
    ensures
        0 <= spec_numdash_start(t) <= t.len(),
        forall|k: int| spec_numdash_start(t) <= k < t.len() ==> spec_is_numdash(t[k]),
        spec_numdash_start(t) > 0 ==> !spec_is_numdash(t[spec_numdash_start(t) - 1]),
    decreases t.len(),
{
    if t.len() > 0 && spec_is_numdash(t[t.len() - 1]) {
        lemma_numdash_start(t.drop_last());
        assert forall|k: int| spec_numdash_start(t) <= k < t.len() implies spec_is_numdash(t[k])
            by {
            if k < t.len() - 1 {
                assert(t.drop_last()[k] == t[k]);
            }
        }
    }
}

/// Copy of `s[a..b)`.
fn copy_range(s: &Vec<char>, a: usize, b: usize) -> (r: Vec<char>)
    requires
        a <= b <= s@.len(),
    ensures
        r@ == s@.subrange(a as int, b as int),
{
    let mut r: Vec<char> = Vec::new();
    let mut k: usize = a;
    while k < b
        invariant
            a <= k <= b <= s@.len(),
            r@ == s@.subrange(a as int, k as int),
        decreases b - k,
    {
        r.push(s[k]);
        proof {
            assert(s@.subrange(a as int, k + 1) =~= s@.subrange(a as int, k as int).push(
                s@[k as int],
            ));
        }
        k = k + 1;
    }
    r
}

/// Index after which only trailing whitespace follows: the trimmed-back line
/// is `s[..r)`.
fn trim_back_end(s: &Vec<char>, upto: usize) -> (r: usize)
    requires
        upto <= s@.len(),
    ensures
        r <= upto,
        crate::text::spec_trim_back(s@.subrange(0, upto as int)) == s@.subrange(0, r as int),
        forall|k: int| r <= k < upto ==> spec_is_space(s@[k]),
        r > 0 ==> !spec_is_space(s@[r - 1]),
{
    let mut j: usize = upto;
    while j > 0 && is_space(s[j - 1])
        invariant
            0 <= j <= upto <= s@.len(),
            forall|k: int| j <= k < upto ==> spec_is_space(s@[k]),
        decreases j,
    {
        j = j - 1;
    }
    proof {
        let t = s@.subrange(0, upto as int);
        crate::text::lemma_trim_back_subrange(t, j as int);
        assert(t.subrange(0, j as int) =~= s@.subrange(0, j as int));
    }
    j
}

/// Index at which the line proper begins: leading whitespace ends there.
fn trim_front_start(s: &Vec<char>, from: usize) -> (r: usize)
    requires
        from <= s@.len(),
    ensures
        from <= r <= s@.len(),
        crate::text::spec_trim_front(s@.skip(from as int)) == s@.subrange(r as int, s@.len() as int),
        forall|k: int| from <= k < r ==> spec_is_space(s@[k]),
        r < s@.len() ==> !spec_is_space(s@[r as int]),
{
    let mut j: usize = from;
    while j < s.len() && is_space(s[j])
        invariant
            from <= j <= s@.len(),
            forall|k: int| from <= k < j ==> spec_is_space(s@[k]),
        decreases s@.len() - j,
    {
        j = j + 1;
    }
    proof {
        let f = s@.skip(from as int);
        assert forall|k: int| 0 <= k < j - from implies spec_is_space(f[k]) by {
            assert(f[k] == s@[from + k]);
        }
        if j < s.len() {
            assert(f[j - from] == s@[j as int]);
        }
        crate::text::lemma_trim_front_subrange(f, j - from);
        assert(f.subrange(j - from, f.len() as int) =~= s@.subrange(j as int, s@.len() as int));
    }
    j
}

/// A stray pair of words at the start of a line (two alphabetic tokens each
/// followed by whitespace) is removed: it is what remains of control words.
pub open spec fn spec_strip_stray_words(s: Seq<char>) -> Seq<char> {
    let a1 = spec_alpha_end(s, 0);
    let w1 = spec_space_end(s, a1);
    let a2 = spec_alpha_end(s, w1);
    let w2 = spec_space_end(s, a2);
    if a1 > 0 && w1 > a1 && a2 > w1 && w2 > a2 {
        s.skip(w2)
    } else {
        s
    }
}

pub fn strip_stray_words(s: &Vec<char>) -> (r: Vec<char>)
    ensures
        r@ == spec_strip_stray_words(s@),
{
    let a1 = alpha_end(s, 0);
    let w1 = space_end(s, a1);
    let a2 = alpha_end(s, w1);
    let w2 = space_end(s, a2);
    if a1 > 0 && w1 > a1 && a2 > w1 && w2 > a2 {
        let r = copy_range(s, w2, s.len());
        proof {
            assert(r@ =~= s@.skip(w2 as int));
        }
        r
    } else {
        let r = copy_range(s, 0, s.len());
        proof {
            assert(r@ =~= s@);
        }
        r
    }
}

/// A closing brace at the end of the line, with its surrounding whitespace,
/// is removed.
pub open spec fn spec_strip_trailing_brace(s: Seq<char>) -> Seq<char> {
    let t = crate::text::spec_trim_back(s);
    if t.len() > 0 && t[t.len() - 1] == '}' {
        crate::text::spec_trim_back(t.drop_last())
    } else {
        s
    }
}

pub fn strip_trailing_brace(s: &Vec<char>) -> (r: Vec<char>)
    ensures
        r@ == spec_strip_trailing_brace(s@),
{
    let j = trim_back_end(s, s.len());
    proof {
        assert(s@.subrange(0, s@.len() as int) =~= s@);
    }
    let ghost t = crate::text::spec_trim_back(s@);
    if j > 0 && s[j - 1] == '}' {
        let k = trim_back_end(s, j - 1);
        proof {
            assert(t =~= s@.subrange(0, j as int));
            assert(t.drop_last() =~= s@.subrange(0, j - 1));
        }
        let r = copy_range(s, 0, k);
        r
    } else {
        let r = copy_range(s, 0, s.len());
        proof {
            assert(r@ =~= s@);
        }
        r
    }
}

/// An opening brace at the start of the line, with its surrounding
/// whitespace, is removed.
pub open spec fn spec_strip_leading_brace(s: Seq<char>) -> Seq<char> {
    let f = crate::text::spec_trim_front(s);
    if f.len() > 0 && f[0] == '{' {
        crate::text::spec_trim_front(f.drop_first())
    } else {
        s
    }
}

pub fn strip_leading_brace(s: &Vec<char>) -> (r: Vec<char>)
    ensures
        r@ == spec_strip_leading_brace(s@),
{
    let i = trim_front_start(s, 0);
    proof {
        assert(s@.skip(0) =~= s@);
    }
    let ghost f = crate::text::spec_trim_front(s@);
    if i < s.len() && s[i] == '{' {
        let i2 = trim_front_start(s, i + 1);
        proof {
            assert(f =~= s@.subrange(i as int, s@.len() as int));
            assert(f.drop_first() =~= s@.skip(i + 1));
        }
        let r = copy_range(s, i2, s.len());
        proof {
            assert(r@ =~= s@.subrange(i2 as int, s@.len() as int));
        }
        r
    } else {
        let r = copy_range(s, 0, s.len());
        proof {
            assert(r@ =~= s@);
            if f.len() > 0 {
                assert(f[0] == s@[i as int]);
            }
        }
        r
    }
}

/// A leading numeric token (digits and hyphens) followed by whitespace is
/// removed, together with any whitespace before it.
pub open spec fn spec_strip_leading_num(s: Seq<char>) -> Seq<char> {
    let sp = spec_space_end(s, 0);
    let d = spec_numdash_end(s, sp);
    let sp2 = spec_space_end(s, d);
    if d > sp && sp2 > d {
        s.skip(sp2)
    } else {
        s
    }
}

pub fn strip_leading_num(s: &Vec<char>) -> (r: Vec<char>)
    ensures
        r@ == spec_strip_leading_num(s@),
{
    let sp = space_end(s, 0);
    let d = numdash_end(s, sp);
    let sp2 = space_end(s, d);
    if d > sp && sp2 > d {
        let r = copy_range(s, sp2, s.len());
        proof {
            assert(r@ =~= s@.skip(sp2 as int));
        }
        r
    } else {
        let r = copy_range(s, 0, s.len());
        proof {
            assert(r@ =~= s@);
        }
        r
    }
}

/// A trailing numeric token preceded by whitespace is removed, together with
/// the whitespace around it.
pub open spec fn spec_strip_trailing_num(s: Seq<char>) -> Seq<char> {
    let t = crate::text::spec_trim_back(s);
    let j = spec_numdash_start(t);
    if j < t.len() && j > 0 && spec_is_space(t[j - 1]) {
        crate::text::spec_trim_back(t.subrange(0, j))
    } else {
        s
    }
}

pub fn strip_trailing_num(s: &Vec<char>) -> (r: Vec<char>)
    ensures
        r@ == spec_strip_trailing_num(s@),
{
    let e = trim_back_end(s, s.len());
    proof {
        assert(s@.subrange(0, s@.len() as int) =~= s@);
    }
    let ghost t = crate::text::spec_trim_back(s@);
    proof {
        assert(t =~= s@.subrange(0, e as int));
        lemma_numdash_start(t);
    }
    // scan the digit-or-hyphen run backwards from the trimmed end
    let mut j: usize = e;
    while j > 0 && is_numdash(s[j - 1])
        invariant
            0 <= j <= e <= s@.len(),
            forall|k: int| j <= k < e ==> spec_is_numdash(s@[k]),
        decreases j,
    {
        j = j - 1;
    }
    proof {
        assert forall|k: int| j <= k < e implies spec_is_numdash(t[k]) by {
            assert(t[k] == s@[k]);
        }
        if j > 0 {
            assert(t[j - 1] == s@[j - 1]);
        }
        assert(spec_numdash_start(t) == j) by {
            if spec_numdash_start(t) < j {
                assert(spec_is_numdash(t[j - 1]));
            }
            if j < spec_numdash_start(t) {
                assert(!spec_is_numdash(t[spec_numdash_start(t) - 1]));
                assert(spec_is_numdash(t[spec_numdash_start(t) - 1]));
            }
        }
    }
    if j < e && j > 0 && is_space(s[j - 1]) {
        let k = trim_back_end(s, j);
        proof {
            assert(t.subrange(0, j as int) =~= s@.subrange(0, j as int));
        }
        let r = copy_range(s, 0, k);
        r
    } else {
        let r = copy_range(s, 0, s.len());
        proof {
            assert(r@ =~= s@);
            if j > 0 {
                assert(t[j - 1] == s@[j - 1]);
            }
        }
        r
    }
}

/// The tidy-up applied to every surviving line, in order: whitespace runs
/// collapse to one space; a stray leading word pair, a trailing and a leading
/// brace, and a leading and a trailing numeric token are removed.
pub open spec fn spec_post_clean(l: Seq<char>) -> Seq<char> {
    spec_strip_trailing_num(
        spec_strip_leading_num(
            spec_strip_leading_brace(
                spec_strip_trailing_brace(
                    spec_strip_stray_words(crate::text::spec_collapse_spaces(l)),
                ),
            ),
        ),
    )
}

pub fn post_clean(l: &Vec<char>) -> (r: Vec<char>)
    ensures
        r@ == spec_post_clean(l@),
{
    let c = crate::text::collapse_spaces(l);
    let c = strip_stray_words(&c);
    let c = strip_trailing_brace(&c);
    let c = strip_leading_brace(&c);
    let c = strip_leading_num(&c);
    strip_trailing_num(&c)
}

/// Each raw line is trimmed and freed of control characters; blank lines
/// survive as explicit blank markers; noise lines are dropped; the rest are
/// tidied, and dropped after all when nothing is left of them.
pub open spec fn spec_clean_lines(lines: Seq<Seq<char>>) -> Seq<Seq<char>>
    decreases lines.len(),
{
    if lines.len() == 0 {
        Seq::empty()
    } else {
        let l = crate::text::spec_trim(spec_strip_ctrl(crate::text::spec_trim(lines[0])));
        let rest = spec_clean_lines(lines.drop_first());
        if l.len() == 0 {
            seq![Seq::<char>::empty()] + rest
        } else if spec_is_noise(l) {
            rest
        } else {
            let p = crate::text::spec_trim(spec_post_clean(l));
            if p.len() == 0 {
                rest
            } else {
                seq![p] + rest
            }
        }
    }
}

/// Cleans the split lines of a legacy document.
pub fn clean_lines(lines: &Vec<Vec<char>>) -> (r: Vec<Vec<char>>)
    ensures
        r.deep_view() == spec_clean_lines(lines.deep_view()),
{
    let ghost lv = lines.deep_view();
    let mut out: Vec<Vec<char>> = Vec::new();
    let mut i: usize = 0;
    proof {
        assert(lv.skip(0) =~= lv);
        assert(out.deep_view() =~= Seq::<Seq<char>>::empty());
    }
    while i < lines.len()
        invariant
            0 <= i <= lines.len(),
            lv == lines.deep_view(),
            lv.len() == lines@.len(),
            spec_clean_lines(lv) =~= out.deep_view() + spec_clean_lines(lv.skip(i as int)),
        decreases lines.len() - i,
    {
        let ghost rest = lv.skip(i as int);
        proof {
            assert(rest[0] == lv[i as int]);
            assert(rest.drop_first() =~= lv.skip(i + 1));
            assert(lv[i as int] == lines@[i as int].deep_view());
            assert(lines@[i as int].deep_view() =~= lines@[i as int]@);
        }
        let t1 = crate::text::trim_chars(&lines[i]);
        let t2 = strip_ctrl(&t1);
        let l = crate::text::trim_chars(&t2);
        if l.len() == 0 {
            let ghost pre = out.deep_view();
            let empty_line: Vec<char> = Vec::new();
            out.push(empty_line);
            proof {
                assert(out.deep_view() =~~= pre.push(Seq::<char>::empty()));
            }
        } else if is_noise(&l) {
        } else {
            let pc = post_clean(&l);
            let p = crate::text::trim_chars(&pc);
            if p.len() == 0 {
            } else {
                let ghost pre = out.deep_view();
                let ghost pv = p@;
                out.push(p);
                proof {
                    assert(out.deep_view() =~~= pre.push(pv));
                }
            }
        }
        i = i + 1;
    }
    proof {
        assert(spec_clean_lines(lv.skip(i as int)) =~= Seq::<Seq<char>>::empty());
        assert(spec_clean_lines(lv) =~= out.deep_view());
    }
    out
}

/// The modality keywords that mark a main heading.
pub open spec fn spec_heading_keywords() -> Seq<Seq<char>> {
    seq![
        seq!['T', 'O', 'M', 'O', 'G', 'R', 'A', 'F', 'I', 'A'],
        seq!['A', 'N', 'G', 'I', 'O'],
        seq!['C', 'O', 'M', 'P', 'U', 'T', 'A', 'D', 'O', 'R', 'I', 'Z', 'A', 'D', 'A'],
    ]
}

fn heading_keywords() -> (r: Vec<Vec<char>>)
    ensures
        r.deep_view() == spec_heading_keywords(),
{
    let mut r: Vec<Vec<char>> = Vec::new();
    let k0: Vec<char> = vec!['T', 'O', 'M', 'O', 'G', 'R', 'A', 'F', 'I', 'A'];
    let k1: Vec<char> = vec!['A', 'N', 'G', 'I', 'O'];
    let k2: Vec<char> = vec!['C', 'O', 'M', 'P', 'U', 'T', 'A', 'D', 'O', 'R', 'I', 'Z', 'A', 'D', 'A'];
    r.push(k0);
    r.push(k1);
    r.push(k2);
    proof {
        assert(r.deep_view() =~~= spec_heading_keywords());
    }
    r
}

/// The section-label keywords, in lower case.
pub open spec fn spec_section_keywords() -> Seq<Seq<char>> {
    seq![
        seq![
            'i', 'n', 'd', 'i', 'c', 'a', 'ç', 'ã', 'o', ' ', 'c', 'l', 'í', 'n', 'i', 'c', 'a',
        ],
        seq!['t', 'é', 'c', 'n', 'i', 'c', 'a', ' ', 'd', 'o', ' ', 'e', 'x', 'a', 'm', 'e'],
        seq![
            'a', 's', 'p', 'e', 'c', 't', 'o', 's', ' ', 'o', 'b', 's', 'e', 'r', 'v', 'a', 'd',
            'o', 's',
        ],
        seq!['i', 'm', 'p', 'r', 'e', 's', 's', 'ã', 'o'],
    ]
}

fn section_keywords() -> (r: Vec<Vec<char>>)
    ensures
        r.deep_view() == spec_section_keywords(),
{
    let mut r: Vec<Vec<char>> = Vec::new();
    let k0: Vec<char> = vec![
        'i', 'n', 'd', 'i', 'c', 'a', 'ç', 'ã', 'o', ' ', 'c', 'l', 'í', 'n', 'i', 'c', 'a',
    ];
    let k1: Vec<char> = vec!['t', 'é', 'c', 'n', 'i', 'c', 'a', ' ', 'd', 'o', ' ', 'e', 'x', 'a', 'm', 'e'];
    let k2: Vec<char> = vec![
        'a', 's', 'p', 'e', 'c', 't', 'o', 's', ' ', 'o', 'b', 's', 'e', 'r', 'v', 'a', 'd', 'o',
        's',
    ];
    let k3: Vec<char> = vec!['i', 'm', 'p', 'r', 'e', 's', 's', 'ã', 'o'];
    r.push(k0);
    r.push(k1);
    r.push(k2);
    r.push(k3);
    proof {
        assert(r.deep_view() =~~= spec_section_keywords());
    }
    r
}

/// The words that open a bold section label, in lower case.
pub open spec fn spec_start_keywords() -> Seq<Seq<char>> {
    seq![
        seq!['i', 'n', 'd', 'i', 'c', 'a', 'ç', 'ã', 'o'],
        seq!['t', 'é', 'c', 'n', 'i', 'c', 'a'],
        seq!['a', 's', 'p', 'e', 'c', 't', 'o', 's'],
        seq!['i', 'm', 'p', 'r', 'e', 's', 's', 'ã', 'o'],
    ]
}

fn start_keywords() -> (r: Vec<Vec<char>>)
    ensures
        r.deep_view() == spec_start_keywords(),
{
    let mut r: Vec<Vec<char>> = Vec::new();
    let k0: Vec<char> = vec!['i', 'n', 'd', 'i', 'c', 'a', 'ç', 'ã', 'o'];
    let k1: Vec<char> = vec!['t', 'é', 'c', 'n', 'i', 'c', 'a'];
    let k2: Vec<char> = vec!['a', 's', 'p', 'e', 'c', 't', 'o', 's'];
    let k3: Vec<char> = vec!['i', 'm', 'p', 'r', 'e', 's', 's', 'ã', 'o'];
    r.push(k0);
    r.push(k1);
    r.push(k2);
    r.push(k3);
    proof {
        assert(r.deep_view() =~~= spec_start_keywords());
    }
    r
}

/// The caveat and footnote keywords, in lower case.
pub open spec fn spec_footnote_keywords() -> Seq<Seq<char>> {
    seq![
        seq!['p', 'r', 'o', 'b', 'a', 'b', 'i', 'l', 'i', 'd', 'a', 'd', 'e'],
        seq!['m', 'é', 'd', 'i', 'c', 'o'],
        seq!['d', 'i', 'a', 'g', 'n', 'ó', 's', 't', 'i', 'c', 'a'],
    ]
}

fn footnote_keywords() -> (r: Vec<Vec<char>>)
    ensures
        r.deep_view() == spec_footnote_keywords(),
{
    let mut r: Vec<Vec<char>> = Vec::new();
    let k0: Vec<char> = vec!['p', 'r', 'o', 'b', 'a', 'b', 'i', 'l', 'i', 'd', 'a', 'd', 'e'];
    let k1: Vec<char> = vec!['m', 'é', 'd', 'i', 'c', 'o'];
    let k2: Vec<char> = vec!['d', 'i', 'a', 'g', 'n', 'ó', 's', 't', 'i', 'c', 'a'];
    r.push(k0);
    r.push(k1);
    r.push(k2);
    proof {
        assert(r.deep_view() =~~= spec_footnote_keywords());
    }
    r
}

/// Some keyword of the list occurs in `s`.
pub open spec fn spec_contains_any(s: Seq<char>, kws: Seq<Seq<char>>) -> bool {
    exists|k: int| 0 <= k < kws.len() && crate::text::spec_contains_seq(s, #[trigger] kws[k])
}

fn contains_any(s: &Vec<char>, kws: &Vec<Vec<char>>) -> (r: bool)
    ensures
        r == spec_contains_any(s@, kws.deep_view()),
{
    let mut k: usize = 0;
    while k < kws.len()
        invariant
            0 <= k <= kws.len(),
            forall|m: int|
                0 <= m < k ==> !crate::text::spec_contains_seq(s@, #[trigger] kws.deep_view()[m]),
        decreases kws.len() - k,
    {
        proof {
            assert(kws.deep_view()[k as int] =~= kws@[k as int]@);
        }
        if crate::text::contains_seq(s, &kws[k]) {
            return true;
        }
        k = k + 1;
    }
    false
}

/// Some keyword of the list opens `s`.
pub open spec fn spec_starts_any(s: Seq<char>, kws: Seq<Seq<char>>) -> bool {
    exists|k: int| 0 <= k < kws.len() && crate::text::spec_starts_with(s, #[trigger] kws[k])
}

fn starts_any(s: &Vec<char>, kws: &Vec<Vec<char>>) -> (r: bool)
    ensures
        r == spec_starts_any(s@, kws.deep_view()),
{
    let mut k: usize = 0;
    while k < kws.len()
        invariant
            0 <= k <= kws.len(),
            forall|m: int|
                0 <= m < k ==> !crate::text::spec_starts_with(s@, #[trigger] kws.deep_view()[m]),
        decreases kws.len() - k,
    {
        proof {
            assert(kws.deep_view()[k as int] =~= kws@[k as int]@);
        }
        if crate::text::starts_with(s, &kws[k]) {
            return true;
        }
        k = k + 1;
    }
    false
}

/// The Markdown image of one cleaned line: an all-caps line of the right
/// length naming a modality becomes a level-2 heading; a line with a
/// section-label keyword becomes a heading when all-caps and long enough,
/// bold when it starts with a label word, and passes through otherwise; a
/// line with a caveat keyword becomes italic; everything else passes through.
pub open spec fn spec_classify_line(line: Seq<char>) -> Seq<char> {
    let lower = crate::text::spec_lower_seq(line);
    if crate::text::spec_is_all_upper(line) && line.len() > 15 && line.len() < 120 && line[line.len()
        - 1] != '.' && spec_contains_any(line, spec_heading_keywords()) {
        seq!['#', '#', ' '] + line
    } else if spec_contains_any(lower, spec_section_keywords()) {
        if crate::text::spec_is_all_upper(line) && line.len() > 10 {
            seq!['#', '#', ' '] + line
        } else if spec_starts_any(lower, spec_start_keywords()) {
            seq!['*', '*'] + line + seq!['*', '*']
        } else {
            line
        }
    } else if spec_contains_any(lower, spec_footnote_keywords()) {
        seq!['*'] + line + seq!['*']
    } else {
        line
    }
}

/// Classifies one cleaned, non-empty line into its Markdown form.
pub fn classify_line(line: &Vec<char>) -> (r: Vec<char>)
    ensures
        r@ == spec_classify_line(line@),
{
    let lower = crate::text::lower_chars(line);
    let mut out: Vec<char> = Vec::new();
    if crate::text::is_all_upper(line) && line.len() > 15 && line.len() < 120 && line[line.len()
        - 1] != '.' && contains_any(line, &heading_keywords()) {
        out.push('#');
        out.push('#');
        out.push(' ');
        push_all(&mut out, line);
        proof {
            assert(out@ =~= spec_classify_line(line@));
        }
        return out;
    }
    if contains_any(&lower, &section_keywords()) {
        if crate::text::is_all_upper(line) && line.len() > 10 {
            out.push('#');
            out.push('#');
            out.push(' ');
            push_all(&mut out, line);
            proof {
                assert(out@ =~= spec_classify_line(line@));
            }
            return out;
        }
        if starts_any(&lower, &start_keywords()) {
            out.push('*');
            out.push('*');
            push_all(&mut out, line);
            out.push('*');
            out.push('*');
            proof {
                assert(out@ =~= spec_classify_line(line@));
            }
            return out;
        }
        push_all(&mut out, line);
        proof {
            assert(out@ =~= spec_classify_line(line@));
        }
        return out;
    }
    if contains_any(&lower, &footnote_keywords()) {
        out.push('*');
        push_all(&mut out, line);
        out.push('*');
        proof {
            assert(out@ =~= spec_classify_line(line@));
        }
        return out;
    }
    push_all(&mut out, line);
    proof {
        assert(out@ =~= spec_classify_line(line@));
    }
    out
}

/// The Markdown images of all cleaned lines; blank markers pass through.
pub open spec fn spec_classify_lines(lines: Seq<Seq<char>>) -> Seq<Seq<char>> {
    Seq::new(
        lines.len(),
        |i: int|
            if lines[i].len() == 0 {
                Seq::<char>::empty()
            } else {
                spec_classify_line(lines[i])
            },
    )
}

/// Classifies every cleaned line.
pub fn classify_lines(lines: &Vec<Vec<char>>) -> (r: Vec<Vec<char>>)
    ensures
        r.deep_view() == spec_classify_lines(lines.deep_view()),
{
    let ghost lv = lines.deep_view();
    let mut r: Vec<Vec<char>> = Vec::new();
    let mut i: usize = 0;
    while i < lines.len()
        invariant
            0 <= i <= lines.len(),
            lv == lines.deep_view(),
            lv.len() == lines@.len(),
            r.deep_view() =~= spec_classify_lines(lv).subrange(0, i as int),
        decreases lines.len() - i,
    {
        proof {
            assert(lv[i as int] == lines@[i as int].deep_view());
            assert(lines@[i as int].deep_view() =~= lines@[i as int]@);
        }
        let ghost pre = r.deep_view();
        if lines[i].len() == 0 {
            let empty_line: Vec<char> = Vec::new();
            r.push(empty_line);
            proof {
                assert(r.deep_view() =~~= pre.push(Seq::<char>::empty()));
            }
        } else {
            let c = classify_line(&lines[i]);
            let ghost cv = c@;
            r.push(c);
            proof {
                assert(r.deep_view() =~~= pre.push(cv));
            }
        }
        proof {
            assert(spec_classify_lines(lv).subrange(0, i + 1) =~= spec_classify_lines(
                lv,
            ).subrange(0, i as int).push(spec_classify_lines(lv)[i as int]));
        }
        i = i + 1;
    }
    proof {
        assert(spec_classify_lines(lv).subrange(0, spec_classify_lines(lv).len() as int)
            =~= spec_classify_lines(lv));
    }
    r
}

/// Runs of consecutive blank lines collapse to one blank line;
/// `after_blank` says whether the line just before already emitted it.
pub open spec fn spec_collapse_blank_go(lines: Seq<Seq<char>>, after_blank: bool) -> Seq<Seq<char>>
    decreases lines.len(),
{
    if lines.len() == 0 {
        Seq::empty()
    } else if crate::text::spec_is_blank(lines[0]) {
        if after_blank {
            spec_collapse_blank_go(lines.drop_first(), true)
        } else {
            seq![Seq::<char>::empty()] + spec_collapse_blank_go(lines.drop_first(), true)
        }
    } else {
        seq![lines[0]] + spec_collapse_blank_go(lines.drop_first(), false)
    }
}

/// Runs of consecutive blank output lines collapse to a single blank line.
pub open spec fn spec_collapse_blank_lines(lines: Seq<Seq<char>>) -> Seq<Seq<char>> {
    spec_collapse_blank_go(lines, false)
}

pub fn collapse_blank_lines(lines: &Vec<Vec<char>>) -> (r: Vec<Vec<char>>)
    ensures
        r.deep_view() == spec_collapse_blank_lines(lines.deep_view()),
{
    let ghost lv = lines.deep_view();
    let mut r: Vec<Vec<char>> = Vec::new();
    let mut after_blank: bool = false;
    let mut i: usize = 0;
    proof {
        assert(lv.skip(0) =~= lv);
        assert(r.deep_view() =~= Seq::<Seq<char>>::empty());
    }
    while i < lines.len()
        invariant
            0 <= i <= lines.len(),
            lv == lines.deep_view(),
            lv.len() == lines@.len(),
            spec_collapse_blank_lines(lv) =~= r.deep_view() + spec_collapse_blank_go(
                lv.skip(i as int),
                after_blank,
            ),
        decreases lines.len() - i,
    {
        let ghost rest = lv.skip(i as int);
        proof {
            assert(rest[0] == lv[i as int]);
            assert(rest.drop_first() =~= lv.skip(i + 1));
            assert(lv[i as int] == lines@[i as int].deep_view());
            assert(lines@[i as int].deep_view() =~= lines@[i as int]@);
        }
        if crate::text::is_blank(&lines[i]) {
            if !after_blank {
                let ghost pre = r.deep_view();
                let empty_line: Vec<char> = Vec::new();
                r.push(empty_line);
                proof {
                    assert(r.deep_view() =~~= pre.push(Seq::<char>::empty()));
                }
            }
            after_blank = true;
        } else {
            let ghost pre = r.deep_view();
            let mut copy: Vec<char> = Vec::new();
            push_all(&mut copy, &lines[i]);
            let ghost cv = copy@;
            r.push(copy);
            proof {
                assert(r.deep_view() =~~= pre.push(cv));
                assert(cv =~= lv[i as int]);
            }
            after_blank = false;
        }
        i = i + 1;
    }
    proof {
        assert(spec_collapse_blank_go(lv.skip(i as int), after_blank) =~= Seq::<Seq<char>>::empty());
    }
    r
}

/// Brace-group removal runs to a fixpoint: applying it to its own output
/// changes nothing.
pub proof fn lemma_remove_groups_idempotent(s: Seq<char>)
    ensures
        spec_remove_groups(spec_remove_groups(s)) == spec_remove_groups(s),
    decreases s.len(),
{
    if spec_contains_char(s, '{') && spec_contains_char(s, '}') {
        let t = spec_remove_groups_once(s);
        if t != s {
            lemma_remove_groups_once_len(s);
            lemma_remove_groups_idempotent(t);
        }
    }
}

/// Collapsing runs of blank lines is idempotent, from either starting state.
proof fn lemma_collapse_blank_go_idempotent(lines: Seq<Seq<char>>, after_blank: bool)
    ensures
        spec_collapse_blank_go(spec_collapse_blank_go(lines, after_blank), after_blank)
            == spec_collapse_blank_go(lines, after_blank),
    decreases lines.len(),
{
    if lines.len() == 0 {
        assert(spec_collapse_blank_go(lines, after_blank) =~= Seq::<Seq<char>>::empty());
    } else if crate::text::spec_is_blank(lines[0]) {
        lemma_collapse_blank_go_idempotent(lines.drop_first(), true);
        if after_blank {
        } else {
            let out = seq![Seq::<char>::empty()] + spec_collapse_blank_go(lines.drop_first(), true);
            assert(out[0].len() == 0);
            assert(crate::text::spec_is_blank(out[0])) by {
                assert(crate::text::spec_trim(out[0]) =~= Seq::<char>::empty());
            }
            assert(out.drop_first() =~= spec_collapse_blank_go(lines.drop_first(), true));
            assert(spec_collapse_blank_go(out, false) =~= seq![Seq::<char>::empty()]
                + spec_collapse_blank_go(spec_collapse_blank_go(lines.drop_first(), true), true));
        }
    } else {
        lemma_collapse_blank_go_idempotent(lines.drop_first(), false);
        let out = seq![lines[0]] + spec_collapse_blank_go(lines.drop_first(), false);
        assert(out[0] == lines[0]);
        assert(out.drop_first() =~= spec_collapse_blank_go(lines.drop_first(), false));
        assert(spec_collapse_blank_go(out, after_blank) =~= seq![lines[0]]
            + spec_collapse_blank_go(spec_collapse_blank_go(lines.drop_first(), false), false));
    }
}

/// The final blank-collapsing pass of the cleanup is idempotent: running it
/// on its own output changes nothing.
pub proof fn lemma_collapse_blank_lines_idempotent(lines: Seq<Seq<char>>)
    ensures
        spec_collapse_blank_lines(spec_collapse_blank_lines(lines)) == spec_collapse_blank_lines(
            lines,
        ),
{
    lemma_collapse_blank_go_idempotent(lines, false);
}

/// The whole legacy-markup conversion: brace groups, control words, escapes
/// and loose numbers are stripped from the text; the lines are cleaned and
/// filtered; survivors are classified into Markdown; blank runs collapse; and
/// the lines are joined with newlines.
pub open spec fn spec_convert_rtf_to_markdown(text: Seq<char>) -> Seq<char> {
    crate::text::spec_join_lines(
        spec_collapse_blank_lines(
            spec_classify_lines(
                spec_clean_lines(
                    crate::text::spec_split_lines(
                        spec_strip_loose_numbers(
                            spec_strip_hex_escapes(
                                spec_strip_brace_escapes(
                                    spec_strip_controls(spec_remove_groups(text)),
                                ),
                            ),
                        ),
                    ),
                ),
            ),
        ),
    )
}

/// Converts the decoded text of a legacy rich-text document to Markdown.
pub fn convert_rtf_to_markdown(text: &str) -> (r: String)
    ensures
        r@ == spec_convert_rtf_to_markdown(text@),
{
    let chars = crate::text::str_to_chars(text);
    let g = remove_groups(&chars);
    let c = strip_controls(&g);
    let b = strip_brace_escapes(&c);
    let h = strip_hex_escapes(&b);
    let n = strip_loose_numbers(&h);
    let lines = crate::text::split_lines(&n);
    let cleaned = clean_lines(&lines);
    let classified = classify_lines(&cleaned);
    let collapsed = collapse_blank_lines(&classified);
    let joined = crate::text::join_lines(&collapsed);
    crate::text::chars_to_string(&joined)
}

/// Removes innermost brace groups until no pass changes the text.
pub fn remove_groups(s: &Vec<char>) -> (r: Vec<char>)
    ensures
        r@ == spec_remove_groups(s@),
{
    let mut cur: Vec<char> = Vec::new();
    push_all(&mut cur, s);
    proof {
        assert(cur@ =~= s@);
    }
    let mut done: bool = false;
    while !done
        invariant
            spec_remove_groups(cur@) == spec_remove_groups(s@),
            done ==> cur@ == spec_remove_groups(s@),
        decreases (if done {
            0int
        } else {
            cur@.len() as int + 1
        }),
    {
        if contains_char(&cur, '{') && contains_char(&cur, '}') {
            let t = remove_groups_once(&cur);
            if eq_chars(&t, &cur) {
                done = true;
            } else {
                proof {
                    lemma_remove_groups_once_len(cur@);
                }
                cur = t;
            }
        } else {
            done = true;
        }
    }
    cur
}

} // verus!
