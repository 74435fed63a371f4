//! Line tokenizer: turns raw input text into a sequence of definitions.
//!
//! Each non-blank, non-comment logical line yields exactly one [`Define`],
//! in original line order.  A line is split at its first `:`; the key is the
//! trimmed text before the separator and the value the trimmed remainder.
//! A line with no separator, or with an empty key, yields an invalid
//! definition carrying the reason and the 1-based source line number.

use vstd::prelude::*;
use crate::error::LineError;

verus! {

/// Whitespace for the purposes of trimming keys and values.
pub open spec fn is_space(c: char) -> bool {
    c == ' ' || c == '\t'
}

/// Number of leading `' '` characters of a line: its indentation measure.
pub open spec fn leading_spaces(l: Seq<char>) -> nat
    decreases l.len(),
{
    if l.len() > 0 && l[0] == ' ' {
        1 + leading_spaces(l.drop_first())
    } else {
        0
    }
}

/// Index of the first occurrence of `c` in `l`, or `l.len()` if absent.
pub open spec fn find_char(l: Seq<char>, c: char) -> nat
    decreases l.len(),
{
    if l.len() == 0 {
        0
    } else if l[0] == c {
        0
    } else {
        1 + find_char(l.drop_first(), c)
    }
}

/// `s` without its leading whitespace.
pub open spec fn trim_left(s: Seq<char>) -> Seq<char>
    decreases s.len(),
{
    if s.len() > 0 && is_space(s[0]) {
        trim_left(s.drop_first())
    } else {
        s
    }
}

/// `s` without its trailing whitespace.
pub open spec fn trim_right(s: Seq<char>) -> Seq<char>
    decreases s.len(),
{
    if s.len() > 0 && is_space(s.last()) {
        trim_right(s.drop_last())
    } else {
        s
    }
}

/// `s` without leading and trailing whitespace.
pub open spec fn trim(s: Seq<char>) -> Seq<char> {
    trim_right(trim_left(s))
}

/// A line that produces no definition: empty, or a comment.
pub open spec fn skip_line(l: Seq<char>) -> bool {
    l.len() == 0 || l[0] == '#'
}

/// Mathematical image of one [`Define`].
pub enum DefineView {
    Valid { indent: nat, line: nat, key: Seq<char>, value: Seq<char> },
    Invalid { err: LineError, line: nat },
}

/// One parsed `key: value` unit from a logical line, or the reason a line
/// could not be parsed.  `line` is the 1-based source line number.
#[derive(Debug, Clone)]
pub enum Define {
    Valid { indent: usize, line: usize, key: String, value: String },
    Invalid { err: LineError, line: usize },
}

impl View for Define {
    type V = DefineView;

    open spec fn view(&self) -> DefineView {
        match self {
            Define::Valid { indent, line, key, value } => (DefineView::Valid {
                indent: *indent as nat,
                line: *line as nat,
                key: key@,
                value: value@,
            }),
            Define::Invalid { err, line } => (DefineView::Invalid {
                err: *err,
                line: *line as nat,
            }),
        }
    }
}

/// The views of a sequence of definitions.
pub open spec fn defs_view(ds: Seq<Define>) -> Seq<DefineView> {
    ds.map_values(|d: Define| d@)
}

/// The definition produced by one non-skipped logical line `l` with line
/// number `ln`.
pub open spec fn def_of_line(l: Seq<char>, ln: nat) -> DefineView {
    let k = find_char(l, ':');
    if k == l.len() {
        DefineView::Invalid { err: LineError::MissingSeparator, line: ln }
    } else {
        let key = trim(l.subrange(0, k as int));
        let value = trim(l.subrange(k as int + 1, l.len() as int));
        if key.len() == 0 {
            DefineView::Invalid { err: LineError::EmptyKey, line: ln }
        } else {
            DefineView::Valid { indent: leading_spaces(l), line: ln, key, value }
        }
    }
}

/// The definitions produced by the input text `s`, whose first line has
/// line number `ln`.  Lines are separated by `'\n'`; blank and comment
/// lines produce nothing.
pub open spec fn spec_defs(s: Seq<char>, ln: nat) -> Seq<DefineView>
    decreases s.len(),
{
    let k = find_char(s, '\n');
    if k >= s.len() {
        let line = s;
        if skip_line(line) {
            Seq::<DefineView>::empty()
        } else {
            seq![def_of_line(line, ln)]
        }
    } else {
        let line = s.subrange(0, k as int);
        let first = if skip_line(line) {
            Seq::<DefineView>::empty()
        } else {
            seq![def_of_line(line, ln)]
        };
        first + spec_defs(s.subrange(k as int + 1, s.len() as int), ln + 1)
    }
}

/// A scan that saw no `c` before `i`, and `c` (or the end) at `i`, has
/// found the first occurrence.
proof fn lemma_find_char(l: Seq<char>, c: char, i: int)
    requires
        0 <= i <= l.len(),
        forall|j: int| 0 <= j < i ==> l[j] != c,
        i == l.len() || l[i] == c,
    ensures
        find_char(l, c) == i,
    decreases i,
{
    if i > 0 {
        lemma_find_char(l.drop_first(), c, i - 1);
    }
}

/// A scan that saw only `' '` before `i`, and something else (or the end)
/// at `i`, has counted the leading spaces.
proof fn lemma_leading_spaces(l: Seq<char>, i: int)
    requires
        0 <= i <= l.len(),
        forall|j: int| 0 <= j < i ==> l[j] == ' ',
        i == l.len() || l[i] != ' ',
    ensures
        leading_spaces(l) == i,
    decreases i,
{
    if i > 0 {
        lemma_leading_spaces(l.drop_first(), i - 1);
    }
}

proof fn lemma_trim_left(s: Seq<char>, a: int)
    requires
        0 <= a <= s.len(),
        forall|j: int| 0 <= j < a ==> is_space(s[j]),
        a == s.len() || !is_space(s[a]),
    ensures
        trim_left(s) == s.subrange(a, s.len() as int),
    decreases a,
{
    if a == 0 {
        assert(s =~= s.subrange(0, s.len() as int));
    } else {
        lemma_trim_left(s.drop_first(), a - 1);
        assert(s.drop_first().subrange(a - 1, s.drop_first().len() as int) =~= s.subrange(
            a,
            s.len() as int,
        ));
    }
}

proof fn lemma_trim_right(s: Seq<char>, b: int)
    requires
        0 <= b <= s.len(),
        forall|j: int| b <= j < s.len() ==> is_space(s[j]),
        b == 0 || !is_space(s[b - 1]),
    ensures
        trim_right(s) == s.subrange(0, b),
    decreases s.len() - b,
{
    if b == s.len() {
        assert(s =~= s.subrange(0, b));
    } else {
        lemma_trim_right(s.drop_last(), b);
        assert(s.drop_last().subrange(0, b) =~= s.subrange(0, b));
    }
}

/// A scan that found the first non-space at `a` and the last at `b - 1`
/// (or found only spaces, with `a == b`) has computed the trimmed text.
proof fn lemma_trim(s: Seq<char>, a: int, b: int)
    requires
        0 <= a <= b <= s.len(),
        forall|j: int| 0 <= j < a ==> is_space(s[j]),
        forall|j: int| b <= j < s.len() ==> is_space(s[j]),
        a == b || (!is_space(s[a]) && !is_space(s[b - 1])),
    ensures
        trim(s) == s.subrange(a, b),
    decreases s.len(),
{
    if a == b {
        lemma_trim_left(s, s.len() as int);
        lemma_trim_right(s.subrange(s.len() as int, s.len() as int), 0);
        assert(s.subrange(s.len() as int, s.len() as int) =~= s.subrange(a, b));
    } else {
        lemma_trim_left(s, a);
        let t = s.subrange(a, s.len() as int);
        lemma_trim_right(t, b - a);
        assert(t.subrange(0, b - a) =~= s.subrange(a, b));
    }
}

/// Whether `c` counts as whitespace when trimming.
pub fn is_space_char(c: char) -> (r: bool)
    ensures
        r == is_space(c),
{
    c == ' ' || c == '\t'
}

/// `s` with leading and trailing whitespace removed.
pub fn trim_str(s: &str) -> (t: String)
    ensures
        t@ == trim(s@),
{
    let n = s.unicode_len();
    let mut a: usize = 0;
    while a < n && is_space_char(s.get_char(a))
        invariant
            a <= n == s@.len(),
            forall|j: int| 0 <= j < a ==> is_space(s@[j]),
        decreases n - a,
    {
        a = a + 1;
    }
    if a == n {
        proof {
            lemma_trim(s@, n as int, n as int);
            assert(s@.subrange(n as int, n as int) =~= Seq::<char>::empty());
        }
        return String::new();
    }
    let mut b: usize = n;
    while b > a && is_space_char(s.get_char(b - 1))
        invariant
            a <= b <= n == s@.len(),
            forall|j: int| b <= j < n ==> is_space(s@[j]),
        decreases b,
    {
        b = b - 1;
    }
    proof {
        assert(b > a) by {
            if b == a {
                assert(is_space(s@[a as int]));
            }
        }
        lemma_trim(s@, a as int, b as int);
    }
    String::from_str(s.substring_char(a, b))
}

/// Tokenizes one logical line: `None` for a blank or comment line, else the
/// definition the line yields.
fn parse_line(line: &str, ln: usize) -> (r: Option<Define>)
    ensures
        r is None <==> skip_line(line@),
        r matches Some(d) ==> d@ == def_of_line(line@, ln as nat),
{
    let n = line.unicode_len();
    if n == 0 {
        return None;
    }
    if line.get_char(0) == '#' {
        return None;
    }
    let mut c: usize = 0;
    while c < n && line.get_char(c) != ':'
        invariant
            c <= n == line@.len(),
            forall|j: int| 0 <= j < c ==> line@[j] != ':',
        decreases n - c,
    {
        c = c + 1;
    }
    proof {
        lemma_find_char(line@, ':', c as int);
    }
    if c == n {
        return Some(Define::Invalid { err: LineError::MissingSeparator, line: ln });
    }
    let mut ind: usize = 0;
    while ind < n && line.get_char(ind) == ' '
        invariant
            ind <= n == line@.len(),
            forall|j: int| 0 <= j < ind ==> line@[j] == ' ',
        decreases n - ind,
    {
        ind = ind + 1;
    }
    proof {
        lemma_leading_spaces(line@, ind as int);
    }
    let key = trim_str(line.substring_char(0, c));
    let value = trim_str(line.substring_char(c + 1, n));
    if key.unicode_len() == 0 {
        return Some(Define::Invalid { err: LineError::EmptyKey, line: ln });
    }
    Some(Define::Valid { indent: ind, line: ln, key, value })
}

/// Tokenizes the whole input: one definition per non-blank, non-comment
/// logical line, in original line order, with 1-based line numbers.
pub fn tokenize(input: &str) -> (defs: Vec<Define>)
    requires
        input@.len() < usize::MAX,
    ensures
        defs_view(defs@) == spec_defs(input@, 1),
{
    let n = input.unicode_len();
    let mut defs: Vec<Define> = Vec::new();
    let mut pos: usize = 0;
    let mut ln: usize = 1;
    proof {
        assert(input@.skip(0) =~= input@);
        assert(defs_view(defs@) + spec_defs(input@, 1) =~= spec_defs(input@, 1));
    }
    while pos < n
        invariant
            pos <= n == input@.len(),
            n < usize::MAX,
            1 <= ln,
            ln <= pos + 1,
            defs_view(defs@) + spec_defs(input@.skip(pos as int), ln as nat) == spec_defs(
                input@,
                1,
            ),
        decreases n - pos,
    {
        let ghost prev = defs_view(defs@);
        let ghost rest = input@.skip(pos as int);
        let mut i = pos;
        while i < n && input.get_char(i) != '\n'
            invariant
                pos <= i <= n == input@.len(),
                forall|j: int| pos <= j < i ==> input@[j] != '\n',
            decreases n - i,
        {
            i = i + 1;
        }
        proof {
            assert(forall|j: int|
                0 <= j < i - pos ==> rest[j] == input@[pos + j] && input@[pos + j] != '\n');
            lemma_find_char(rest, '\n', i - pos as int);
        }
        let line = input.substring_char(pos, i);
        proof {
            assert(line@ =~= rest.subrange(0, i - pos as int));
            if i == n {
                assert(line@ =~= rest);
            }
        }
        match parse_line(line, ln) {
            Some(def) => {
                defs.push(def);
                proof {
                    assert(defs_view(defs@) =~= prev.push(def@));
                }
            },
            None => {},
        }
        if i < n {
            proof {
                assert(rest.subrange(i - pos as int + 1, rest.len() as int) =~= input@.skip(
                    i + 1,
                ));
                assert(spec_defs(rest, ln as nat) == (if skip_line(line@) {
                    Seq::<DefineView>::empty()
                } else {
                    seq![def_of_line(line@, ln as nat)]
                }) + spec_defs(input@.skip(i + 1), ln as nat + 1));
            }
            pos = i + 1;
            ln = ln + 1;
        } else {
            proof {
                assert(spec_defs(rest, ln as nat) == (if skip_line(line@) {
                    Seq::<DefineView>::empty()
                } else {
                    seq![def_of_line(line@, ln as nat)]
                }));
            }
            pos = n;
        }
        proof {
            assert(defs_view(defs@) + spec_defs(input@.skip(pos as int), ln as nat)
                =~= spec_defs(input@, 1));
        }
    }
    proof {
        assert(input@.skip(n as int) =~= Seq::<char>::empty());
        assert(spec_defs(Seq::<char>::empty(), ln as nat) =~= Seq::<DefineView>::empty());
        assert(defs_view(defs@) =~= spec_defs(input@, 1));
    }
    defs
}

} // verus!
