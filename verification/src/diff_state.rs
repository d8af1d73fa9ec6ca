//! From a unified diff patch to what the diff panel shows: the hunks with
//! their numbered lines, and whether the patch hides text-direction
//! control characters.
use vstd::prelude::*;

use crate::git::GitHistoryFileDiff;
use crate::git_history_diff::{hunk_views, spec_hunk_range, DiffHunk, DiffHunkView, DiffLine, DiffLineType, DiffLineView, LoadedDiff};
use crate::text::{decimal, digit_char,char_views, chars_of, push_range, push_str, split_chars, split_on};

verus! {

/// The Unicode embedding, override and isolate controls (U+202A to
/// U+202E, U+2066 to U+2069), which reorder text without showing.
pub open spec fn is_hidden_bidi_char(c: char) -> bool {
    (0x202A <= (c as u32) && (c as u32) <= 0x202E) || (0x2066 <= (c as u32) && (c as u32) <= 0x2069)
}

/// Whether `s` holds a hidden bidirectional control character.
pub open spec fn has_hidden_bidi(s: Seq<char>) -> bool {
    exists|i: int| 0 <= i < s.len() && #[trigger] is_hidden_bidi_char(s[i])
}

/// Whether the patch holds a hidden bidirectional control character (see
/// `is_hidden_bidi_char`).
pub fn check_for_hidden_bidi_chars(patch: &str) -> (found: bool)
    ensures
        found == has_hidden_bidi(patch@),
{
    let chars = chars_of(patch);
    let mut i: usize = 0;
    while i < chars.len()
        invariant
            chars@ == patch@,
            i <= chars.len(),
            forall|k: int| 0 <= k < i ==> !#[trigger] is_hidden_bidi_char(chars@[k]),
        decreases chars.len() - i,
    {
        let v = chars[i] as u32;
        if (0x202A <= v && v <= 0x202E) || (0x2066 <= v && v <= 0x2069) {
            assert(is_hidden_bidi_char(chars@[i as int]));
            return true;
        }
        i = i + 1;
    }
    false
}

/// Whether `c` is an ASCII decimal digit.
pub open spec fn is_digit(c: char) -> bool {
    48 <= (c as u32) && (c as u32) <= 57
}

/// The value of the decimal digits `d`, most significant first.
pub open spec fn digits_value(d: Seq<char>) -> nat
    decreases d.len(),
{
    if d.len() == 0 {
        0
    } else {
        digits_value(d.drop_last()) * 10 + ((d.last() as u32) - 48) as nat
    }
}

/// Where the run of digits of `s` that starts at `i` ends.
pub open spec fn digits_end(s: Seq<char>, i: int) -> int
    decreases s.len() - i,
{
    if 0 <= i < s.len() && is_digit(s[i]) {
        digits_end(s, i + 1)
    } else {
        i
    }
}

/// The number written at `i` in `s` and where it ends: at least one digit,
/// with a value that fits in `usize`.
pub open spec fn number_at(s: Seq<char>, i: int) -> Option<(usize, int)> {
    let e = digits_end(s, i);
    if e == i || digits_value(s.subrange(i, e)) > usize::MAX {
        None
    } else {
        Some((digits_value(s.subrange(i, e)) as usize, e))
    }
}

/// The number written at `from` in `s` (see `number_at`).
pub(crate) fn number_at_exec(s: &Vec<char>, from: usize) -> (r: Option<(usize, usize)>)
    requires
        from <= s.len(),
    ensures
        match r {
            Some((v, e)) => number_at(s@, from as int) == Some((v, e as int)),
            None => number_at(s@, from as int) is None,
        },
{
    let mut j: usize = from;
    let mut value: usize = 0;
    let mut overflow = false;
    assert(s@.subrange(from as int, from as int) =~= Seq::<char>::empty());
    while j < s.len() && 48 <= (s[j] as u32) && (s[j] as u32) <= 57
        invariant
            from <= j <= s.len(),
            digits_end(s@, from as int) == digits_end(s@, j as int),
            !overflow ==> value == digits_value(s@.subrange(from as int, j as int)),
            overflow ==> digits_value(s@.subrange(from as int, j as int)) > usize::MAX,
        decreases s.len() - j,
    {
        let d = (s[j] as u32 - 48) as usize;
        let ghost prev = s@.subrange(from as int, j as int);
        assert(s@.subrange(from as int, j + 1).drop_last() =~= prev);
        assert(s@.subrange(from as int, j + 1).last() == s@[j as int]);
        if !overflow {
            match value.checked_mul(10) {
                Some(m) => match m.checked_add(d) {
                    Some(v) => {
                        value = v;
                    },
                    None => {
                        overflow = true;
                    },
                },
                None => {
                    overflow = true;
                },
            }
        }
        j = j + 1;
    }
    if j == from || overflow {
        None
    } else {
        Some((value, j))
    }
}

/// The count after a start in a hunk header: `,N` at `i`, or 1 when no
/// comma follows.
pub open spec fn count_at(s: Seq<char>, i: int) -> Option<(usize, int)> {
    if 0 <= i < s.len() && s[i] == ',' {
        number_at(s, i + 1)
    } else {
        Some((1, i))
    }
}

/// Whether a line opens a hunk: it starts with `@@`.
pub open spec fn is_header_line(line: Seq<char>) -> bool {
    line.len() >= 2 && line[0] == '@' && line[1] == '@'
}

/// The old start, old count, new start and new count of a hunk header
/// `@@ -A[,B] +C[,D] @@`, anything after it aside; none where the line
/// does not have that shape.
pub open spec fn parse_hunk_header(line: Seq<char>) -> Option<(usize, usize, usize, usize)> {
    if !(line.len() >= 4 && line[0] == '@' && line[1] == '@' && line[2] == ' ' && line[3] == '-') {
        None
    } else {
        match number_at(line, 4) {
            None => None,
            Some((a, i1)) => match count_at(line, i1) {
                None => None,
                Some((b, i2)) => if !(i2 + 2 <= line.len() && line[i2] == ' ' && line[i2 + 1] == '+') {
                    None
                } else {
                    match number_at(line, i2 + 2) {
                        None => None,
                        Some((c, i3)) => match count_at(line, i3) {
                            None => None,
                            Some((d, i4)) => if i4 + 3 <= line.len() && line[i4] == ' ' && line[i4 + 1]
                                == '@' && line[i4 + 2] == '@' {
                                Some((a, b, c, d))
                            } else {
                                None
                            },
                        },
                    }
                },
            },
        }
    }
}

/// The count after a start (see `count_at`).
fn count_at_exec(s: &Vec<char>, i: usize) -> (r: Option<(usize, usize)>)
    requires
        i <= s.len(),
    ensures
        match r {
            Some((v, e)) => count_at(s@, i as int) == Some((v, e as int)) && e <= s.len(),
            None => count_at(s@, i as int) is None,
        },
{
    if i < s.len() && s[i] == ',' {
        let r = number_at_exec(s, i + 1);
        proof {
            if r is Some {
                lemma_digits_end_bounded(s@, i + 1);
            }
        }
        r
    } else {
        Some((1, i))
    }
}

proof fn lemma_digits_end_bounded(s: Seq<char>, i: int)
    requires
        0 <= i <= s.len(),
    ensures
        i <= digits_end(s, i) <= s.len(),
    decreases s.len() - i,
{
    if i < s.len() && is_digit(s[i]) {
        lemma_digits_end_bounded(s, i + 1);
    }
}

/// The numbers of a hunk header (see `parse_hunk_header`).
fn parse_hunk_header_exec(line: &Vec<char>) -> (r: Option<(usize, usize, usize, usize)>)
    ensures
        r == parse_hunk_header(line@),
{
    if !(line.len() >= 4 && line[0] == '@' && line[1] == '@' && line[2] == ' ' && line[3] == '-') {
        return None;
    }
    let (a, i1) = match number_at_exec(line, 4) {
        Some(x) => x,
        None => return None,
    };
    proof {
        lemma_digits_end_bounded(line@, 4);
    }
    let (b, i2) = match count_at_exec(line, i1) {
        Some(x) => x,
        None => return None,
    };
    if !(line.len() - i2 >= 2 && line[i2] == ' ' && line[i2 + 1] == '+') {
        return None;
    }
    let (c, i3) = match number_at_exec(line, i2 + 2) {
        Some(x) => x,
        None => return None,
    };
    proof {
        lemma_digits_end_bounded(line@, i2 + 2);
    }
    let (d, i4) = match count_at_exec(line, i3) {
        Some(x) => x,
        None => return None,
    };
    if line.len() - i4 >= 3 && line[i4] == ' ' && line[i4 + 1] == '@' && line[i4 + 2] == '@' {
        Some((a, b, c, d))
    } else {
        None
    }
}

/// A hunk still taking lines, with the numbers of its next old and new
/// lines.
pub struct OpenHunkView {
    pub hunk: DiffHunkView,
    pub old_next: usize,
    pub new_next: usize,
}

/// Where parsing stands: the hunks done, and the one still open.
pub struct HunkParse {
    pub done: Seq<DiffHunkView>,
    pub open: Option<OpenHunkView>,
}

/// All hunks parsed so far, the open one last.
pub open spec fn closed_hunks(p: HunkParse) -> Seq<DiffHunkView> {
    match p.open {
        Some(o) => p.done.push(o.hunk),
        None => p.done,
    }
}

/// The open hunk with one more line and the next line numbers.
pub open spec fn with_line(o: OpenHunkView, line: DiffLineView, old_next: usize, new_next: usize) -> OpenHunkView {
    OpenHunkView { hunk: DiffHunkView { lines: o.hunk.lines.push(line), ..o.hunk }, old_next, new_next }
}

pub open spec fn invalid_header_message(line: Seq<char>) -> Seq<char> {
    "invalid hunk header: "@ + line
}

pub open spec fn out_of_range_message() -> Seq<char> {
    "line number out of range"@
}

/// One line of the patch: `@@` opens a hunk (its header must parse);
/// inside a hunk, a line that starts with a space is context, `+` added
/// and `-` deleted, each numbered on its side(s) and kept without its
/// marker; every other line (file headers, "\ No newline at end of
/// file", empty lines) is passed over.
pub open spec fn parse_line(p: HunkParse, line: Seq<char>) -> Result<HunkParse, Seq<char>> {
    if is_header_line(line) {
        match parse_hunk_header(line) {
            None => Err(invalid_header_message(line)),
            Some((a, b, c, d)) => Ok(
                HunkParse {
                    done: closed_hunks(p),
                    open: Some(
                        OpenHunkView {
                            hunk: DiffHunkView {
                                old_start_line: a,
                                old_line_count: b,
                                new_start_line: c,
                                new_line_count: d,
                                lines: Seq::empty(),
                            },
                            old_next: a,
                            new_next: c,
                        },
                    ),
                },
            ),
        }
    } else {
        match p.open {
            None => Ok(p),
            Some(o) => if line.len() == 0 {
                Ok(p)
            } else if line[0] == ' ' {
                if o.old_next == usize::MAX || o.new_next == usize::MAX {
                    Err(out_of_range_message())
                } else {
                    let l = DiffLineView {
                        line_type: DiffLineType::Context,
                        old_line_number: Some(o.old_next),
                        new_line_number: Some(o.new_next),
                        text: line.drop_first(),
                    };
                    Ok(
                        HunkParse {
                            open: Some(with_line(o, l, (o.old_next + 1) as usize, (o.new_next + 1) as usize)),
                            ..p
                        },
                    )
                }
            } else if line[0] == '+' {
                if o.new_next == usize::MAX {
                    Err(out_of_range_message())
                } else {
                    let l = DiffLineView {
                        line_type: DiffLineType::Add,
                        old_line_number: None,
                        new_line_number: Some(o.new_next),
                        text: line.drop_first(),
                    };
                    Ok(HunkParse { open: Some(with_line(o, l, o.old_next, (o.new_next + 1) as usize)), ..p })
                }
            } else if line[0] == '-' {
                if o.old_next == usize::MAX {
                    Err(out_of_range_message())
                } else {
                    let l = DiffLineView {
                        line_type: DiffLineType::Delete,
                        old_line_number: Some(o.old_next),
                        new_line_number: None,
                        text: line.drop_first(),
                    };
                    Ok(HunkParse { open: Some(with_line(o, l, (o.old_next + 1) as usize, o.new_next)), ..p })
                }
            } else {
                Ok(p)
            },
        }
    }
}

/// The lines parsed in order; the first error stops the parse.
pub open spec fn parse_lines(lines: Seq<Seq<char>>) -> Result<HunkParse, Seq<char>>
    decreases lines.len(),
{
    if lines.len() == 0 {
        Ok(HunkParse { done: Seq::empty(), open: None })
    } else {
        match parse_lines(lines.drop_last()) {
            Ok(p) => parse_line(p, lines.last()),
            Err(e) => Err(e),
        }
    }
}

/// The hunks of a unified diff patch, split into lines on `\n` (see
/// `parse_line`).
pub open spec fn spec_parse_diff_hunks(patch: Seq<char>) -> Result<Seq<DiffHunkView>, Seq<char>> {
    match parse_lines(split_on(patch, '\n')) {
        Ok(p) => Ok(closed_hunks(p)),
        Err(e) => Err(e),
    }
}

/// Whether a parsed line is numbered on the sides it is on: context on
/// both, an added line on the new side only, a deleted line on the old
/// side only; no parsed line is a hunk header.
pub open spec fn line_well_formed(l: DiffLineView) -> bool {
    match l.line_type {
        DiffLineType::Context => l.old_line_number is Some && l.new_line_number is Some,
        DiffLineType::Add => l.old_line_number is None && l.new_line_number is Some,
        DiffLineType::Delete => l.old_line_number is Some && l.new_line_number is None,
        DiffLineType::HunkHeader => false,
    }
}

/// Whether every line of every hunk is well formed.
pub open spec fn hunks_well_formed(hs: Seq<DiffHunkView>) -> bool {
    forall|i: int, j: int|
        0 <= i < hs.len() && 0 <= j < hs[i].lines.len() ==> line_well_formed(#[trigger] hs[i].lines[j])
}

proof fn lemma_push_line_well_formed(
    done: Seq<DiffHunkView>,
    o: OpenHunkView,
    l: DiffLineView,
    old_next: usize,
    new_next: usize,
)
    requires
        hunks_well_formed(done.push(o.hunk)),
        line_well_formed(l),
    ensures
        hunks_well_formed(done.push(with_line(o, l, old_next, new_next).hunk)),
{
    let a = done.push(o.hunk);
    let b = done.push(with_line(o, l, old_next, new_next).hunk);
    assert forall|i: int, j: int| 0 <= i < b.len() && 0 <= j < b[i].lines.len() implies line_well_formed(
        #[trigger] b[i].lines[j],
    ) by {
        if i < done.len() {
            assert(b[i] == a[i]);
        } else if j < o.hunk.lines.len() {
            assert(b[i].lines[j] == a[i].lines[j]);
        }
    }
}

proof fn lemma_parse_lines_well_formed(lines: Seq<Seq<char>>)
    ensures
        parse_lines(lines) matches Ok(p) ==> hunks_well_formed(closed_hunks(p)),
    decreases lines.len(),
{
    if lines.len() > 0 {
        lemma_parse_lines_well_formed(lines.drop_last());
        if let Ok(p) = parse_lines(lines.drop_last()) {
            let line = lines.last();
            if is_header_line(line) {
                if parse_hunk_header(line) is Some {
                    let q = parse_line(p, line)->Ok_0;
                    let hs = closed_hunks(q);
                    assert forall|i: int, j: int| 0 <= i < hs.len() && 0 <= j < hs[i].lines.len() implies line_well_formed(
                        #[trigger] hs[i].lines[j],
                    ) by {
                        assert(i < closed_hunks(p).len());
                        assert(hs[i] == closed_hunks(p)[i]);
                    }
                }
            } else if let Some(o) = p.open {
                if line.len() > 0 && o.old_next != usize::MAX && o.new_next != usize::MAX && line[0] == ' ' {
                    lemma_push_line_well_formed(
                        p.done,
                        o,
                        DiffLineView {
                            line_type: DiffLineType::Context,
                            old_line_number: Some(o.old_next),
                            new_line_number: Some(o.new_next),
                            text: line.drop_first(),
                        },
                        (o.old_next + 1) as usize,
                        (o.new_next + 1) as usize,
                    );
                } else if line.len() > 0 && o.new_next != usize::MAX && line[0] == '+' {
                    lemma_push_line_well_formed(
                        p.done,
                        o,
                        DiffLineView {
                            line_type: DiffLineType::Add,
                            old_line_number: None,
                            new_line_number: Some(o.new_next),
                            text: line.drop_first(),
                        },
                        o.old_next,
                        (o.new_next + 1) as usize,
                    );
                } else if line.len() > 0 && o.old_next != usize::MAX && line[0] == '-' {
                    lemma_push_line_well_formed(
                        p.done,
                        o,
                        DiffLineView {
                            line_type: DiffLineType::Delete,
                            old_line_number: Some(o.old_next),
                            new_line_number: None,
                            text: line.drop_first(),
                        },
                        (o.old_next + 1) as usize,
                        o.new_next,
                    );
                }
            }
        }
    }
}

/// Every line of every hunk that a patch parses into is numbered on the
/// sides it is on (see `line_well_formed`).
pub proof fn lemma_parsed_hunks_well_formed(patch: Seq<char>)
    ensures
        spec_parse_diff_hunks(patch) matches Ok(hs) ==> hunks_well_formed(hs),
{
    lemma_parse_lines_well_formed(split_on(patch, '\n'));
}

/// How many of `lines` are numbered on the old side.
pub open spec fn old_numbered(lines: Seq<DiffLineView>) -> nat
    decreases lines.len(),
{
    if lines.len() == 0 {
        0
    } else {
        old_numbered(lines.drop_last()) + if lines.last().old_line_number is Some {
            1nat
        } else {
            0nat
        }
    }
}

/// How many of `lines` are numbered on the new side.
pub open spec fn new_numbered(lines: Seq<DiffLineView>) -> nat
    decreases lines.len(),
{
    if lines.len() == 0 {
        0
    } else {
        new_numbered(lines.drop_last()) + if lines.last().new_line_number is Some {
            1nat
        } else {
            0nat
        }
    }
}

/// Whether the lines of a hunk are numbered consecutively on each side,
/// from the hunk's start on that side.
pub open spec fn hunk_numbered_in_order(h: DiffHunkView) -> bool {
    forall|j: int|
        0 <= j < h.lines.len() ==> (#[trigger] h.lines[j].old_line_number matches Some(n) ==> n
            == h.old_start_line + old_numbered(h.lines.take(j))) && (h.lines[j].new_line_number matches Some(
            n,
        ) ==> n == h.new_start_line + new_numbered(h.lines.take(j)))
}

spec fn open_numbered(o: OpenHunkView) -> bool {
    &&& hunk_numbered_in_order(o.hunk)
    &&& o.old_next == o.hunk.old_start_line + old_numbered(o.hunk.lines)
    &&& o.new_next == o.hunk.new_start_line + new_numbered(o.hunk.lines)
}

spec fn parse_numbered(p: HunkParse) -> bool {
    &&& forall|i: int| 0 <= i < p.done.len() ==> hunk_numbered_in_order(#[trigger] p.done[i])
    &&& p.open matches Some(o) ==> open_numbered(o)
}

proof fn lemma_push_line_numbered(o: OpenHunkView, l: DiffLineView, old_next: usize, new_next: usize)
    requires
        open_numbered(o),
        l.old_line_number matches Some(n) ==> n == o.old_next && old_next == o.old_next + 1,
        l.old_line_number is None ==> old_next == o.old_next,
        l.new_line_number matches Some(n) ==> n == o.new_next && new_next == o.new_next + 1,
        l.new_line_number is None ==> new_next == o.new_next,
    ensures
        open_numbered(with_line(o, l, old_next, new_next)),
{
    let q = with_line(o, l, old_next, new_next);
    let lines = o.hunk.lines;
    let more = q.hunk.lines;
    assert(more.drop_last() =~= lines);
    assert forall|j: int| 0 <= j < more.len() implies (#[trigger] more[j].old_line_number matches Some(n)
        ==> n == q.hunk.old_start_line + old_numbered(more.take(j))) && (more[j].new_line_number matches Some(
        n,
    ) ==> n == q.hunk.new_start_line + new_numbered(more.take(j))) by {
        if j < lines.len() {
            assert(more.take(j) =~= lines.take(j));
            assert(more[j] == lines[j]);
        } else {
            assert(more.take(j) =~= lines);
        }
    }
}

proof fn lemma_parse_lines_numbered(lines: Seq<Seq<char>>)
    ensures
        parse_lines(lines) matches Ok(p) ==> parse_numbered(p),
    decreases lines.len(),
{
    if lines.len() > 0 {
        lemma_parse_lines_numbered(lines.drop_last());
        if let Ok(p) = parse_lines(lines.drop_last()) {
            let line = lines.last();
            if is_header_line(line) {
                if parse_hunk_header(line) is Some {
                    let q = parse_line(p, line)->Ok_0;
                    let o = q.open->Some_0;
                    assert(o.hunk.lines.len() == 0);
                    assert(old_numbered(o.hunk.lines) == 0);
                    assert(new_numbered(o.hunk.lines) == 0);
                    assert forall|i: int| 0 <= i < q.done.len() implies hunk_numbered_in_order(
                        #[trigger] q.done[i],
                    ) by {
                        if i < p.done.len() {
                            assert(q.done[i] == p.done[i]);
                        }
                    }
                }
            } else if let Some(o) = p.open {
                if line.len() > 0 && o.old_next != usize::MAX && o.new_next != usize::MAX && line[0] == ' ' {
                    lemma_push_line_numbered(
                        o,
                        DiffLineView {
                            line_type: DiffLineType::Context,
                            old_line_number: Some(o.old_next),
                            new_line_number: Some(o.new_next),
                            text: line.drop_first(),
                        },
                        (o.old_next + 1) as usize,
                        (o.new_next + 1) as usize,
                    );
                } else if line.len() > 0 && o.new_next != usize::MAX && line[0] == '+' {
                    lemma_push_line_numbered(
                        o,
                        DiffLineView {
                            line_type: DiffLineType::Add,
                            old_line_number: None,
                            new_line_number: Some(o.new_next),
                            text: line.drop_first(),
                        },
                        o.old_next,
                        (o.new_next + 1) as usize,
                    );
                } else if line.len() > 0 && o.old_next != usize::MAX && line[0] == '-' {
                    lemma_push_line_numbered(
                        o,
                        DiffLineView {
                            line_type: DiffLineType::Delete,
                            old_line_number: Some(o.old_next),
                            new_line_number: None,
                            text: line.drop_first(),
                        },
                        (o.old_next + 1) as usize,
                        o.new_next,
                    );
                }
            }
        }
    }
}

/// In every hunk that a patch parses into, the lines are numbered
/// consecutively on each side from the hunk's start on that side: a
/// line's old (new) number is the old (new) start plus the number of
/// earlier lines on that side.
pub proof fn lemma_parsed_hunks_numbered_in_order(patch: Seq<char>)
    ensures
        spec_parse_diff_hunks(patch) matches Ok(hs) ==> forall|i: int|
            0 <= i < hs.len() ==> hunk_numbered_in_order(#[trigger] hs[i]),
{
    lemma_parse_lines_numbered(split_on(patch, '\n'));
    if let Ok(p) = parse_lines(split_on(patch, '\n')) {
        let hs = closed_hunks(p);
        assert forall|i: int| 0 <= i < hs.len() implies hunk_numbered_in_order(#[trigger] hs[i]) by {
            if i < p.done.len() {
                assert(hs[i] == p.done[i]);
            }
        }
    }
}

/// The marker that a line of each type has in a patch.
pub open spec fn line_marker(t: DiffLineType) -> char {
    match t {
        DiffLineType::Context => ' ',
        DiffLineType::Add => '+',
        DiffLineType::Delete => '-',
        DiffLineType::HunkHeader => '@',
    }
}

/// Whether every line of every hunk, with its marker put back in front of
/// its text, is one of `lines`.
pub open spec fn hunk_lines_from(hs: Seq<DiffHunkView>, lines: Seq<Seq<char>>) -> bool {
    forall|i: int, j: int|
        0 <= i < hs.len() && 0 <= j < hs[i].lines.len() ==> lines.contains(
            seq![line_marker(#[trigger] hs[i].lines[j].line_type)] + hs[i].lines[j].text,
        )
}

proof fn lemma_parse_lines_from_patch(lines: Seq<Seq<char>>)
    ensures
        parse_lines(lines) matches Ok(p) ==> hunk_lines_from(closed_hunks(p), lines),
    decreases lines.len(),
{
    if lines.len() > 0 {
        let prev = lines.drop_last();
        lemma_parse_lines_from_patch(prev);
        if let Ok(p) = parse_lines(prev) {
            let line = lines.last();
            if let Ok(q) = parse_line(p, line) {
                let before = closed_hunks(p);
                let hs = closed_hunks(q);
                assert forall|i: int, j: int| 0 <= i < hs.len() && 0 <= j < hs[i].lines.len() implies lines.contains(
                    seq![line_marker(#[trigger] hs[i].lines[j].line_type)] + hs[i].lines[j].text,
                ) by {
                    let x = seq![line_marker(hs[i].lines[j].line_type)] + hs[i].lines[j].text;
                    let in_before = i < before.len() && j < before[i].lines.len() && hs[i].lines[j]
                        == before[i].lines[j];
                    if in_before {
                        let k = choose|k: int| 0 <= k < prev.len() && prev[k] == x;
                        assert(lines[k] == prev[k]);
                    } else {
                        assert(line.len() > 0 && line[0] == line_marker(hs[i].lines[j].line_type)
                            && hs[i].lines[j].text == line.drop_first());
                        assert(x =~= line);
                        assert(lines[lines.len() - 1] == line);
                    }
                }
            }
        }
    }
}

/// Every line of every hunk that a patch parses into is a line of the
/// patch: its text is the patch line without the marker that its type
/// stands for (` ` context, `+` added, `-` deleted).
pub proof fn lemma_parsed_lines_come_from_patch(patch: Seq<char>)
    ensures
        spec_parse_diff_hunks(patch) matches Ok(hs) ==> hunk_lines_from(hs, split_on(patch, '\n')),
{
    lemma_parse_lines_from_patch(split_on(patch, '\n'));
}

struct OpenHunk {
    hunk: DiffHunk,
    old_next: usize,
    new_next: usize,
}

impl View for OpenHunk {
    type V = OpenHunkView;

    closed spec fn view(&self) -> OpenHunkView {
        OpenHunkView { hunk: self.hunk@, old_next: self.old_next, new_next: self.new_next }
    }
}

spec fn parse_view(done: Seq<DiffHunk>, open: Option<OpenHunk>) -> HunkParse {
    HunkParse {
        done: hunk_views(done),
        open: match open {
            Some(o) => Some(o@),
            None => None,
        },
    }
}

/// The open hunk with one more line (see `with_line`).
fn push_line(o: OpenHunk, line: DiffLine, old_next: usize, new_next: usize) -> (r: OpenHunk)
    ensures
        r@ == with_line(o@, line@, old_next, new_next),
{
    let mut o = o;
    let ghost before = o.hunk.lines@;
    o.hunk.lines.push(line);
    assert(o.hunk.lines@.map_values(|l: DiffLine| l@) =~= before.map_values(|l: DiffLine| l@).push(line@));
    o.old_next = old_next;
    o.new_next = new_next;
    o
}

/// Everything after the first character of `line`.
fn rest_of(line: &Vec<char>) -> (s: String)
    requires
        line.len() > 0,
    ensures
        s@ == line@.drop_first(),
{
    let mut s = String::new();
    push_range(&mut s, line, 1, line.len());
    assert(Seq::<char>::empty() + line@.subrange(1, line.len() as int) =~= line@.drop_first());
    s
}

/// One line of the patch (see `parse_line`).
fn parse_line_exec(done: Vec<DiffHunk>, open: Option<OpenHunk>, line: &Vec<char>) -> (r: Result<
    (Vec<DiffHunk>, Option<OpenHunk>),
    String,
>)
    ensures
        match r {
            Ok((d, o)) => parse_line(parse_view(done@, open), line@) == Ok::<HunkParse, Seq<char>>(
                parse_view(d@, o),
            ),
            Err(e) => parse_line(parse_view(done@, open), line@) == Err::<HunkParse, Seq<char>>(e@),
        },
{
    let ghost p = parse_view(done@, open);
    if line.len() >= 2 && line[0] == '@' && line[1] == '@' {
        match parse_hunk_header_exec(line) {
            None => {
                let mut message = String::new();
                push_str(&mut message, "invalid hunk header: ");
                push_range(&mut message, line, 0, line.len());
                assert(line@.subrange(0, line.len() as int) =~= line@);
                assert(Seq::<char>::empty() + "invalid hunk header: "@ =~= "invalid hunk header: "@);
                Err(message)
            },
            Some((a, b, c, d)) => {
                let mut done = done;
                let ghost before = done@;
                match open {
                    Some(o) => {
                        done.push(o.hunk);
                        assert(hunk_views(done@) =~= hunk_views(before).push(o@.hunk));
                    },
                    None => {},
                }
                let hunk = DiffHunk {
                    old_start_line: a,
                    old_line_count: b,
                    new_start_line: c,
                    new_line_count: d,
                    lines: Vec::new(),
                };
                assert(hunk@.lines =~= Seq::<DiffLineView>::empty());
                Ok((done, Some(OpenHunk { hunk, old_next: a, new_next: c })))
            },
        }
    } else {
        match open {
            None => Ok((done, None)),
            Some(o) => {
                if line.len() == 0 {
                    Ok((done, Some(o)))
                } else if line[0] == ' ' {
                    if o.old_next == usize::MAX || o.new_next == usize::MAX {
                        Err(String::from_str("line number out of range"))
                    } else {
                        let old_no = o.old_next;
                        let new_no = o.new_next;
                        let l = DiffLine {
                            line_type: DiffLineType::Context,
                            old_line_number: Some(old_no),
                            new_line_number: Some(new_no),
                            text: rest_of(line),
                        };
                        Ok((done, Some(push_line(o, l, old_no + 1, new_no + 1))))
                    }
                } else if line[0] == '+' {
                    if o.new_next == usize::MAX {
                        Err(String::from_str("line number out of range"))
                    } else {
                        let old_no = o.old_next;
                        let new_no = o.new_next;
                        let l = DiffLine {
                            line_type: DiffLineType::Add,
                            old_line_number: None,
                            new_line_number: Some(new_no),
                            text: rest_of(line),
                        };
                        Ok((done, Some(push_line(o, l, old_no, new_no + 1))))
                    }
                } else if line[0] == '-' {
                    if o.old_next == usize::MAX {
                        Err(String::from_str("line number out of range"))
                    } else {
                        let old_no = o.old_next;
                        let new_no = o.new_next;
                        let l = DiffLine {
                            line_type: DiffLineType::Delete,
                            old_line_number: Some(old_no),
                            new_line_number: None,
                            text: rest_of(line),
                        };
                        Ok((done, Some(push_line(o, l, old_no + 1, new_no))))
                    }
                } else {
                    Ok((done, Some(o)))
                }
            },
        }
    }
}

/// Once the parse of a prefix fails, the parse of every longer prefix
/// fails with the same error.
proof fn lemma_parse_error_sticks(ls: Seq<Seq<char>>, k: int, j: int)
    requires
        0 <= k <= j <= ls.len(),
        parse_lines(ls.take(k)) is Err,
    ensures
        parse_lines(ls.take(j)) == parse_lines(ls.take(k)),
    decreases j - k,
{
    if j > k {
        lemma_parse_error_sticks(ls, k, j - 1);
        assert(ls.take(j).drop_last() =~= ls.take(j - 1));
    }
}

/// The hunks of a unified diff patch (see `spec_parse_diff_hunks`).
pub fn parse_diff_hunks(patch: &str) -> (r: Result<Vec<DiffHunk>, String>)
    ensures
        match r {
            Ok(h) => spec_parse_diff_hunks(patch@) == Ok::<Seq<DiffHunkView>, Seq<char>>(hunk_views(h@)),
            Err(e) => spec_parse_diff_hunks(patch@) == Err::<Seq<DiffHunkView>, Seq<char>>(e@),
        },
{
    let chars = chars_of(patch);
    let lines = split_chars(&chars, '\n');
    let ghost ls = char_views(lines@);
    let mut done: Vec<DiffHunk> = Vec::new();
    let mut open: Option<OpenHunk> = None;
    let mut i: usize = 0;
    assert(ls.take(0) =~= Seq::<Seq<char>>::empty());
    assert(hunk_views(done@) =~= Seq::<DiffHunkView>::empty());
    while i < lines.len()
        invariant
            ls == char_views(lines@),
            ls == split_on(patch@, '\n'),
            i <= lines.len(),
            parse_lines(ls.take(i as int)) == Ok::<HunkParse, Seq<char>>(parse_view(done@, open)),
        decreases lines.len() - i,
    {
        assert(ls.take(i + 1).drop_last() =~= ls.take(i as int));
        assert(ls.take(i + 1).last() == lines@[i as int]@);
        match parse_line_exec(done, open, &lines[i]) {
            Ok((d, o)) => {
                done = d;
                open = o;
            },
            Err(e) => {
                proof {
                    lemma_parse_error_sticks(ls, i + 1, ls.len() as int);
                    assert(ls.take(ls.len() as int) =~= ls);
                }
                return Err(e);
            },
        }
        i = i + 1;
    }
    assert(ls.take(lines.len() as int) =~= ls);
    let ghost before = done@;
    match open {
        Some(o) => {
            done.push(o.hunk);
            assert(hunk_views(done@) =~= hunk_views(before).push(o@.hunk));
        },
        None => {},
    }
    Ok(done)
}

impl LoadedDiff {
    /// What the diff panel takes from a diff that git gave: whether the
    /// patch hides bidirectional controls, and its hunks, which a binary or
    /// too large diff does not have; a patch that does not parse is an
    /// error.
    pub fn from_patch(patch: &str, is_binary: bool, is_too_large: bool) -> (r: Result<LoadedDiff, String>)
        ensures
            match r {
                Ok(d) => {
                    &&& d.is_binary == is_binary
                    &&& d.is_too_large == is_too_large
                    &&& d.has_hidden_bidi_chars == has_hidden_bidi(patch@)
                    &&& if is_binary || is_too_large {
                        d.hunks@.len() == 0
                    } else {
                        spec_parse_diff_hunks(patch@) == Ok::<Seq<DiffHunkView>, Seq<char>>(
                            hunk_views(d.hunks@),
                        )
                    }
                },
                Err(e) => !is_binary && !is_too_large && spec_parse_diff_hunks(patch@) == Err::<
                    Seq<DiffHunkView>,
                    Seq<char>,
                >(e@),
            },
    {
        let has_hidden_bidi_chars = check_for_hidden_bidi_chars(patch);
        let hunks = if is_binary || is_too_large {
            Vec::new()
        } else {
            match parse_diff_hunks(patch) {
                Ok(h) => h,
                Err(e) => return Err(e),
            }
        };
        Ok(LoadedDiff { hunks, is_binary, is_too_large, has_hidden_bidi_chars })
    }

    /// What the diff panel takes from the diff of one file (see
    /// `from_patch`).
    pub fn from_file_diff(diff: &GitHistoryFileDiff) -> (r: Result<LoadedDiff, String>)
        ensures
            match r {
                Ok(d) => {
                    &&& d.is_binary == diff.is_binary
                    &&& d.is_too_large == diff.is_too_large
                    &&& d.has_hidden_bidi_chars == has_hidden_bidi(diff.patch@)
                    &&& if diff.is_binary || diff.is_too_large {
                        d.hunks@.len() == 0
                    } else {
                        spec_parse_diff_hunks(diff.patch@) == Ok::<Seq<DiffHunkView>, Seq<char>>(
                            hunk_views(d.hunks@),
                        )
                    }
                },
                Err(e) => !diff.is_binary && !diff.is_too_large && spec_parse_diff_hunks(diff.patch@)
                    == Err::<Seq<DiffHunkView>, Seq<char>>(e@),
            },
    {
        LoadedDiff::from_patch(diff.patch.as_str(), diff.is_binary, diff.is_too_large)
    }
}

/// Whether `line` starts with `prefix`.
pub open spec fn starts_with(line: Seq<char>, prefix: Seq<char>) -> bool {
    line.len() >= prefix.len() && line.take(prefix.len() as int) == prefix
}

/// Whether git reported the file as binary: a line of the patch starts
/// with "Binary files ".
pub open spec fn spec_is_binary_patch(patch: Seq<char>) -> bool {
    exists|i: int|
        0 <= i < split_on(patch, '\n').len() && #[trigger] starts_with(
            split_on(patch, '\n')[i],
            "Binary files "@,
        )
}

fn starts_with_exec(line: &Vec<char>, prefix: &Vec<char>) -> (r: bool)
    ensures
        r == starts_with(line@, prefix@),
{
    if line.len() < prefix.len() {
        return false;
    }
    let mut i: usize = 0;
    while i < prefix.len()
        invariant
            prefix.len() <= line.len(),
            i <= prefix.len(),
            forall|k: int| 0 <= k < i ==> line@[k] == prefix@[k],
        decreases prefix.len() - i,
    {
        if line[i] != prefix[i] {
            assert(line@.take(prefix@.len() as int)[i as int] != prefix@[i as int]);
            return false;
        }
        i = i + 1;
    }
    assert(line@.take(prefix@.len() as int) =~= prefix@);
    true
}

/// Whether git reported the file as binary (see `spec_is_binary_patch`).
pub fn is_binary_patch(patch: &str) -> (r: bool)
    ensures
        r == spec_is_binary_patch(patch@),
{
    let chars = chars_of(patch);
    let lines = split_chars(&chars, '\n');
    let prefix = chars_of("Binary files ");
    let ghost ls = char_views(lines@);
    let mut i: usize = 0;
    while i < lines.len()
        invariant
            ls == char_views(lines@),
            ls == split_on(patch@, '\n'),
            prefix@ == "Binary files "@,
            i <= lines.len(),
            forall|k: int| 0 <= k < i ==> !#[trigger] starts_with(ls[k], "Binary files "@),
        decreases lines.len() - i,
    {
        assert(ls[i as int] == lines@[i as int]@);
        if starts_with_exec(&lines[i], &prefix) {
            return true;
        }
        i = i + 1;
    }
    false
}

proof fn lemma_digit_char_code(d: nat)
    requires
        d < 10,
    ensures
        is_digit(digit_char(d)),
        (digit_char(d) as u32) - 48 == d,
{
}

proof fn lemma_digits_value_push(s: Seq<char>, c: char)
    ensures
        digits_value(s.push(c)) == digits_value(s) * 10 + ((c as u32) - 48) as nat,
{
    assert(s.push(c).drop_last() =~= s);
}

/// `decimal(n)` is the usual decimal writing of `n`: it is made of digits,
/// has no leading zero, and reads back as `n`.
pub proof fn lemma_decimal_reads_back(n: nat)
    ensures
        decimal(n).len() > 0,
        forall|i: int| 0 <= i < decimal(n).len() ==> is_digit(#[trigger] decimal(n)[i]),
        n >= 10 ==> decimal(n)[0] != '0',
        digits_value(decimal(n)) == n,
    decreases n,
{
    if n < 10 {
        lemma_digit_char_code(n);
        lemma_digits_value_push(Seq::empty(), digit_char(n));
        assert(seq![digit_char(n)] =~= Seq::<char>::empty().push(digit_char(n)));
    } else {
        lemma_decimal_reads_back(n / 10);
        lemma_digit_char_code(n % 10);
        let d = decimal(n / 10);
        lemma_digits_value_push(d, digit_char(n % 10));
        assert(decimal(n) == d.push(digit_char(n % 10)));
        assert forall|i: int| 0 <= i < decimal(n).len() implies is_digit(#[trigger] decimal(n)[i]) by {
            if i < d.len() {
                assert(decimal(n)[i] == d[i]);
            }
        }
        assert(decimal(n)[0] == d[0]);
        if n / 10 < 10 {
            lemma_digit_char_code(n / 10);
            assert(d[0] == digit_char(n / 10));
        }
        assert(n == (n / 10) * 10 + n % 10);
    }
}

/// Where a run of digits ends, read from its first digit.
proof fn lemma_digits_end_at(s: Seq<char>, i: int, j: int)
    requires
        0 <= i <= j <= s.len(),
        forall|k: int| i <= k < j ==> is_digit(#[trigger] s[k]),
        j == s.len() || !is_digit(s[j]),
    ensures
        digits_end(s, i) == j,
    decreases j - i,
{
    if i < j {
        lemma_digits_end_at(s, i + 1, j);
    }
}

/// A number written in decimal at `i`, followed by a non-digit, is read
/// back by `number_at`.
pub(crate) proof fn lemma_number_at_decimal(s: Seq<char>, i: int, n: nat)
    requires
        n <= usize::MAX,
        0 <= i,
        i + decimal(n).len() <= s.len(),
        s.subrange(i, i + decimal(n).len()) == decimal(n),
        i + decimal(n).len() == s.len() || !is_digit(s[i + decimal(n).len()]),
    ensures
        number_at(s, i) == Some((n as usize, i + decimal(n).len())),
{
    lemma_decimal_reads_back(n);
    let j: int = i + decimal(n).len();
    assert forall|k: int| i <= k < j implies is_digit(#[trigger] s[k]) by {
        assert(s[k] == s.subrange(i, j)[k - i]);
    }
    lemma_digits_end_at(s, i, j);
}

/// A hunk range written at `i` and followed by a space reads back as its
/// start and count: a start alone stands for a count of 1.
proof fn lemma_range_reads_back(s: Seq<char>, i: int, start: usize, count: usize)
    requires
        0 <= i,
        i + spec_hunk_range(start as nat, count as nat).len() < s.len(),
        s.subrange(i, i + spec_hunk_range(start as nat, count as nat).len()) == spec_hunk_range(
            start as nat,
            count as nat,
        ),
        s[i + spec_hunk_range(start as nat, count as nat).len()] == ' ',
    ensures
        number_at(s, i) matches Some((st, j)) && st == start && count_at(s, j) == Some(
            (count, i + spec_hunk_range(start as nat, count as nat).len()),
        ),
{
    reveal_strlit(",");
    let r = spec_hunk_range(start as nat, count as nat);
    let ds = decimal(start as nat);
    let e: int = i + r.len();
    assert(' ' as u32 == 32);
    assert(',' as u32 == 44);
    if count == 1 {
        lemma_number_at_decimal(s, i, start as nat);
    } else {
        let dc = decimal(count as nat);
        assert(r == ds + seq![','] + dc);
        assert(s.subrange(i, i + ds.len()) =~= ds) by {
            assert forall|k: int| 0 <= k < ds.len() implies s.subrange(i, i + ds.len())[k] == ds[k] by {
                assert(s.subrange(i, e)[k] == r[k]);
            }
        }
        assert(s[i + ds.len()] == ',') by {
            assert(s.subrange(i, e)[ds.len() as int] == r[ds.len() as int]);
        }
        lemma_number_at_decimal(s, i, start as nat);
        let j: int = i + ds.len() + 1;
        assert(s.subrange(j, j + dc.len()) =~= dc) by {
            assert forall|k: int| 0 <= k < dc.len() implies s.subrange(j, j + dc.len())[k] == dc[k] by {
                assert(s.subrange(i, e)[ds.len() + 1 + k] == r[ds.len() + 1 + k]);
            }
        }
        lemma_number_at_decimal(s, j, count as nat);
    }
}

/// The header that `hunk_header` writes for a hunk reads back as the
/// hunk's starts and counts.
pub proof fn lemma_hunk_header_round_trip(old_start: usize, old_count: usize, new_start: usize, new_count: usize)
    ensures
        parse_hunk_header(
            "@@ -"@ + spec_hunk_range(old_start as nat, old_count as nat) + " +"@ + spec_hunk_range(
                new_start as nat,
                new_count as nat,
            ) + " @@"@,
        ) == Some((old_start, old_count, new_start, new_count)),
{
    reveal_strlit("@@ -");
    reveal_strlit(" +");
    reveal_strlit(" @@");
    let r1 = spec_hunk_range(old_start as nat, old_count as nat);
    let r2 = spec_hunk_range(new_start as nat, new_count as nat);
    let l = "@@ -"@ + r1 + " +"@ + r2 + " @@"@;
    let e1: int = 4 + r1.len() as int;
    let i2: int = e1;
    let e2: int = i2 + 2 + r2.len();
    assert(l.len() == e2 + 3);
    assert(l[0] == '@' && l[1] == '@' && l[2] == ' ' && l[3] == '-');
    assert(l.subrange(4, e1) =~= r1);
    assert(l[e1] == ' ');
    lemma_range_reads_back(l, 4, old_start, old_count);
    assert(l[i2 + 1] == '+');
    assert(l.subrange(i2 + 2, e2) =~= r2);
    assert(l[e2] == ' ');
    lemma_range_reads_back(l, i2 + 2, new_start, new_count);
    assert(l[e2 + 1] == '@' && l[e2 + 2] == '@');
}

} // verus!
