//! Mathematical model of the parser.
//!
//! Everything here is specification-level: how the input text splits into
//! lines, which lines are message headers, and what sequence of messages a
//! given sequence of lines denotes.  The executable parser in the crate root
//! is proved to return exactly [`spec_parse`] of [`spec_lines`] of its input.

use vstd::prelude::*;

verus! {

/// Ghost image of one message: the four fields as character sequences.
pub struct MessageView {
    pub date: Seq<char>,
    pub datetime: Seq<char>,
    pub sender: Seq<char>,
    pub message: Seq<char>,
}

// ---------------------------------------------------------------------------
// Splitting the input into lines.
//
// Lines end at `'\n'`; a line ending `"\r\n"` loses the `'\r'` as well.  The
// final line needs no terminator, and a terminator on the last line adds no
// empty line after it.
// ---------------------------------------------------------------------------

/// Index of the first `'\n'` in `s`, or `s.len()` if there is none.
pub open spec fn find_newline(s: Seq<char>) -> int
    decreases s.len(),
{
    if s.len() == 0 {
        0
    } else if s[0] == '\n' {
        0
    } else {
        1 + find_newline(s.drop_first())
    }
}

/// Remove one trailing `'\r'`, if present.
pub open spec fn strip_cr(l: Seq<char>) -> Seq<char> {
    if l.len() > 0 && l.last() == '\r' {
        l.drop_last()
    } else {
        l
    }
}

/// The lines of `s`, without their terminators.
pub open spec fn spec_lines(s: Seq<char>) -> Seq<Seq<char>>
    decreases s.len(),
{
    if s.len() == 0 {
        Seq::empty()
    } else {
        let i = find_newline(s);
        if 0 <= i < s.len() {
            seq![strip_cr(s.take(i))] + spec_lines(s.skip(i + 1))
        } else {
            seq![s]
        }
    }
}

/// `find_newline` really is the position of the first `'\n'`.
pub proof fn lemma_find_newline_at(s: Seq<char>, k: int)
    requires
        0 <= k <= s.len(),
        forall|j: int| 0 <= j < k ==> s[j] != '\n',
        k < s.len() ==> s[k] == '\n',
    ensures
        find_newline(s) == k,
    decreases k,
{
    if k == 0 {
    } else {
        assert(s[0] != '\n');
        assert forall|j: int| 0 <= j < k - 1 implies s.drop_first()[j] != '\n' by {
            assert(s.drop_first()[j] == s[j + 1]);
        }
        if k - 1 < s.drop_first().len() {
            assert(s.drop_first()[k - 1] == s[k]);
        }
        lemma_find_newline_at(s.drop_first(), k - 1);
    }
}

// ---------------------------------------------------------------------------
// Header recognition.
//
// A header line has the fixed shape `DD.MM.YY, HH:MM - rest`: two digits,
// dot, two digits, dot, two digits, `", "`, two digits, colon, two digits,
// `" - "`, then anything (possibly nothing).
// ---------------------------------------------------------------------------

/// `c` is one of the ten ASCII digits.
pub open spec fn is_ascii_digit(c: char) -> bool {
    48 <= c as u32 && c as u32 <= 57
}

/// The line starts with the full `DD.MM.YY, HH:MM - ` prefix.
pub open spec fn line_is_header(l: Seq<char>) -> bool {
    &&& l.len() >= 18
    &&& is_ascii_digit(l[0])
    &&& is_ascii_digit(l[1])
    &&& l[2] == '.'
    &&& is_ascii_digit(l[3])
    &&& is_ascii_digit(l[4])
    &&& l[5] == '.'
    &&& is_ascii_digit(l[6])
    &&& is_ascii_digit(l[7])
    &&& l[8] == ','
    &&& l[9] == ' '
    &&& is_ascii_digit(l[10])
    &&& is_ascii_digit(l[11])
    &&& l[12] == ':'
    &&& is_ascii_digit(l[13])
    &&& is_ascii_digit(l[14])
    &&& l[15] == ' '
    &&& l[16] == '-'
    &&& l[17] == ' '
}

/// The captured date of a header line: characters 0..8.
pub open spec fn header_date(l: Seq<char>) -> Seq<char> {
    l.subrange(0, 8)
}

/// The captured time of a header line: characters 10..15.
pub open spec fn header_time(l: Seq<char>) -> Seq<char> {
    l.subrange(10, 15)
}

/// The remainder of a header line after the `" - "` separator.
pub open spec fn header_rest(l: Seq<char>) -> Seq<char> {
    l.subrange(18, l.len() as int)
}

// ---------------------------------------------------------------------------
// Splitting the remainder at the first `": "`.
// ---------------------------------------------------------------------------

/// Index of the first `": "` in `r`, or `r.len()` if there is none.
pub open spec fn find_colon_space(r: Seq<char>) -> int
    decreases r.len(),
{
    if r.len() < 2 {
        r.len() as int
    } else if r[0] == ':' && r[1] == ' ' {
        0
    } else {
        1 + find_colon_space(r.drop_first())
    }
}

/// `r` contains the two-character substring `": "` somewhere.
pub open spec fn has_colon_space(r: Seq<char>) -> bool {
    exists|i: int| 0 <= i && i + 2 <= r.len() && #[trigger] r[i] == ':' && r[i + 1] == ' '
}

/// `find_colon_space` is in range, and points at the first `": "` when one
/// exists; a found split is signalled by `find_colon_space(r) + 2 <= r.len()`.
pub proof fn lemma_find_colon_space(r: Seq<char>)
    ensures
        0 <= find_colon_space(r) <= r.len(),
        find_colon_space(r) + 2 <= r.len() ==> r[find_colon_space(r)] == ':' && r[
            find_colon_space(r) + 1] == ' ',
        forall|j: int|
            0 <= j < find_colon_space(r) && j + 2 <= r.len() ==> !(#[trigger] r[j] == ':' && r[j
                + 1] == ' '),
    decreases r.len(),
{
    if r.len() < 2 {
    } else if r[0] == ':' && r[1] == ' ' {
    } else {
        lemma_find_colon_space(r.drop_first());
        assert forall|j: int|
            0 <= j < find_colon_space(r) && j + 2 <= r.len() implies !(#[trigger] r[j] == ':' && r[j
            + 1] == ' ') by {
            if j > 0 {
                assert(r[j] == r.drop_first()[j - 1]);
                assert(r[j + 1] == r.drop_first()[j]);
            }
        }
        if find_colon_space(r) + 2 <= r.len() {
            assert(r[find_colon_space(r)] == r.drop_first()[find_colon_space(r) - 1]);
            assert(r[find_colon_space(r) + 1] == r.drop_first()[find_colon_space(r)]);
        }
    }
}

// ---------------------------------------------------------------------------
// The message a header line opens, and body continuation.
// ---------------------------------------------------------------------------

/// The message opened by header line `l`, before any continuation lines.
pub open spec fn message_of_header(l: Seq<char>) -> MessageView {
    let rest = header_rest(l);
    let i = find_colon_space(rest);
    MessageView {
        date: header_date(l),
        datetime: header_date(l) + seq![',', ' '] + header_time(l),
        sender: if i + 2 <= rest.len() {
            rest.subrange(0, i)
        } else {
            Seq::empty()
        },
        message: if i + 2 <= rest.len() {
            rest.subrange(i + 2, rest.len() as int)
        } else {
            rest
        },
    }
}

/// Continuation line `l` appended to the body of `m`.
pub open spec fn append_line(m: MessageView, l: Seq<char>) -> MessageView {
    MessageView { message: m.message + seq!['\n'] + l, ..m }
}

/// `m` after appending every line of `ls`, in order.
pub open spec fn extend_all(m: MessageView, ls: Seq<Seq<char>>) -> MessageView
    decreases ls.len(),
{
    if ls.len() == 0 {
        m
    } else {
        extend_all(append_line(m, ls[0]), ls.drop_first())
    }
}

// ---------------------------------------------------------------------------
// The parse itself.
// ---------------------------------------------------------------------------

/// The currently open message, closed: one message, or none.
pub open spec fn emit(cur: Option<MessageView>) -> Seq<MessageView> {
    match cur {
        Some(m) => seq![m],
        None => Seq::empty(),
    }
}

/// Messages denoted by `lines` when `cur` is the currently open message.
/// A header closes `cur` and opens a new message; any other line extends
/// `cur` if one is open and is dropped otherwise; the end of input closes
/// `cur`.
pub open spec fn parse_from(lines: Seq<Seq<char>>, cur: Option<MessageView>) -> Seq<MessageView>
    decreases lines.len(),
{
    if lines.len() == 0 {
        emit(cur)
    } else if line_is_header(lines[0]) {
        emit(cur) + parse_from(lines.drop_first(), Some(message_of_header(lines[0])))
    } else {
        match cur {
            Some(m) => parse_from(lines.drop_first(), Some(append_line(m, lines[0]))),
            None => parse_from(lines.drop_first(), None),
        }
    }
}

/// The messages denoted by a sequence of lines.
pub open spec fn spec_parse(lines: Seq<Seq<char>>) -> Seq<MessageView> {
    parse_from(lines, None)
}

/// How many of the lines are header lines.
pub open spec fn count_headers(lines: Seq<Seq<char>>) -> nat
    decreases lines.len(),
{
    if lines.len() == 0 {
        0
    } else {
        (if line_is_header(lines[0]) {
            1nat
        } else {
            0nat
        }) + count_headers(lines.drop_first())
    }
}

} // verus!
