//! Laws of the parser, proved over the model in [`crate::model`].

use vstd::prelude::*;

use crate::model::{
    append_line, count_headers, emit, extend_all, find_colon_space, has_colon_space, header_rest,
    lemma_find_colon_space, line_is_header, message_of_header, parse_from, spec_parse, MessageView,
};

verus! {

/// `parse_from` emits one message per header line, plus the one still open.
proof fn lemma_parse_from_count(lines: Seq<Seq<char>>, cur: Option<MessageView>)
    ensures
        parse_from(lines, cur).len() == count_headers(lines) + emit(cur).len(),
    decreases lines.len(),
{
    if lines.len() == 0 {
    } else if line_is_header(lines[0]) {
        lemma_parse_from_count(lines.drop_first(), Some(message_of_header(lines[0])));
    } else {
        match cur {
            Some(m) => {
                lemma_parse_from_count(lines.drop_first(), Some(append_line(m, lines[0])));
            },
            None => {
                lemma_parse_from_count(lines.drop_first(), None);
            },
        }
    }
}

/// The number of messages produced equals the number of header lines in the
/// input.
pub proof fn lemma_message_count(lines: Seq<Seq<char>>)
    ensures
        spec_parse(lines).len() == count_headers(lines),
{
    lemma_parse_from_count(lines, None);
}

/// A line standing before any header is dropped: it leaves no trace in the
/// parse of the remaining lines.
pub proof fn lemma_leading_line_dropped(lines: Seq<Seq<char>>)
    requires
        lines.len() > 0,
        !line_is_header(lines[0]),
    ensures
        spec_parse(lines) == spec_parse(lines.drop_first()),
{
}

/// Lines standing before the first header are never reflected in any output
/// message: the parse equals the parse of the input without them.
pub proof fn lemma_lines_before_first_header_dropped(lines: Seq<Seq<char>>, k: int)
    requires
        0 <= k <= lines.len(),
        forall|i: int| 0 <= i < k ==> !line_is_header(lines[i]),
    ensures
        spec_parse(lines) == spec_parse(lines.skip(k)),
    decreases k,
{
    if k > 0 {
        lemma_leading_line_dropped(lines);
        assert forall|i: int| 0 <= i < k - 1 implies !line_is_header(lines.drop_first()[i]) by {
            assert(lines.drop_first()[i] == lines[i + 1]);
        }
        lemma_lines_before_first_header_dropped(lines.drop_first(), k - 1);
        assert(lines.drop_first().skip(k - 1) =~= lines.skip(k));
    } else {
        assert(lines.skip(0) =~= lines);
    }
}

/// A header line whose remainder holds no `": "` opens a message with an
/// empty sender and the full remainder as its body.
pub proof fn lemma_senderless_header(l: Seq<char>)
    requires
        line_is_header(l),
        !has_colon_space(header_rest(l)),
    ensures
        message_of_header(l).sender == Seq::<char>::empty(),
        message_of_header(l).message == header_rest(l),
{
    let rest = header_rest(l);
    lemma_find_colon_space(rest);
    if find_colon_space(rest) + 2 <= rest.len() {
        assert(has_colon_space(rest));
    }
}

/// Continuation lines with no header among them extend the open message one
/// by one, in order, and the end of input emits exactly that message.
proof fn lemma_parse_from_continuations(ls: Seq<Seq<char>>, m: MessageView)
    requires
        forall|i: int| 0 <= i < ls.len() ==> !line_is_header(ls[i]),
    ensures
        parse_from(ls, Some(m)) == seq![extend_all(m, ls)],
    decreases ls.len(),
{
    if ls.len() == 0 {
    } else {
        assert forall|i: int| 0 <= i < ls.drop_first().len() implies !line_is_header(
            ls.drop_first()[i],
        ) by {
            assert(ls.drop_first()[i] == ls[i + 1]);
        }
        lemma_parse_from_continuations(ls.drop_first(), append_line(m, ls[0]));
    }
}

/// A header followed only by continuation lines yields exactly one message:
/// the header's message with each continuation line appended to its body,
/// preceded by `'\n'`, in the original order (see [`extend_all`]).
pub proof fn lemma_multiline_body(h: Seq<char>, ls: Seq<Seq<char>>)
    requires
        line_is_header(h),
        forall|i: int| 0 <= i < ls.len() ==> !line_is_header(ls[i]),
    ensures
        spec_parse(seq![h] + ls) == seq![extend_all(message_of_header(h), ls)],
{
    let all = seq![h] + ls;
    assert(all[0] == h);
    assert(all.drop_first() =~= ls);
    lemma_parse_from_continuations(ls, message_of_header(h));
    assert(spec_parse(all) == emit(None) + parse_from(ls, Some(message_of_header(h))));
    assert(emit(None) + seq![extend_all(message_of_header(h), ls)] =~= seq![
        extend_all(message_of_header(h), ls),
    ]);
}

/// Header counting distributes over concatenation.
proof fn lemma_count_headers_append(a: Seq<Seq<char>>, b: Seq<Seq<char>>)
    ensures
        count_headers(a + b) == count_headers(a) + count_headers(b),
    decreases a.len(),
{
    if a.len() == 0 {
        assert(a + b =~= b);
    } else {
        assert((a + b)[0] == a[0]);
        assert((a + b).drop_first() =~= a.drop_first() + b);
        lemma_count_headers_append(a.drop_first(), b);
    }
}

/// A block of lines with no header among them contains no header.
proof fn lemma_count_headers_none(b: Seq<Seq<char>>)
    requires
        forall|i: int| 0 <= i < b.len() ==> !line_is_header(b[i]),
    ensures
        count_headers(b) == 0,
    decreases b.len(),
{
    if b.len() > 0 {
        assert forall|i: int| 0 <= i < b.drop_first().len() implies !line_is_header(
            b.drop_first()[i],
        ) by {
            assert(b.drop_first()[i] == b[i + 1]);
        }
        lemma_count_headers_none(b.drop_first());
    }
}

/// Input that ends without a further header line loses no message: trailing
/// continuation lines change no message count, so in particular the message
/// opened by the last header is still emitted.
pub proof fn lemma_last_message_kept(lines: Seq<Seq<char>>, tail: Seq<Seq<char>>)
    requires
        forall|i: int| 0 <= i < tail.len() ==> !line_is_header(tail[i]),
    ensures
        spec_parse(lines + tail).len() == spec_parse(lines).len(),
{
    lemma_count_headers_append(lines, tail);
    lemma_count_headers_none(tail);
    lemma_message_count(lines + tail);
    lemma_message_count(lines);
}

/// Appending headerless `tail` to the input keeps every message but the
/// last unchanged and extends the last one by `tail`, provided a message is
/// open or still to come.
proof fn lemma_parse_from_tail(lines: Seq<Seq<char>>, tail: Seq<Seq<char>>, cur: Option<
    MessageView,
>)
    requires
        forall|i: int| 0 <= i < tail.len() ==> !line_is_header(tail[i]),
        count_headers(lines) > 0 || cur is Some,
    ensures
        parse_from(lines, cur).len() > 0,
        parse_from(lines + tail, cur) == parse_from(lines, cur).drop_last().push(
            extend_all(parse_from(lines, cur).last(), tail),
        ),
    decreases lines.len(),
{
    lemma_parse_from_count(lines, cur);
    let out = parse_from(lines, cur);
    let outt = parse_from(lines + tail, cur);
    if lines.len() == 0 {
        let m = cur->Some_0;
        assert(lines + tail =~= tail);
        lemma_parse_from_continuations(tail, m);
        assert(outt =~= out.drop_last().push(extend_all(out.last(), tail)));
    } else {
        assert((lines + tail)[0] == lines[0]);
        assert((lines + tail).drop_first() =~= lines.drop_first() + tail);
        if line_is_header(lines[0]) {
            let opened = Some(message_of_header(lines[0]));
            lemma_parse_from_tail(lines.drop_first(), tail, opened);
            let rec = parse_from(lines.drop_first(), opened);
            let rect = parse_from(lines.drop_first() + tail, opened);
            assert(out == emit(cur) + rec);
            assert(outt == emit(cur) + rect);
            assert(out.last() == rec.last());
            assert(emit(cur) + rec.drop_last().push(extend_all(rec.last(), tail)) =~= (emit(cur)
                + rec).drop_last().push(extend_all(rec.last(), tail)));
        } else {
            match cur {
                Some(m) => {
                    lemma_parse_from_tail(lines.drop_first(), tail, Some(append_line(m, lines[0])));
                },
                None => {
                    assert(count_headers(lines.drop_first()) == count_headers(lines));
                    lemma_parse_from_tail(lines.drop_first(), tail, None);
                },
            }
        }
    }
}

/// Trailing continuation lines after the last header leave every earlier
/// message unchanged and only extend the last message's body, line by line,
/// in order: the last message is always included, with no trailing header
/// needed to close it.
pub proof fn lemma_trailing_lines_extend_last(lines: Seq<Seq<char>>, tail: Seq<Seq<char>>)
    requires
        forall|i: int| 0 <= i < tail.len() ==> !line_is_header(tail[i]),
        count_headers(lines) > 0,
    ensures
        spec_parse(lines).len() > 0,
        spec_parse(lines + tail) == spec_parse(lines).drop_last().push(
            extend_all(spec_parse(lines).last(), tail),
        ),
{
    lemma_parse_from_tail(lines, tail, None);
}

/// The date and time of a message as a header captured them: eight date
/// characters, `", "`, five time characters.
pub open spec fn wf_datetime(m: MessageView) -> bool {
    &&& m.date.len() == 8
    &&& m.datetime.len() == 15
    &&& m.datetime == m.date + seq![',', ' '] + m.datetime.subrange(10, 15)
}

/// A header line opens a message whose datetime is its date, `", "`, and its
/// time.
proof fn lemma_header_wf_datetime(l: Seq<char>)
    requires
        line_is_header(l),
    ensures
        wf_datetime(message_of_header(l)),
{
    let m = message_of_header(l);
    assert(m.datetime.subrange(10, 15) =~= m.datetime.subrange(10, 15));
    assert(m.datetime.subrange(10, 15) =~= l.subrange(10, 15));
    assert(m.datetime =~= m.date + seq![',', ' '] + m.datetime.subrange(10, 15));
}

/// Every message `parse_from` emits carries a well-formed datetime, given
/// that the open one does.
proof fn lemma_parse_from_datetime(lines: Seq<Seq<char>>, cur: Option<MessageView>)
    requires
        match cur {
            Some(m) => wf_datetime(m),
            None => true,
        },
    ensures
        forall|i: int|
            0 <= i < parse_from(lines, cur).len() ==> wf_datetime(
                #[trigger] parse_from(lines, cur)[i],
            ),
    decreases lines.len(),
{
    if lines.len() == 0 {
        assert forall|i: int| 0 <= i < parse_from(lines, cur).len() implies wf_datetime(
            #[trigger] parse_from(lines, cur)[i],
        ) by {
            assert(parse_from(lines, cur)[i] == emit(cur)[i]);
        }
    } else if line_is_header(lines[0]) {
        lemma_header_wf_datetime(lines[0]);
        lemma_parse_from_datetime(lines.drop_first(), Some(message_of_header(lines[0])));
        assert forall|i: int| 0 <= i < parse_from(lines, cur).len() implies wf_datetime(
            #[trigger] parse_from(lines, cur)[i],
        ) by {
            let rec = parse_from(lines.drop_first(), Some(message_of_header(lines[0])));
            if i >= emit(cur).len() {
                assert(parse_from(lines, cur)[i] == rec[i - emit(cur).len()]);
            } else {
                assert(parse_from(lines, cur)[i] == emit(cur)[i]);
            }
        }
    } else {
        match cur {
            Some(m) => {
                lemma_parse_from_datetime(lines.drop_first(), Some(append_line(m, lines[0])));
                assert forall|i: int| 0 <= i < parse_from(lines, cur).len() implies wf_datetime(
                    #[trigger] parse_from(lines, cur)[i],
                ) by {
                    let rec = parse_from(lines.drop_first(), Some(append_line(m, lines[0])));
                    assert(parse_from(lines, cur)[i] == rec[i]);
                }
            },
            None => {
                lemma_parse_from_datetime(lines.drop_first(), None);
                assert forall|i: int| 0 <= i < parse_from(lines, cur).len() implies wf_datetime(
                    #[trigger] parse_from(lines, cur)[i],
                ) by {
                    let rec = parse_from(lines.drop_first(), None);
                    assert(parse_from(lines, cur)[i] == rec[i]);
                }
            },
        }
    }
}

/// Every produced message's datetime is exactly `"{date}, {time}"` with the
/// captured date and time.
pub proof fn lemma_datetime_format(lines: Seq<Seq<char>>)
    ensures
        forall|i: int|
            0 <= i < spec_parse(lines).len() ==> wf_datetime(#[trigger] spec_parse(lines)[i]),
{
    lemma_parse_from_datetime(lines, None);
}

} // verus!
