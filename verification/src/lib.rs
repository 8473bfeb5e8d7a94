//! Parser for exported chat-log text files.
//!
//! The input is the full text of an exported chat, one message header per
//! line in the fixed shape `DD.MM.YY, HH:MM - rest`.  Lines that do not
//! match that shape continue the body of the message opened by the most
//! recent header; lines before the first header are dropped.  The parser is
//! total: every string input yields a sequence of [`Message`] records.

use vstd::prelude::*;

pub mod header;
pub mod lines;
pub mod model;
pub mod props;

use crate::model::MessageView;

verus! {

/// One parsed chat entry.  All four fields hold the source text verbatim.
#[derive(Debug, Clone, PartialEq, Eq)]
pub struct Message {
    /// Calendar date exactly as written in the header, `DD.MM.YY`.
    pub date: String,
    /// The date and time combined: `"{date}, {time}"`.
    pub datetime: String,
    /// Display name before the first `": "` of the header remainder;
    /// empty for system notices that carry no sender.
    pub sender: String,
    /// Message body; continuation lines are embedded with `'\n'`.
    pub message: String,
}

impl View for Message {
    type V = MessageView;

    open spec fn view(&self) -> MessageView {
        MessageView {
            date: self.date@,
            datetime: self.datetime@,
            sender: self.sender@,
            message: self.message@,
        }
    }
}

/// The views of a sequence of messages.
pub open spec fn message_views(v: Seq<Message>) -> Seq<MessageView> {
    v.map_values(|m: Message| m@)
}

/// The view of the message currently open, if any.
pub open spec fn current_view(c: Option<Message>) -> Option<MessageView> {
    match c {
        Some(m) => Some(m@),
        None => None,
    }
}

/// Parse the full text of an exported chat into its messages.
///
/// The result is exactly the parse of the input's lines: each header line
/// opens one message, every other line continues the message opened by the
/// most recent header (and is dropped when no header came before), and the
/// end of the input closes the message still open.
pub fn parsetxt(content: String) -> (res: Vec<Message>)
    ensures
        message_views(res@) == model::spec_parse(model::spec_lines(content@)),
{
    let lines = lines::split_lines(content.as_str());
    let ghost lv = lines::str_views(lines@);
    let mut messages: Vec<Message> = Vec::new();
    let mut current: Option<Message> = None;
    let mut i: usize = 0;
    proof {
        assert(lv.skip(0) =~= lv);
        assert(message_views(messages@) + model::spec_parse(lv) =~= model::spec_parse(lv));
    }
    while i < lines.len()
        invariant
            lv == lines::str_views(lines@),
            lv == model::spec_lines(content@),
            i <= lines.len(),
            lines.len() == lv.len(),
            message_views(messages@) + model::parse_from(lv.skip(i as int), current_view(current))
                == model::spec_parse(lv),
        decreases lines.len() - i,
    {
        let line = lines[i];
        proof {
            assert(lv[i as int] == line@);
            assert(lv.skip(i as int)[0] == lv[i as int]);
            assert(lv.skip(i as int).drop_first() =~= lv.skip(i as int + 1));
        }
        if header::is_header_line(line) {
            let ghost prior = message_views(messages@);
            let ghost opened = model::message_of_header(line@);
            match current {
                Some(m) => {
                    messages.push(m);
                    proof {
                        assert(message_views(messages@) =~= prior.push(m@));
                        assert(prior + (seq![m@] + model::parse_from(
                            lv.skip(i as int + 1),
                            Some(opened),
                        )) =~= message_views(messages@) + model::parse_from(
                            lv.skip(i as int + 1),
                            Some(opened),
                        ));
                    }
                },
                None => {
                    proof {
                        assert(model::emit(None) + model::parse_from(
                            lv.skip(i as int + 1),
                            Some(opened),
                        ) =~= model::parse_from(lv.skip(i as int + 1), Some(opened)));
                    }
                },
            }
            current = Some(header::parse_header(line));
        } else {
            match current {
                Some(mut m) => {
                    let ghost before = m@;
                    m.message.append("\n");
                    m.message.append(line);
                    proof {
                        reveal_strlit("\n");
                        assert("\n"@ =~= seq!['\n']);
                        assert(m.message@ == before.message + seq!['\n'] + line@);
                        assert(m@ == model::append_line(before, line@));
                    }
                    current = Some(m);
                },
                None => {
                    current = None;
                },
            }
        }
        i = i + 1;
    }
    proof {
        assert(lv.skip(i as int) =~= Seq::<Seq<char>>::empty());
    }
    match current {
        Some(m) => {
            let ghost prior = message_views(messages@);
            messages.push(m);
            proof {
                assert(message_views(messages@) =~= prior.push(m@));
                assert(prior + seq![m@] =~= message_views(messages@));
            }
        },
        None => {
            proof {
                assert(message_views(messages@) + Seq::<MessageView>::empty() =~= message_views(
                    messages@,
                ));
            }
        },
    }
    messages
}

} // verus!
