//! Recognizing header lines and building the message they open.

use vstd::prelude::*;

use crate::Message;
use crate::model::{
    find_colon_space, header_date, header_time, is_ascii_digit, lemma_find_colon_space,
    line_is_header, message_of_header,
};

verus! {

/// `c` is one of the ten ASCII digits.
fn is_digit_char(c: char) -> (r: bool)
    ensures
        r == is_ascii_digit(c),
{
    let u = c as u32;
    48 <= u && u <= 57
}

/// Does `l` start with the `DD.MM.YY, HH:MM - ` header prefix?
pub fn is_header_line(l: &str) -> (r: bool)
    ensures
        r == line_is_header(l@),
{
    let n = l.unicode_len();
    if n < 18 {
        return false;
    }
    is_digit_char(l.get_char(0)) && is_digit_char(l.get_char(1)) && l.get_char(2) == '.'
        && is_digit_char(l.get_char(3)) && is_digit_char(l.get_char(4)) && l.get_char(5) == '.'
        && is_digit_char(l.get_char(6)) && is_digit_char(l.get_char(7)) && l.get_char(8) == ','
        && l.get_char(9) == ' ' && is_digit_char(l.get_char(10)) && is_digit_char(l.get_char(11))
        && l.get_char(12) == ':' && is_digit_char(l.get_char(13)) && is_digit_char(l.get_char(14))
        && l.get_char(15) == ' ' && l.get_char(16) == '-' && l.get_char(17) == ' '
}

/// Position of the first `": "` in `r`, or `r`'s length if there is none.
fn find_split(r: &str) -> (res: usize)
    ensures
        res as int == find_colon_space(r@),
        res <= r@.len(),
{
    let n = r.unicode_len();
    let mut i: usize = 0;
    proof {
        assert(r@.skip(0) =~= r@);
    }
    while i + 1 < n
        invariant
            n == r@.len(),
            i == 0 || i + 1 <= n,
            find_colon_space(r@) == i + find_colon_space(r@.skip(i as int)),
        decreases n - i,
    {
        let c1 = r.get_char(i);
        let c2 = r.get_char(i + 1);
        if c1 == ':' && c2 == ' ' {
            proof {
                let t = r@.skip(i as int);
                assert(t.len() >= 2);
                assert(t[0] == r@[i as int]);
                assert(t[1] == r@[i as int + 1]);
                assert(find_colon_space(t) == 0);
            }
            return i;
        }
        proof {
            let t = r@.skip(i as int);
            assert(t.len() >= 2);
            assert(t[0] == r@[i as int]);
            assert(t[1] == r@[i as int + 1]);
            assert(t.drop_first() =~= r@.skip(i as int + 1));
            assert(find_colon_space(t) == 1 + find_colon_space(r@.skip(i as int + 1)));
        }
        i = i + 1;
    }
    proof {
        let t = r@.skip(i as int);
        assert(t.len() < 2);
        assert(find_colon_space(t) == t.len());
        assert(find_colon_space(r@) == n);
    }
    n
}

/// Build the message that header line `l` opens: date and time from their
/// fixed positions, the remainder split at its first `": "` into sender and
/// body, or taken whole as a senderless body when it has no `": "`.
pub fn parse_header(l: &str) -> (m: Message)
    requires
        line_is_header(l@),
    ensures
        m@ == message_of_header(l@),
{
    let n = l.unicode_len();
    let date = l.substring_char(0, 8);
    let time = l.substring_char(10, 15);
    let rest = l.substring_char(18, n);
    let mut datetime = date.to_owned();
    datetime.append(", ");
    datetime.append(time);
    proof {
        reveal_strlit(", ");
        assert(", "@ =~= seq![',', ' ']);
        assert(datetime@ =~= header_date(l@) + seq![',', ' '] + header_time(l@));
    }
    let rn = rest.unicode_len();
    let split = find_split(rest);
    proof {
        lemma_find_colon_space(rest@);
    }
    if rn >= 2 && split <= rn - 2 {
        let sender = rest.substring_char(0, split);
        let body = rest.substring_char(split + 2, rn);
        Message {
            date: date.to_owned(),
            datetime,
            sender: sender.to_owned(),
            message: body.to_owned(),
        }
    } else {
        proof {
            assert(find_colon_space(rest@) + 2 > rest@.len());
        }
        Message {
            date: date.to_owned(),
            datetime,
            sender: String::new(),
            message: rest.to_owned(),
        }
    }
}

} // verus!
