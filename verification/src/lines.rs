//! Splitting the raw input into lines, verified against [`spec_lines`].

use vstd::prelude::*;

use crate::model::{lemma_find_newline_at, spec_lines, strip_cr};

verus! {

/// The views of a sequence of string slices.
pub open spec fn str_views(v: Seq<&str>) -> Seq<Seq<char>> {
    v.map_values(|l: &str| l@)
}

/// Split `s` into its lines: each `'\n'` ends a line, an immediately
/// preceding `'\r'` goes with it, and the final line needs no terminator.
pub fn split_lines<'a>(s: &'a str) -> (lines: Vec<&'a str>)
    ensures
        str_views(lines@) == spec_lines(s@),
{
    let n = s.unicode_len();
    let mut lines: Vec<&'a str> = Vec::new();
    let mut start: usize = 0;
    let mut i: usize = 0;
    proof {
        assert(s@.skip(0) =~= s@);
        assert(str_views(lines@) + spec_lines(s@) =~= spec_lines(s@));
    }
    while i < n
        invariant
            n == s@.len(),
            start <= i <= n,
            spec_lines(s@) == str_views(lines@) + spec_lines(s@.skip(start as int)),
            forall|j: int| start <= j < i ==> s@[j] != '\n',
        decreases n - i,
    {
        let c = s.get_char(i);
        if c == '\n' {
            let end = if i > start && s.get_char(i - 1) == '\r' {
                i - 1
            } else {
                i
            };
            let line = s.substring_char(start, end);
            proof {
                let t = s@.skip(start as int);
                assert forall|j: int| 0 <= j < i - start implies t[j] != '\n' by {
                    assert(t[j] == s@[start + j]);
                }
                assert(t[i - start] == s@[i as int]);
                lemma_find_newline_at(t, i - start);
                assert(t.take(i - start) =~= s@.subrange(start as int, i as int));
                assert(strip_cr(t.take(i - start)) =~= line@);
                assert(t.skip(i - start + 1) =~= s@.skip(i as int + 1));
                assert(spec_lines(t) == seq![line@] + spec_lines(s@.skip(i as int + 1)));
                assert(str_views(lines@.push(line)) =~= str_views(lines@).push(line@));
                assert(str_views(lines@) + (seq![line@] + spec_lines(s@.skip(i as int + 1)))
                    =~= str_views(lines@.push(line)) + spec_lines(s@.skip(i as int + 1)));
            }
            lines.push(line);
            start = i + 1;
        }
        i = i + 1;
    }
    if start < n {
        let line = s.substring_char(start, n);
        proof {
            let t = s@.skip(start as int);
            assert forall|j: int| 0 <= j < t.len() implies t[j] != '\n' by {
                assert(t[j] == s@[start + j]);
            }
            lemma_find_newline_at(t, t.len() as int);
            assert(t =~= line@);
            assert(spec_lines(t) == seq![line@]);
            assert(str_views(lines@.push(line)) =~= str_views(lines@).push(line@));
            assert(str_views(lines@) + seq![line@] =~= str_views(lines@.push(line)));
        }
        lines.push(line);
    } else {
        proof {
            assert(s@.skip(start as int) =~= Seq::<char>::empty());
            assert(spec_lines(s@.skip(start as int)) == Seq::<Seq<char>>::empty());
            assert(str_views(lines@) + Seq::<Seq<char>>::empty() =~= str_views(lines@));
        }
    }
    lines
}

} // verus!
