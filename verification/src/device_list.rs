//! Reading the device list that the debug bridge prints.
//!
//! The listing is line-oriented text: a header line, then one line for each
//! device with its identifier and its status, separated by white space.
//! Only the devices whose status is `device` are ready.

use crate::text::{
    chars_of, is_whitespace, is_whitespace_char, rows, same_chars, slice_of, string_of,
};
use vstd::prelude::*;

verus! {

/// The number of characters of `s` before its first line feed.
pub open spec fn line_len(s: Seq<char>) -> int
    decreases s.len(),
{
    if s.len() == 0 || s[0] == '\n' {
        0
    } else {
        1 + line_len(s.skip(1))
    }
}

/// `line` without a carriage return at its end.
pub open spec fn strip_cr(line: Seq<char>) -> Seq<char> {
    if line.len() > 0 && line.last() == '\r' {
        line.drop_last()
    } else {
        line
    }
}

/// The lines of `s`. A line ends with a line feed, or with a carriage
/// return and a line feed, neither of which belongs to it; what follows the
/// last line feed is a line of its own unless it is empty.
pub open spec fn lines_spec(s: Seq<char>) -> Seq<Seq<char>>
    decreases s.len(),
{
    if s.len() == 0 {
        Seq::empty()
    } else {
        let k = line_len(s);
        if 0 <= k < s.len() {
            seq![strip_cr(s.take(k))] + lines_spec(s.skip(k + 1))
        } else {
            seq![s]
        }
    }
}

/// The number of characters of `s` before its first white space.
pub open spec fn word_len(s: Seq<char>) -> int
    decreases s.len(),
{
    if s.len() == 0 || is_whitespace(s[0]) {
        0
    } else {
        1 + word_len(s.skip(1))
    }
}

/// The fields of `s`: its longest runs of characters that are no white
/// space, in order.
pub open spec fn fields_spec(s: Seq<char>) -> Seq<Seq<char>>
    decreases s.len(),
{
    if s.len() == 0 {
        Seq::empty()
    } else if is_whitespace(s[0]) {
        fields_spec(s.skip(1))
    } else {
        let k = word_len(s);
        if 0 < k <= s.len() {
            seq![s.take(k)] + fields_spec(s.skip(k))
        } else {
            seq![s]
        }
    }
}

/// The status of a device that is ready.
pub open spec fn ready_status() -> Seq<char> {
    seq!['d', 'e', 'v', 'i', 'c', 'e']
}

/// The device that a line of the listing names: its first field, where the
/// second field says that the device is ready.
pub open spec fn device_of_line(line: Seq<char>) -> Option<Seq<char>> {
    let fields = fields_spec(line);
    if fields.len() >= 2 && fields[1] == ready_status() {
        Some(fields[0])
    } else {
        None
    }
}

/// The lines of a listing after its header.
pub open spec fn body_lines(output: Seq<char>) -> Seq<Seq<char>> {
    let lines = lines_spec(output);
    if lines.len() > 0 {
        lines.skip(1)
    } else {
        lines
    }
}

/// The ready devices that a listing names, in the order of its lines.
pub open spec fn device_list_spec(output: Seq<char>) -> Seq<Seq<char>> {
    body_lines(output).filter_map(|line: Seq<char>| device_of_line(line))
}

/// The first line feed of `s` is where a scan from the start finds it.
pub proof fn lemma_line_len(s: Seq<char>, k: int)
    requires
        0 <= k <= s.len(),
        forall|j: int| 0 <= j < k ==> s[j] != '\n',
        k < s.len() ==> s[k] == '\n',
    ensures
        line_len(s) == k,
    decreases k,
{
    if k > 0 {
        let rest = s.skip(1);
        assert forall|j: int| 0 <= j < k - 1 implies rest[j] != '\n' by {
            assert(rest[j] == s[j + 1]);
        }
        if k < s.len() {
            assert(rest[k - 1] == s[k]);
        }
        lemma_line_len(rest, k - 1);
    }
}

/// The first white space of `s` is where a scan from the start finds it.
pub proof fn lemma_word_len(s: Seq<char>, k: int)
    requires
        0 <= k <= s.len(),
        forall|j: int| 0 <= j < k ==> !is_whitespace(#[trigger] s[j]),
        k < s.len() ==> is_whitespace(s[k]),
    ensures
        word_len(s) == k,
    decreases k,
{
    if k > 0 {
        let rest = s.skip(1);
        assert(!is_whitespace(s[0]));
        assert forall|j: int| 0 <= j < k - 1 implies !is_whitespace(#[trigger] rest[j]) by {
            assert(rest[j] == s[j + 1]);
        }
        if k < s.len() {
            assert(rest[k - 1] == s[k]);
        }
        lemma_word_len(rest, k - 1);
    }
}

/// White space before the fields does not count.
pub proof fn lemma_fields_skip_space(s: Seq<char>, k: int)
    requires
        0 <= k <= s.len(),
        forall|j: int| 0 <= j < k ==> is_whitespace(#[trigger] s[j]),
    ensures
        fields_spec(s) == fields_spec(s.skip(k)),
    decreases k,
{
    if k == 0 {
        assert(s.skip(0) =~= s);
    } else {
        assert(is_whitespace(s[0]));
        let rest = s.skip(1);
        assert forall|j: int| 0 <= j < k - 1 implies is_whitespace(#[trigger] rest[j]) by {
            assert(rest[j] == s[j + 1]);
        }
        lemma_fields_skip_space(rest, k - 1);
        assert(rest.skip(k - 1) =~= s.skip(k));
    }
}

/// The lines of `s`.
pub fn split_lines(s: &Vec<char>) -> (out: Vec<Vec<char>>)
    ensures
        rows(out@) == lines_spec(s@),
{
    let mut out: Vec<Vec<char>> = Vec::new();
    let mut pos: usize = 0;
    proof {
        assert(s@.skip(0) =~= s@);
        assert(rows(out@) + lines_spec(s@) =~= lines_spec(s@));
    }
    while pos < s.len()
        invariant
            pos <= s.len(),
            lines_spec(s@) == rows(out@) + lines_spec(s@.skip(pos as int)),
        decreases s.len() - pos,
    {
        let ghost rest = s@.skip(pos as int);
        let ghost done = rows(out@);
        let mut end: usize = pos;
        while end < s.len() && s[end] != '\n'
            invariant
                pos <= end <= s.len(),
                forall|j: int| pos <= j < end ==> s@[j] != '\n',
            decreases s.len() - end,
        {
            end += 1;
        }
        proof {
            assert forall|j: int| 0 <= j < end - pos implies rest[j] != '\n' by {
                assert(rest[j] == s@[pos + j]);
            }
            if end < s.len() {
                assert(rest[end - pos] == s@[end as int]);
            }
            lemma_line_len(rest, end - pos);
        }
        if end == s.len() {
            let line = slice_of(s, pos, end);
            out.push(line);
            proof {
                assert(line@ =~= rest);
                assert(rows(out@) =~= done + seq![rest]);
                assert(s@.skip(s.len() as int) =~= Seq::<char>::empty());
                assert(lines_spec(rest) =~= seq![rest]);
            }
            pos = end;
        } else {
            let stop = if end > pos && s[end - 1] == '\r' {
                end - 1
            } else {
                end
            };
            let line = slice_of(s, pos, stop);
            out.push(line);
            proof {
                let whole = rest.take(end - pos);
                if end > pos {
                    assert(whole.last() == s@[end - 1]);
                }
                assert(line@ =~= strip_cr(whole));
                assert(rows(out@) =~= done + seq![strip_cr(whole)]);
                assert(rest.skip(end - pos + 1) =~= s@.skip(end + 1));
            }
            pos = end + 1;
        }
    }
    proof {
        assert(lines_spec(s@.skip(pos as int)) =~= Seq::<Seq<char>>::empty());
    }
    out
}

/// The fields of `s`.
pub fn split_fields(s: &Vec<char>) -> (out: Vec<Vec<char>>)
    ensures
        rows(out@) == fields_spec(s@),
{
    let mut out: Vec<Vec<char>> = Vec::new();
    let mut pos: usize = 0;
    proof {
        assert(s@.skip(0) =~= s@);
        assert(rows(out@) + fields_spec(s@) =~= fields_spec(s@));
    }
    while pos < s.len()
        invariant
            pos <= s.len(),
            fields_spec(s@) == rows(out@) + fields_spec(s@.skip(pos as int)),
        decreases s.len() - pos,
    {
        let ghost done = rows(out@);
        let mut start: usize = pos;
        while start < s.len() && is_whitespace_char(s[start])
            invariant
                pos <= start <= s.len(),
                forall|j: int| pos <= j < start ==> is_whitespace(#[trigger] s@[j]),
            decreases s.len() - start,
        {
            start += 1;
        }
        proof {
            let from = s@.skip(pos as int);
            assert forall|j: int| 0 <= j < start - pos implies is_whitespace(#[trigger] from[j]) by {
                assert(from[j] == s@[pos + j]);
            }
            lemma_fields_skip_space(from, start - pos);
            assert(from.skip(start - pos) =~= s@.skip(start as int));
        }
        if start == s.len() {
            pos = start;
        } else {
            let ghost rest = s@.skip(start as int);
            let mut end: usize = start;
            while end < s.len() && !is_whitespace_char(s[end])
                invariant
                    start <= end <= s.len(),
                    forall|j: int| start <= j < end ==> !is_whitespace(#[trigger] s@[j]),
                decreases s.len() - end,
            {
                end += 1;
            }
            let field = slice_of(s, start, end);
            out.push(field);
            proof {
                assert(rest[0] == s@[start as int]);
                assert forall|j: int| 0 <= j < end - start implies !is_whitespace(
                    #[trigger] rest[j],
                ) by {
                    assert(rest[j] == s@[start + j]);
                }
                if end < s.len() {
                    assert(rest[end - start] == s@[end as int]);
                }
                lemma_word_len(rest, end - start);
                assert(field@ =~= rest.take(end - start));
                assert(rows(out@) =~= done + seq![rest.take(end - start)]);
                assert(rest.skip(end - start) =~= s@.skip(end as int));
            }
            pos = end;
        }
    }
    proof {
        assert(fields_spec(s@.skip(pos as int)) =~= Seq::<Seq<char>>::empty());
    }
    out
}

/// The device that a line of the listing names, if it names one that is
/// ready.
pub fn device_in_line(line: &Vec<char>) -> (out: Option<Vec<char>>)
    ensures
        match out {
            Some(device) => device_of_line(line@) == Some(device@),
            None => device_of_line(line@) is None,
        },
{
    let mut fields = split_fields(line);
    if fields.len() < 2 {
        return None;
    }
    let mut ready: Vec<char> = Vec::new();
    ready.push('d');
    ready.push('e');
    ready.push('v');
    ready.push('i');
    ready.push('c');
    ready.push('e');
    proof {
        assert(ready@ =~= ready_status());
        assert(rows(fields@)[1] == fields@[1]@);
        assert(rows(fields@)[0] == fields@[0]@);
    }
    if same_chars(&fields[1], &ready) {
        Some(fields.swap_remove(0))
    } else {
        None
    }
}

/// The ready devices that the listing `output` names, in the order of its
/// lines. The first line is the header and names none.
pub fn parse_device_list(output: &str) -> (out: Vec<String>)
    ensures
        out.deep_view() == device_list_spec(output@),
{
    let chars = chars_of(output);
    let lines = split_lines(&chars);
    let ghost pick = |line: Seq<char>| device_of_line(line);
    let ghost body = body_lines(output@);
    let mut out: Vec<String> = Vec::new();
    let mut i: usize = 1;
    proof {
        assert(body.take(0).filter_map(pick) =~= Seq::<Seq<char>>::empty());
        assert(out.deep_view() =~= Seq::<Seq<char>>::empty());
    }
    while i < lines.len()
        invariant
            1 <= i,
            lines.len() > 0 ==> i <= lines.len(),
            rows(lines@) == lines_spec(output@),
            body == body_lines(output@),
            pick == |line: Seq<char>| device_of_line(line),
            lines.len() > 0 ==> out.deep_view() == body.take(i - 1).filter_map(pick),
            lines.len() == 0 ==> out.deep_view() == Seq::<Seq<char>>::empty(),
        decreases lines.len() - i,
    {
        let ghost before = out.deep_view();
        proof {
            body.lemma_filter_map_take_succ(pick, i - 1);
            assert(body[i - 1] == rows(lines@)[i as int]);
            assert(rows(lines@)[i as int] == lines@[i as int]@);
        }
        match device_in_line(&lines[i]) {
            Some(device) => {
                let name = string_of(&device);
                out.push(name);
                assert(out.deep_view() =~= before + seq![device@]);
            },
            None => {},
        }
        i += 1;
    }
    proof {
        assert(rows(lines@).len() == lines.len());
        if lines.len() > 0 {
            assert(body.take(body.len() as int) =~= body);
        } else {
            assert(body.filter_map(pick) =~= Seq::<Seq<char>>::empty());
        }
    }
    out
}

} // verus!
