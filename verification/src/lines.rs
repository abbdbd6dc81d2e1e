//! Splitting the raw input document into its lines: lines end at `\n` or
//! `\r\n`, the final line ending is optional, and a final empty segment after
//! a trailing newline yields no line.

use vstd::prelude::*;
use vstd::string::StrSliceExecFns;

verus! {

/// The first index at or after `k` holding a newline, or the text's length.
pub open spec fn line_break(s: Seq<char>, k: int) -> int
    decreases s.len() - k,
{
    if !(0 <= k < s.len()) {
        s.len() as int
    } else if s[k] == '\n' {
        k
    } else {
        line_break(s, k + 1)
    }
}

pub proof fn lemma_line_break(s: Seq<char>, k: int)
    requires
        0 <= k <= s.len(),
    ensures
        k <= line_break(s, k) <= s.len(),
        line_break(s, k) < s.len() ==> s[line_break(s, k)] == '\n',
        forall|t: int| k <= t < line_break(s, k) ==> s[t] != '\n',
    decreases s.len() - k,
{
    if k < s.len() && s[k] != '\n' {
        lemma_line_break(s, k + 1);
    }
}

/// A line with its carriage return stripped, where one ended it.
pub open spec fn strip_cr(l: Seq<char>) -> Seq<char> {
    if l.len() > 0 && l.last() == '\r' {
        l.drop_last()
    } else {
        l
    }
}

/// The lines of the text from index `k` on.
pub open spec fn split_from(s: Seq<char>, k: int) -> Seq<Seq<char>>
    decreases s.len() - k,
    via split_from_decreases
{
    if !(0 <= k < s.len()) {
        Seq::empty()
    } else {
        let b = line_break(s, k);
        if b == s.len() {
            seq![s.skip(k)]
        } else {
            seq![strip_cr(s.subrange(k, b))] + split_from(s, b + 1)
        }
    }
}

#[via_fn]
proof fn split_from_decreases(s: Seq<char>, k: int) {
    if 0 <= k < s.len() {
        lemma_line_break(s, k);
    }
}

/// The lines of a whole text.
pub open spec fn split_lines_spec(s: Seq<char>) -> Seq<Seq<char>> {
    split_from(s, 0)
}

/// There is never more than one line per character, plus one.
pub proof fn lemma_split_lines_count(s: Seq<char>)
    ensures
        split_lines_spec(s).len() <= s.len() + 1,
{
    lemma_split_count_from(s, 0);
}

proof fn lemma_split_count_from(s: Seq<char>, k: int)
    requires
        0 <= k <= s.len(),
    ensures
        split_from(s, k).len() <= s.len() - k + 1,
    decreases s.len() - k,
{
    if 0 <= k < s.len() {
        lemma_line_break(s, k);
        let b = line_break(s, k);
        if b < s.len() {
            lemma_split_count_from(s, b + 1);
        }
    }
}

/// Splits the input document into lines.
pub fn split_lines(text: &str) -> (r: Vec<String>)
    ensures
        r.deep_view() == split_lines_spec(text@),
{
    let ghost tv = text@;
    let n = text.unicode_len();
    let mut out: Vec<String> = Vec::new();
    let mut start: usize = 0;
    while start < n
        invariant
            n == tv.len(),
            text@ == tv,
            0 <= start <= n,
            split_from(tv, 0) == out.deep_view() + split_from(tv, start as int),
        decreases n - start,
    {
        let ghost out0 = out.deep_view();
        let mut b = start;
        while b < n && text.get_char(b) != '\n'
            invariant
                n == tv.len(),
                text@ == tv,
                start <= b <= n,
                line_break(tv, start as int) == line_break(tv, b as int),
            decreases n - b,
        {
            b = b + 1;
        }
        assert(b as int == line_break(tv, start as int));
        if b == n {
            let piece = text.substring_char(start, n).to_owned();
            out.push(piece);
            proof {
                assert(piece@ =~= tv.skip(start as int));
                assert(out.deep_view() =~= out0 + split_from(tv, start as int));
                assert(split_from(tv, n as int) =~= Seq::<Seq<char>>::empty());
                assert(split_from(tv, 0) =~= out.deep_view() + split_from(tv, n as int));
            }
            start = n;
        } else {
            let mut endx = b;
            if b > start && text.get_char(b - 1) == '\r' {
                endx = b - 1;
            }
            let piece = text.substring_char(start, endx).to_owned();
            out.push(piece);
            proof {
                let head = tv.subrange(start as int, b as int);
                assert(piece@ =~= strip_cr(head));
                assert(out.deep_view() =~= out0 + seq![strip_cr(head)]);
                assert(split_from(tv, 0) =~= out.deep_view() + split_from(tv, b as int + 1));
            }
            start = b + 1;
        }
    }
    proof {
        assert(split_from(tv, start as int) =~= Seq::<Seq<char>>::empty());
        assert(out.deep_view() =~= split_lines_spec(tv));
    }
    out
}

} // verus!
