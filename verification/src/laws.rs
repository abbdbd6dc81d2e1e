//! Properties of the annotation parser: how many spans come back and in what
//! order, when a parse is owed success, how width reuse fails, and that
//! stripping annotations is idempotent.

use vstd::prelude::*;

use crate::grammar;
use crate::grammar::AnnV;
use crate::parser::LifetimeV;
use crate::parser::ParseErrV;
use crate::parser::ParseSt;
use crate::parser::lemma_error_stays;
use crate::parser::parse_spec;
use crate::parser::parse_upto;

verus! {

/// The annotation carried by the line at row `r`, if any.
pub open spec fn ann_at_row(lines: Seq<Seq<char>>, r: int) -> Option<AnnV> {
    grammar::line_ann(lines[r])
}

/// How many annotation lines of width `w` stand among the first `i` rows.
pub open spec fn ann_count(lines: Seq<Seq<char>>, w: nat, i: int) -> nat
    decreases i,
{
    if i <= 0 {
        0
    } else {
        ann_count(lines, w, i - 1) + (match ann_at_row(lines, i - 1) {
            Some(a) => if a.width == w {
                1 as nat
            } else {
                0 as nat
            },
            None => 0 as nat,
        })
    }
}

/// How many CLOSE annotation lines stand among the first `i` rows.
pub open spec fn close_count(lines: Seq<Seq<char>>, i: int) -> nat
    decreases i,
{
    if i <= 0 {
        0
    } else {
        close_count(lines, i - 1) + (match ann_at_row(lines, i - 1) {
            Some(a) => if a.is_open {
                0 as nat
            } else {
                1 as nat
            },
            None => 0 as nat,
        })
    }
}

/// There is at most one CLOSE line per row.
pub proof fn lemma_close_count_bound(lines: Seq<Seq<char>>, i: int)
    requires
        0 <= i <= lines.len(),
    ensures
        close_count(lines, i) <= i,
    decreases i,
{
    if i > 0 {
        lemma_close_count_bound(lines, i - 1);
    }
}

/// The rows of the CLOSE annotation lines among the first `i` rows, in order.
pub open spec fn close_rows(lines: Seq<Seq<char>>, i: int) -> Seq<nat>
    decreases i,
{
    if i <= 0 {
        Seq::empty()
    } else {
        let rest = close_rows(lines, i - 1);
        match ann_at_row(lines, i - 1) {
            Some(a) => if a.is_open {
                rest
            } else {
                rest.push((i - 1) as nat)
            },
            None => rest,
        }
    }
}

/// What the parser leaves of one line: its code prefix when it carries an
/// annotation, the line itself otherwise.
pub open spec fn cleaned_line(line: Seq<char>) -> Seq<char> {
    match grammar::line_ann(line) {
        Some(a) => a.prefix,
        None => line,
    }
}

/// The annotations of width `w` alternate OPEN, CLOSE, OPEN, ... in row
/// order: each one is an OPEN exactly when an even number of width-`w`
/// annotations stand before it.
pub open spec fn width_alternates(lines: Seq<Seq<char>>, w: nat) -> bool {
    forall|r: int|
        0 <= r < lines.len() && (#[trigger] ann_at_row(lines, r)) is Some && ann_at_row(
            lines,
            r,
        )->Some_0.width == w ==> (ann_at_row(lines, r)->Some_0.is_open <==> ann_count(lines, w, r)
            % 2 == 0)
}

/// What the open-span table records for width `w` after `i` rows: the last
/// width-`w` annotation row, an OPEN, with its label.
pub open spec fn open_entry_ok(
    lines: Seq<Seq<char>>,
    i: int,
    w: nat,
    e: (nat, Seq<char>),
) -> bool {
    &&& e.0 < i
    &&& ann_at_row(lines, e.0 as int) is Some
    &&& ann_at_row(lines, e.0 as int)->Some_0.width == w
    &&& ann_at_row(lines, e.0 as int)->Some_0.is_open
    &&& ann_at_row(lines, e.0 as int)->Some_0.label == e.1
    &&& forall|q: int|
        e.0 < q < i ==> !((#[trigger] ann_at_row(lines, q)) is Some && ann_at_row(
            lines,
            q,
        )->Some_0.width == w)
}

/// The cleaned buffer after `i` rows: one line per input row, each stripped
/// to its code prefix exactly when it carried an annotation.
proof fn lemma_cleaned_shape(lines: Seq<Seq<char>>, i: int)
    requires
        0 <= i <= lines.len(),
        parse_upto(lines, i) is Ok,
    ensures
        parse_upto(lines, i)->Ok_0.cleaned.len() == i,
        forall|r: int|
            0 <= r < i ==> parse_upto(lines, i)->Ok_0.cleaned[r] == cleaned_line(
                #[trigger] lines[r],
            ),
    decreases i,
{
    if i > 0 {
        lemma_cleaned_shape(lines, i - 1);
    }
}

/// The open-span table after `i` error-free rows: a width is open exactly
/// when an odd number of its annotations came, the recorded row is the last
/// of them and is an OPEN, and the rows already read alternate per width.
proof fn lemma_parse_state(lines: Seq<Seq<char>>, i: int)
    requires
        0 <= i <= lines.len(),
        parse_upto(lines, i) is Ok,
    ensures
        forall|w: nat|
            #[trigger] parse_upto(lines, i)->Ok_0.open_spans.dom().contains(w) <==> ann_count(
                lines,
                w,
                i,
            ) % 2 == 1,
        forall|w: nat|
            #[trigger] parse_upto(lines, i)->Ok_0.open_spans.dom().contains(w) ==> open_entry_ok(
                lines,
                i,
                w,
                parse_upto(lines, i)->Ok_0.open_spans[w],
            ),
        forall|r: int|
            0 <= r < i && (#[trigger] ann_at_row(lines, r)) is Some ==> (ann_at_row(
                lines,
                r,
            )->Some_0.is_open <==> ann_count(lines, ann_at_row(lines, r)->Some_0.width, r) % 2
                == 0),
    decreases i,
{
    if i > 0 {
        lemma_parse_state(lines, i - 1);
        let prev = parse_upto(lines, i - 1)->Ok_0;
        let st = parse_upto(lines, i)->Ok_0;
        match ann_at_row(lines, i - 1) {
            None => {
                assert(st.open_spans == prev.open_spans);
                assert forall|w: nat| true implies ann_count(lines, w, i) == ann_count(
                    lines,
                    w,
                    i - 1,
                ) by {}
            },
            Some(a) => {
                assert forall|w: nat| w != a.width implies ann_count(lines, w, i) == ann_count(
                    lines,
                    w,
                    i - 1,
                ) by {}
                assert(ann_count(lines, a.width, i) == ann_count(lines, a.width, i - 1) + 1);
                if a.is_open {
                    assert(!prev.open_spans.dom().contains(a.width));
                    assert(st.open_spans == prev.open_spans.insert(
                        a.width,
                        ((i - 1) as nat, a.label),
                    ));
                    assert(open_entry_ok(lines, i, a.width, st.open_spans[a.width]));
                    assert forall|w: nat|
                        w != a.width && #[trigger] st.open_spans.dom().contains(
                            w,
                        ) implies open_entry_ok(lines, i, w, st.open_spans[w]) by {
                        assert(open_entry_ok(lines, i - 1, w, prev.open_spans[w]));
                    }
                } else {
                    assert(prev.open_spans.dom().contains(a.width));
                    assert(st.open_spans == prev.open_spans.remove(a.width));
                    assert forall|w: nat|
                        #[trigger] st.open_spans.dom().contains(w) implies open_entry_ok(
                        lines,
                        i,
                        w,
                        st.open_spans[w],
                    ) by {
                        assert(open_entry_ok(lines, i - 1, w, prev.open_spans[w]));
                    }
                }
            },
        }
    }
}

/// The completed spans after `i` error-free rows: one per CLOSE line, ended
/// at exactly the CLOSE rows in row order, each begun strictly earlier.
proof fn lemma_done_shape(lines: Seq<Seq<char>>, i: int)
    requires
        0 <= i <= lines.len(),
        parse_upto(lines, i) is Ok,
    ensures
        parse_upto(lines, i)->Ok_0.done.len() == close_count(lines, i),
        close_rows(lines, i).len() == close_count(lines, i),
        forall|k: int|
            0 <= k < close_count(lines, i) ==> {
                let lt = #[trigger] parse_upto(lines, i)->Ok_0.done[k];
                lt.ending_line == close_rows(lines, i)[k] && lt.starting_line < lt.ending_line
                    && lt.ending_line < i
            },
    decreases i,
{
    if i > 0 {
        lemma_done_shape(lines, i - 1);
        let prev = parse_upto(lines, i - 1)->Ok_0;
        match ann_at_row(lines, i - 1) {
            None => {},
            Some(a) => {
                if !a.is_open {
                    lemma_parse_state(lines, i - 1);
                    assert(open_entry_ok(lines, i - 1, a.width, prev.open_spans[a.width]));
                }
            },
        }
    }
}

/// With `N` correctly paired annotation lines the parser returns exactly `N`
/// spans — one per CLOSE line — and the cleaned buffer has exactly as many
/// lines as the input.
pub proof fn lemma_parse_counts(lines: Seq<Seq<char>>)
    requires
        parse_spec(lines) is Ok,
    ensures
        parse_spec(lines)->Ok_0.cleaned.len() == lines.len(),
        parse_spec(lines)->Ok_0.done.len() == close_count(lines, lines.len() as int),
{
    lemma_cleaned_shape(lines, lines.len() as int);
    lemma_done_shape(lines, lines.len() as int);
}

/// The spans come back in the order their CLOSE lines were met — their
/// ending rows are exactly the CLOSE rows in increasing row order — and each
/// span starts strictly before it ends, inside the buffer.
pub proof fn lemma_spans_in_close_order(lines: Seq<Seq<char>>)
    requires
        parse_spec(lines) is Ok,
    ensures
        parse_spec(lines)->Ok_0.done.len() == close_rows(lines, lines.len() as int).len(),
        forall|k: int|
            0 <= k < parse_spec(lines)->Ok_0.done.len() ==> {
                let lt = #[trigger] parse_spec(lines)->Ok_0.done[k];
                lt.ending_line == close_rows(lines, lines.len() as int)[k] && lt.starting_line
                    < lt.ending_line && lt.ending_line < lines.len()
            },
        forall|k1: int, k2: int|
            0 <= k1 < k2 < parse_spec(lines)->Ok_0.done.len()
                ==> #[trigger] parse_spec(lines)->Ok_0.done[k1].ending_line
                < #[trigger] parse_spec(lines)->Ok_0.done[k2].ending_line,
{
    lemma_done_shape(lines, lines.len() as int);
    lemma_close_rows_increasing(lines, lines.len() as int);
}

proof fn lemma_close_rows_increasing(lines: Seq<Seq<char>>, i: int)
    requires
        0 <= i <= lines.len(),
    ensures
        forall|k: int| 0 <= k < close_rows(lines, i).len() ==> #[trigger] close_rows(lines, i)[k] < i,
        forall|k1: int, k2: int|
            0 <= k1 < k2 < close_rows(lines, i).len() ==> #[trigger] close_rows(lines, i)[k1]
                < #[trigger] close_rows(lines, i)[k2],
    decreases i,
{
    if i > 0 {
        lemma_close_rows_increasing(lines, i - 1);
        let rest = close_rows(lines, i - 1);
        match ann_at_row(lines, i - 1) {
            Some(a) => {
                if !a.is_open {
                    assert(close_rows(lines, i) == rest.push((i - 1) as nat));
                    assert forall|k: int|
                        0 <= k < close_rows(lines, i).len() implies #[trigger] close_rows(
                        lines,
                        i,
                    )[k] < i by {
                        if k < rest.len() {
                            assert(close_rows(lines, i)[k] == rest[k]);
                        }
                    }
                }
            },
            None => {},
        }
    }
}

/// A parse that succeeds had alternating annotations in every width: each
/// OPEN stands where an even number of its width's annotations came before,
/// each CLOSE where an odd number did.
pub proof fn lemma_parse_ok_alternates(lines: Seq<Seq<char>>)
    requires
        parse_spec(lines) is Ok,
    ensures
        forall|w: nat| #[trigger] width_alternates(lines, w),
{
    lemma_parse_state(lines, lines.len() as int);
}

proof fn lemma_alternation_upto(lines: Seq<Seq<char>>, i: int)
    requires
        0 <= i <= lines.len(),
        forall|w: nat| #[trigger] width_alternates(lines, w),
    ensures
        parse_upto(lines, i) is Ok,
    decreases i,
{
    if i > 0 {
        lemma_alternation_upto(lines, i - 1);
        lemma_parse_state(lines, i - 1);
        match ann_at_row(lines, i - 1) {
            None => {},
            Some(a) => {
                assert(width_alternates(lines, a.width));
            },
        }
    }
}

/// Interleaved opens and closes succeed as long as each width alternates:
/// spans of different widths may overlap freely, and the parse is owed
/// success exactly on the alternating inputs.
pub proof fn lemma_alternating_widths_succeed(lines: Seq<Seq<char>>)
    requires
        forall|w: nat| #[trigger] width_alternates(lines, w),
    ensures
        parse_spec(lines) is Ok,
{
    lemma_alternation_upto(lines, lines.len() as int);
}

/// The parse succeeds exactly on the inputs whose annotations alternate
/// OPEN, CLOSE, OPEN, ... within every width.
pub proof fn lemma_success_characterised(lines: Seq<Seq<char>>)
    ensures
        parse_spec(lines) is Ok <==> (forall|w: nat| #[trigger] width_alternates(lines, w)),
{
    if parse_spec(lines) is Ok {
        lemma_parse_ok_alternates(lines);
    }
    if forall|w: nat| #[trigger] width_alternates(lines, w) {
        lemma_alternating_widths_succeed(lines);
    }
}

/// A second OPEN of a width whose span is still open fails the whole parse
/// with the span-conflict error naming the first OPEN's row and its own.
pub proof fn lemma_second_open_fails(lines: Seq<Seq<char>>, r1: int, r2: int, w: nat)
    requires
        0 <= r1 < r2 < lines.len(),
        parse_upto(lines, r2) is Ok,
        ann_at_row(lines, r1) is Some,
        ann_at_row(lines, r1)->Some_0.width == w,
        ann_at_row(lines, r1)->Some_0.is_open,
        ann_at_row(lines, r2) is Some,
        ann_at_row(lines, r2)->Some_0.width == w,
        ann_at_row(lines, r2)->Some_0.is_open,
        forall|q: int|
            r1 < q < r2 ==> !((#[trigger] ann_at_row(lines, q)) is Some && ann_at_row(
                lines,
                q,
            )->Some_0.width == w),
    ensures
        parse_spec(lines) == Err::<ParseSt, ParseErrV>(
            ParseErrV::AlreadyOpen { width: w, opened_line: r1 as nat, line: r2 as nat },
        ),
{
    lemma_parse_state(lines, r2);
    let st = parse_upto(lines, r2)->Ok_0;
    // at row r1 an even number of width-w annotations had come, so after it
    // an odd number has: the width is open when row r2 is read
    lemma_count_step(lines, w, r1, r2);
    assert(ann_count(lines, w, r1) % 2 == 0);
    assert(ann_count(lines, w, r2) % 2 == 1);
    assert(st.open_spans.dom().contains(w));
    let e = st.open_spans[w];
    assert(open_entry_ok(lines, r2, w, e));
    // the recorded row is the last width-w annotation before r2, and r1 is
    // a width-w annotation with none between it and r2
    assert(e.0 == r1) by {
        if e.0 < r1 {
            assert((ann_at_row(lines, r1)) is Some && ann_at_row(lines, r1)->Some_0.width == w);
        } else if e.0 > r1 {
            assert(!((ann_at_row(lines, e.0 as int)) is Some && ann_at_row(
                lines,
                e.0 as int,
            )->Some_0.width == w));
        }
    }
    assert(parse_upto(lines, r2 + 1) == Err::<ParseSt, ParseErrV>(
        ParseErrV::AlreadyOpen { width: w, opened_line: r1 as nat, line: r2 as nat },
    ));
    lemma_error_stays(lines, r2 + 1, lines.len() as int);
}

/// Between rows `r1` and `r2` no width-`w` annotation stands, so the count
/// after `r2` is the count after `r1` plus the annotation at `r1` itself.
proof fn lemma_count_step(lines: Seq<Seq<char>>, w: nat, r1: int, r2: int)
    requires
        0 <= r1 < r2 <= lines.len(),
        ann_at_row(lines, r1) is Some,
        ann_at_row(lines, r1)->Some_0.width == w,
        forall|q: int|
            r1 < q < r2 ==> !((#[trigger] ann_at_row(lines, q)) is Some && ann_at_row(
                lines,
                q,
            )->Some_0.width == w),
    ensures
        ann_count(lines, w, r2) == ann_count(lines, w, r1) + 1,
    decreases r2 - r1,
{
    if r2 == r1 + 1 {
    } else {
        lemma_count_step(lines, w, r1, r2 - 1);
    }
}

/// A buffer in which no line matches the annotation grammar parses to
/// itself: no spans, nothing stripped.
pub proof fn lemma_no_annotations_identity(lines: Seq<Seq<char>>)
    requires
        forall|r: int| 0 <= r < lines.len() ==> (#[trigger] ann_at_row(lines, r)) is None,
    ensures
        parse_spec(lines) is Ok,
        parse_spec(lines)->Ok_0.cleaned == lines,
        parse_spec(lines)->Ok_0.done == Seq::<LifetimeV>::empty(),
{
    lemma_identity_upto(lines, lines.len() as int);
    assert(parse_spec(lines)->Ok_0.cleaned =~= lines);
}

proof fn lemma_identity_upto(lines: Seq<Seq<char>>, i: int)
    requires
        0 <= i <= lines.len(),
        forall|r: int| 0 <= r < lines.len() ==> (#[trigger] ann_at_row(lines, r)) is None,
    ensures
        parse_upto(lines, i) == Ok::<ParseSt, ParseErrV>(
            ParseSt {
                open_spans: Map::empty(),
                done: Seq::empty(),
                cleaned: lines.take(i),
            },
        ),
    decreases i,
{
    if i <= 0 {
        assert(lines.take(0) =~= Seq::<Seq<char>>::empty());
    } else {
        lemma_identity_upto(lines, i - 1);
        assert(ann_at_row(lines, i - 1) is None);
        assert(grammar::line_ann(lines[i - 1]) is None);
        assert(lines.take(i - 1).push(lines[i - 1]) =~= lines.take(i));
    }
}

/// Stripping is idempotent: when every annotation's code prefix itself
/// matches no annotation, parsing the cleaned buffer yields no spans and
/// leaves it unchanged.
pub proof fn lemma_strip_idempotent(lines: Seq<Seq<char>>)
    requires
        parse_spec(lines) is Ok,
        forall|r: int|
            0 <= r < lines.len() && (#[trigger] ann_at_row(lines, r)) is Some ==> grammar::line_ann(
                ann_at_row(lines, r)->Some_0.prefix,
            ) is None,
    ensures
        parse_spec(parse_spec(lines)->Ok_0.cleaned) is Ok,
        parse_spec(parse_spec(lines)->Ok_0.cleaned)->Ok_0.cleaned == parse_spec(
            lines,
        )->Ok_0.cleaned,
        parse_spec(parse_spec(lines)->Ok_0.cleaned)->Ok_0.done == Seq::<LifetimeV>::empty(),
{
    lemma_cleaned_shape(lines, lines.len() as int);
    let cl = parse_spec(lines)->Ok_0.cleaned;
    assert forall|r: int| 0 <= r < cl.len() implies (#[trigger] ann_at_row(cl, r)) is None by {
        assert(cl[r] == cleaned_line(lines[r]));
        match grammar::line_ann(lines[r]) {
            Some(a) => {
                assert(ann_at_row(lines, r) is Some);
            },
            None => {},
        }
    }
    lemma_no_annotations_identity(cl);
}

} // verus!
