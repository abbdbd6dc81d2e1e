//! The annotation parser. It walks the line buffer in row order, pairs OPEN
//! (`\`) and CLOSE (`/`) annotations by dash-run width, strips each matched
//! annotation down to its code prefix, and returns the completed spans in the
//! order their CLOSE lines were met. Width is purely a pairing key: spans of
//! different widths may be open at once, but a width may hold at most one
//! open span at a time — reusing it before the close, or closing a width with
//! no open span, fails the whole parse. An annotation still open when the
//! input ends is silently discarded, and the buffer is handed back untouched
//! whenever the parse fails.

use vstd::prelude::*;
use vstd::string::StringExecFns;

use crate::grammar;
use crate::grammar::AnnV;
use crate::strutil;
use crate::strutil::decimal_of;

verus! {

/// A resolved span: the rows of its OPEN and CLOSE lines, and its label.
#[derive(Debug, Clone, PartialEq, Eq)]
pub struct Lifetime {
    pub starting_line: usize,
    pub ending_line: usize,
    pub comment: String,
}

/// The mathematical value of a resolved span.
pub struct LifetimeV {
    pub starting_line: nat,
    pub ending_line: nat,
    pub comment: Seq<char>,
}

impl DeepView for Lifetime {
    type V = LifetimeV;

    open spec fn deep_view(&self) -> LifetimeV {
        LifetimeV {
            starting_line: self.starting_line as nat,
            ending_line: self.ending_line as nat,
            comment: self.comment@,
        }
    }
}

/// Why a parse failed: a width reused while its span was still open, or a
/// CLOSE with no open span of its width.
#[derive(Debug, Clone, Copy, PartialEq, Eq, Structural)]
pub enum ParseError {
    AlreadyOpen { width: usize, opened_line: usize, line: usize },
    NotOpened { width: usize, line: usize },
}

/// The mathematical value of a parse error.
pub enum ParseErrV {
    AlreadyOpen { width: nat, opened_line: nat, line: nat },
    NotOpened { width: nat, line: nat },
}

impl DeepView for ParseError {
    type V = ParseErrV;

    open spec fn deep_view(&self) -> ParseErrV {
        match *self {
            ParseError::AlreadyOpen { width, opened_line, line } => ParseErrV::AlreadyOpen {
                width: width as nat,
                opened_line: opened_line as nat,
                line: line as nat,
            },
            ParseError::NotOpened { width, line } => ParseErrV::NotOpened {
                width: width as nat,
                line: line as nat,
            },
        }
    }
}

/// The message text for a parse error, naming the width and the rows
/// involved.
pub open spec fn err_message(e: ParseErrV) -> Seq<char> {
    match e {
        ParseErrV::AlreadyOpen { width, opened_line, line } => "Lifetime of width "@ + decimal_of(
            width,
        ) + " from line "@ + decimal_of(opened_line)
            + " not finished before it is started again on line "@ + decimal_of(line),
        ParseErrV::NotOpened { width, line } => "Ending lifetime of width "@ + decimal_of(width)
            + " on line "@ + decimal_of(line) + " wasn't started"@,
    }
}

impl ParseError {
    /// Renders the error as a single human-readable line.
    pub fn message(&self) -> (r: String)
        ensures
            r@ == err_message(self.deep_view()),
    {
        match *self {
            ParseError::AlreadyOpen { width, opened_line, line } => {
                let mut out = String::from_str("Lifetime of width ");
                strutil::push_decimal(&mut out, width);
                out.append(" from line ");
                strutil::push_decimal(&mut out, opened_line);
                out.append(" not finished before it is started again on line ");
                strutil::push_decimal(&mut out, line);
                out
            },
            ParseError::NotOpened { width, line } => {
                let mut out = String::from_str("Ending lifetime of width ");
                strutil::push_decimal(&mut out, width);
                out.append(" on line ");
                strutil::push_decimal(&mut out, line);
                out.append(" wasn't started");
                out
            },
        }
    }
}

/// The parser's state after some prefix of the lines: the spans still open,
/// keyed by width and holding their OPEN row and label; the spans completed
/// so far, in CLOSE order; and the cleaned lines.
pub struct ParseSt {
    pub open_spans: Map<nat, (nat, Seq<char>)>,
    pub done: Seq<LifetimeV>,
    pub cleaned: Seq<Seq<char>>,
}

pub open spec fn parse_init() -> ParseSt {
    ParseSt { open_spans: Map::empty(), done: Seq::empty(), cleaned: Seq::empty() }
}

/// One parser step: how the line at `row` transforms the state.
pub open spec fn parse_step(st: ParseSt, line: Seq<char>, row: nat) -> Result<ParseSt, ParseErrV> {
    match grammar::line_ann(line) {
        None => Ok(ParseSt { cleaned: st.cleaned.push(line), ..st }),
        Some(a) => {
            if st.open_spans.dom().contains(a.width) {
                if a.is_open {
                    Err(
                        ParseErrV::AlreadyOpen {
                            width: a.width,
                            opened_line: st.open_spans[a.width].0,
                            line: row,
                        },
                    )
                } else {
                    Ok(
                        ParseSt {
                            open_spans: st.open_spans.remove(a.width),
                            done: st.done.push(
                                LifetimeV {
                                    starting_line: st.open_spans[a.width].0,
                                    ending_line: row,
                                    comment: st.open_spans[a.width].1,
                                },
                            ),
                            cleaned: st.cleaned.push(a.prefix),
                        },
                    )
                }
            } else {
                if a.is_open {
                    Ok(
                        ParseSt {
                            open_spans: st.open_spans.insert(a.width, (row, a.label)),
                            done: st.done,
                            cleaned: st.cleaned.push(a.prefix),
                        },
                    )
                } else {
                    Err(ParseErrV::NotOpened { width: a.width, line: row })
                }
            }
        },
    }
}

/// The parser's result after the first `i` lines.
pub open spec fn parse_upto(lines: Seq<Seq<char>>, i: int) -> Result<ParseSt, ParseErrV>
    decreases i,
{
    if i <= 0 {
        Ok(parse_init())
    } else {
        match parse_upto(lines, i - 1) {
            Ok(st) => parse_step(st, lines[i - 1], (i - 1) as nat),
            Err(e) => Err(e),
        }
    }
}

/// What parsing a whole line buffer yields.
pub open spec fn parse_spec(lines: Seq<Seq<char>>) -> Result<ParseSt, ParseErrV> {
    parse_upto(lines, lines.len() as int)
}

/// Once a step fails, every longer prefix fails the same way.
pub proof fn lemma_error_stays(lines: Seq<Seq<char>>, i: int, j: int)
    requires
        0 <= i <= j <= lines.len(),
        parse_upto(lines, i) is Err,
    ensures
        parse_upto(lines, j) == parse_upto(lines, i),
    decreases j - i,
{
    if i < j {
        lemma_error_stays(lines, i, j - 1);
    }
}

/// One in-progress span, as the executable open-span table holds it.
struct OpenEntry {
    width: usize,
    start: usize,
    label: String,
}

/// How the open-span table realises the abstract open-span map: widths are
/// unique, every entry is in the map, and every width in the map has an entry.
spec fn table_inv(t: Seq<OpenEntry>, m: Map<nat, (nat, Seq<char>)>) -> bool {
    &&& forall|j: int, k: int|
        0 <= j < t.len() && 0 <= k < t.len() && j != k ==> t[j].width != t[k].width
    &&& forall|j: int|
        0 <= j < t.len() ==> m.dom().contains(#[trigger] t[j].width as nat) && m[t[j].width as nat]
            == ((t[j].start as nat, t[j].label@))
    &&& forall|w: nat|
        m.dom().contains(w) ==> exists|j: int| 0 <= j < t.len() && #[trigger] t[j].width as nat == w
}

fn find_width(table: &Vec<OpenEntry>, width: usize) -> (r: Option<usize>)
    ensures
        match r {
            Some(j) => j < table@.len() && table@[j as int].width == width,
            None => forall|j: int| 0 <= j < table@.len() ==> table@[j].width != width,
        },
{
    let mut j: usize = 0;
    while j < table.len()
        invariant
            0 <= j <= table@.len(),
            forall|k: int| 0 <= k < j ==> table@[k].width != width,
        decreases table@.len() - j,
    {
        if table[j].width == width {
            return Some(j);
        }
        j = j + 1;
    }
    None
}

/// Finds the annotated spans of the buffer and strips the annotations from
/// the code, replacing each matched line by its code prefix.
///
/// On success the buffer holds the cleaned lines and the returned spans are
/// in CLOSE order; a span left open at the end of input is dropped without
/// error. On failure the buffer is left exactly as it was.
pub fn find_lifetimes(code: &mut Vec<String>) -> (r: Result<Vec<Lifetime>, ParseError>)
    ensures
        match r {
            Ok(lts) => {
                &&& parse_spec(old(code).deep_view()) is Ok
                &&& final(code).deep_view() == parse_spec(old(code).deep_view())->Ok_0.cleaned
                &&& lts.deep_view() == parse_spec(old(code).deep_view())->Ok_0.done
            },
            Err(e) => {
                &&& parse_spec(old(code).deep_view()) == Err::<ParseSt, ParseErrV>(e.deep_view())
                &&& final(code)@ == old(code)@
            },
        },
{
    let ghost linesv = code.deep_view();
    let n = code.len();
    let mut cleaned: Vec<String> = Vec::new();
    let mut lifetimes: Vec<Lifetime> = Vec::new();
    let mut table: Vec<OpenEntry> = Vec::new();
    let mut i: usize = 0;
    while i < n
        invariant
            n == code@.len(),
            code@ == old(code)@,
            linesv == code.deep_view(),
            0 <= i <= n,
            parse_upto(linesv, i as int) is Ok,
            cleaned.deep_view() == parse_upto(linesv, i as int)->Ok_0.cleaned,
            lifetimes.deep_view() == parse_upto(linesv, i as int)->Ok_0.done,
            table_inv(table@, parse_upto(linesv, i as int)->Ok_0.open_spans),
        decreases n - i,
    {
        let ghost st = parse_upto(linesv, i as int)->Ok_0;
        proof {
            assert(linesv[i as int] == code@[i as int]@);
        }
        let line = &code[i];
        match grammar::match_annotation(line.as_str()) {
            None => {
                cleaned.push(line.clone());
                proof {
                    assert(cleaned.deep_view() =~= parse_upto(linesv, i as int + 1)->Ok_0.cleaned);
                }
            },
            Some(a) => {
                let grammar::Annotation { prefix, width, is_open, label } = a;
                let ghost av = AnnV {
                    prefix: prefix@,
                    width: width as nat,
                    is_open,
                    label: label@,
                };
                match find_width(&table, width) {
                    Some(j) => {
                        proof {
                            assert(st.open_spans.dom().contains(av.width));
                        }
                        if is_open {
                            let e = ParseError::AlreadyOpen {
                                width,
                                opened_line: table[j].start,
                                line: i,
                            };
                            proof {
                                lemma_error_stays(linesv, i as int + 1, linesv.len() as int);
                            }
                            return Err(e);
                        } else {
                            let ghost t0 = table@;
                            let entry = table.remove(j);
                            lifetimes.push(
                                Lifetime {
                                    starting_line: entry.start,
                                    ending_line: i,
                                    comment: entry.label,
                                },
                            );
                            cleaned.push(prefix);
                            proof {
                                let m2 = st.open_spans.remove(av.width);
                                assert forall|w: nat| m2.dom().contains(w) implies exists|k: int|
                                    0 <= k < table@.len() && #[trigger] table@[k].width as nat
                                        == w by {
                                    let k0 = choose|k0: int|
                                        0 <= k0 < t0.len() && #[trigger] t0[k0].width as nat == w;
                                    assert(t0[k0].width as nat == w);
                                    assert(k0 != j);
                                    if k0 < j {
                                        assert(table@[k0].width as nat == w);
                                    } else {
                                        assert(table@[k0 - 1].width as nat == w);
                                    }
                                }
                                assert(table_inv(table@, m2));
                                assert(cleaned.deep_view() =~= parse_upto(
                                    linesv,
                                    i as int + 1,
                                )->Ok_0.cleaned);
                                assert(lifetimes.deep_view() =~= parse_upto(
                                    linesv,
                                    i as int + 1,
                                )->Ok_0.done);
                            }
                        }
                    },
                    None => {
                        proof {
                            assert(!st.open_spans.dom().contains(av.width)) by {
                                if st.open_spans.dom().contains(av.width) {
                                    let k = choose|k: int|
                                        0 <= k < table@.len() && #[trigger] table@[k].width as nat
                                            == av.width;
                                    assert(table@[k].width == width);
                                }
                            }
                        }
                        if is_open {
                            let ghost t0 = table@;
                            table.push(OpenEntry { width, start: i, label });
                            cleaned.push(prefix);
                            proof {
                                let m2 = st.open_spans.insert(av.width, (i as nat, av.label));
                                assert forall|w: nat| m2.dom().contains(w) implies exists|k: int|
                                    0 <= k < table@.len() && #[trigger] table@[k].width as nat
                                        == w by {
                                    if w == av.width {
                                        assert(table@[table@.len() - 1].width as nat == w);
                                    } else {
                                        let k0 = choose|k0: int|
                                            0 <= k0 < t0.len() && #[trigger] t0[k0].width as nat
                                                == w;
                                        assert(table@[k0].width as nat == w);
                                    }
                                }
                                assert(table_inv(table@, m2));
                                assert(cleaned.deep_view() =~= parse_upto(
                                    linesv,
                                    i as int + 1,
                                )->Ok_0.cleaned);
                            }
                        } else {
                            let e = ParseError::NotOpened { width, line: i };
                            proof {
                                lemma_error_stays(linesv, i as int + 1, linesv.len() as int);
                            }
                            return Err(e);
                        }
                    },
                }
            },
        }
        i = i + 1;
    }
    *code = cleaned;
    Ok(lifetimes)
}

} // verus!
