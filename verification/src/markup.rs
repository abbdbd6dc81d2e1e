//! The inline markup formatter: a left-to-right scan over label text with four
//! independent style toggles (bold `*`, underline `_`, italic `/`, code `` ` ``)
//! and backslash escaping. Toggle flips are global state; the output is a flat
//! sequence of style runs, each tagged with the full set of toggles active
//! while its text was scanned, rendered as `<tspan>` markup for an SVG text
//! element. A run left open at the end of the text is closed structurally in
//! the rendering, though no delimiter ever closed it.

use vstd::prelude::*;
use vstd::string::StrSliceExecFns;
use vstd::string::StringExecFns;

verus! {

/// The four style toggles of the formatter.
#[derive(Clone, Copy, Debug, PartialEq, Eq, Structural)]
pub struct StyleToggles {
    pub bold: bool,
    pub underline: bool,
    pub italic: bool,
    pub code: bool,
}

/// Full scanner state: the style toggles plus the escape flag.
pub struct FmtState {
    pub styles: StyleToggles,
    pub escaped: bool,
}

/// One style run: a maximal piece of label text scanned under one fixed set
/// of active toggles.
pub struct StyleRun {
    pub text: String,
    pub styles: StyleToggles,
}

/// The mathematical value of a style run.
pub struct RunV {
    pub text: Seq<char>,
    pub styles: StyleToggles,
}

impl DeepView for StyleRun {
    type V = RunV;

    open spec fn deep_view(&self) -> RunV {
        RunV { text: self.text@, styles: self.styles }
    }
}

pub open spec fn toggles_off() -> StyleToggles {
    StyleToggles { bold: false, underline: false, italic: false, code: false }
}

pub open spec fn fmt_init() -> FmtState {
    FmtState { styles: toggles_off(), escaped: false }
}

/// Whether any of the four toggles is on.
pub open spec fn any_on(t: StyleToggles) -> bool {
    t.bold || t.underline || t.italic || t.code
}

/// The four toggle delimiters.
pub open spec fn is_delimiter(c: char) -> bool {
    c == '*' || c == '_' || c == '/' || c == '`'
}

/// The escape character.
pub open spec fn is_escape(c: char) -> bool {
    c == '\\'
}

/// The toggles after the delimiter `c` flips exactly its own toggle.
pub open spec fn toggled(t: StyleToggles, c: char) -> StyleToggles {
    if c == '*' {
        StyleToggles { bold: !t.bold, ..t }
    } else if c == '_' {
        StyleToggles { underline: !t.underline, ..t }
    } else if c == '/' {
        StyleToggles { italic: !t.italic, ..t }
    } else {
        StyleToggles { code: !t.code, ..t }
    }
}

/// The class attribute text for a set of toggles: four slots separated by
/// single spaces, each either a style class name or empty.
pub open spec fn class_text(t: StyleToggles) -> Seq<char> {
    (if t.bold {
        "m_bold"@
    } else {
        ""@
    }) + " "@ + (if t.underline {
        "m_underline"@
    } else {
        ""@
    }) + " "@ + (if t.italic {
        "m_italic"@
    } else {
        ""@
    }) + " "@ + (if t.code {
        "m_code"@
    } else {
        ""@
    })
}

/// The opening `<tspan>` tag carrying the classes of the toggles `t`.
pub open spec fn open_tag(t: StyleToggles) -> Seq<char> {
    "<tspan class=\""@ + class_text(t) + "\">"@
}

pub open spec fn close_tag() -> Seq<char> {
    "</tspan>"@
}

/// The scanner state after consuming one character.
pub open spec fn fmt_step_state(st: FmtState, c: char) -> FmtState {
    if st.escaped {
        FmtState { escaped: false, ..st }
    } else if is_escape(c) {
        FmtState { escaped: true, ..st }
    } else if is_delimiter(c) {
        FmtState { styles: toggled(st.styles, c), escaped: false }
    } else {
        st
    }
}

/// What consuming one character emits.
pub open spec fn fmt_step_out(st: FmtState, c: char) -> Seq<char> {
    if st.escaped {
        seq![c]
    } else if is_escape(c) {
        Seq::empty()
    } else if is_delimiter(c) {
        (if any_on(st.styles) {
            close_tag()
        } else {
            Seq::empty()
        }) + (if any_on(toggled(st.styles, c)) {
            open_tag(toggled(st.styles, c))
        } else {
            Seq::empty()
        })
    } else {
        seq![c]
    }
}

/// The scanner state after the first `i` characters of `s`.
pub open spec fn fmt_state_at(s: Seq<char>, i: int) -> FmtState
    decreases i,
{
    if i <= 0 {
        fmt_init()
    } else {
        fmt_step_state(fmt_state_at(s, i - 1), s[i - 1])
    }
}

/// Everything emitted for the first `i` characters of `s`.
pub open spec fn fmt_out_at(s: Seq<char>, i: int) -> Seq<char>
    decreases i,
{
    if i <= 0 {
        Seq::empty()
    } else {
        fmt_out_at(s, i - 1) + fmt_step_out(fmt_state_at(s, i - 1), s[i - 1])
    }
}

/// The full formatted markup for a label: the scan's output, with a closing
/// tag added structurally when the text ends with a style still on.
pub open spec fn markup_svg(s: Seq<char>) -> Seq<char> {
    fmt_out_at(s, s.len() as int) + (if any_on(fmt_state_at(s, s.len() as int).styles) {
        close_tag()
    } else {
        Seq::empty()
    })
}

/// Runs and in-progress text accumulated after the first `i` characters.
/// A segment becomes a run when a delimiter (or the end of the text) closes
/// it and it is styled or has text; empty unstyled segments vanish.
pub open spec fn runs_at(s: Seq<char>, i: int) -> (Seq<RunV>, Seq<char>)
    decreases i,
{
    if i <= 0 {
        (Seq::empty(), Seq::empty())
    } else {
        let (runs, cur) = runs_at(s, i - 1);
        let st = fmt_state_at(s, i - 1);
        let c = s[i - 1];
        if st.escaped {
            (runs, cur.push(c))
        } else if is_escape(c) {
            (runs, cur)
        } else if is_delimiter(c) {
            if any_on(st.styles) || cur.len() > 0 {
                (runs.push(RunV { text: cur, styles: st.styles }), Seq::empty())
            } else {
                (runs, Seq::empty())
            }
        } else {
            (runs, cur.push(c))
        }
    }
}

/// The flat sequence of style runs of a label text.
pub open spec fn markup_runs_spec(s: Seq<char>) -> Seq<RunV> {
    let (runs, cur) = runs_at(s, s.len() as int);
    let st = fmt_state_at(s, s.len() as int);
    if any_on(st.styles) || cur.len() > 0 {
        runs.push(RunV { text: cur, styles: st.styles })
    } else {
        runs
    }
}

/// How one run appears in the output markup.
pub open spec fn run_render(r: RunV) -> Seq<char> {
    if any_on(r.styles) {
        open_tag(r.styles) + r.text + close_tag()
    } else {
        r.text
    }
}

/// The runs rendered one after the other, never nested.
pub open spec fn runs_render(rs: Seq<RunV>) -> Seq<char>
    decreases rs.len(),
{
    if rs.len() == 0 {
        Seq::empty()
    } else {
        runs_render(rs.drop_last()) + run_render(rs.last())
    }
}

proof fn lemma_out_render_invariant(s: Seq<char>, i: int)
    requires
        0 <= i <= s.len(),
    ensures
        fmt_out_at(s, i) == runs_render(runs_at(s, i).0) + (if any_on(fmt_state_at(s, i).styles) {
            open_tag(fmt_state_at(s, i).styles)
        } else {
            Seq::<char>::empty()
        }) + runs_at(s, i).1,
    decreases i,
{
    if i == 0 {
        assert(fmt_out_at(s, 0) =~= runs_render(runs_at(s, 0).0) + (if any_on(
            fmt_state_at(s, 0).styles,
        ) {
            open_tag(fmt_state_at(s, 0).styles)
        } else {
            Seq::<char>::empty()
        }) + runs_at(s, 0).1);
    } else {
        lemma_out_render_invariant(s, i - 1);
        let st = fmt_state_at(s, i - 1);
        let c = s[i - 1];
        let (runs, cur) = runs_at(s, i - 1);
        let open_part = if any_on(st.styles) {
            open_tag(st.styles)
        } else {
            Seq::<char>::empty()
        };
        if st.escaped || (!is_escape(c) && !is_delimiter(c)) {
            assert(cur.push(c) =~= cur + seq![c]);
            assert(fmt_out_at(s, i) =~= runs_render(runs) + open_part + cur.push(c));
        } else if is_escape(c) {
            assert(fmt_out_at(s, i) =~= runs_render(runs) + open_part + cur);
        } else {
            // a delimiter closes the current segment
            let st2 = fmt_state_at(s, i).styles;
            let open_part2 = if any_on(st2) {
                open_tag(st2)
            } else {
                Seq::<char>::empty()
            };
            if any_on(st.styles) || cur.len() > 0 {
                let closed = runs.push(RunV { text: cur, styles: st.styles });
                assert(closed.drop_last() =~= runs);
                assert(runs_render(closed) =~= runs_render(runs) + run_render(
                    RunV { text: cur, styles: st.styles },
                ));
                assert(fmt_out_at(s, i) =~= runs_render(closed) + open_part2
                    + Seq::<char>::empty());
            } else {
                assert(fmt_out_at(s, i) =~= runs_render(runs) + open_part2 + Seq::<char>::empty());
            }
        }
    }
}

/// The formatter is flat: the whole output markup is exactly the style runs
/// rendered one after the other in scan order, with no nesting between runs.
pub proof fn lemma_markup_is_flat(s: Seq<char>)
    ensures
        markup_svg(s) == runs_render(markup_runs_spec(s)),
{
    let n = s.len() as int;
    lemma_out_render_invariant(s, n);
    let st = fmt_state_at(s, n);
    let (runs, cur) = runs_at(s, n);
    if any_on(st.styles) {
        let closed = runs.push(RunV { text: cur, styles: st.styles });
        assert(closed.drop_last() =~= runs);
        assert(markup_svg(s) =~= runs_render(closed));
    } else if cur.len() > 0 {
        let closed = runs.push(RunV { text: cur, styles: st.styles });
        assert(closed.drop_last() =~= runs);
        assert(markup_svg(s) =~= runs_render(closed));
    } else {
        assert(markup_svg(s) =~= runs_render(runs));
    }
}

/// Plain text passes through the formatter unchanged: with no delimiter and
/// no escape character in `s`, the formatted markup is `s` itself.
pub proof fn lemma_plain_text_unchanged(s: Seq<char>)
    requires
        forall|i: int| 0 <= i < s.len() ==> !is_delimiter(s[i]) && !is_escape(s[i]),
    ensures
        markup_svg(s) == s,
{
    lemma_plain_prefix(s, s.len() as int);
    assert(markup_svg(s) =~= s);
}

proof fn lemma_plain_prefix(s: Seq<char>, i: int)
    requires
        0 <= i <= s.len(),
        forall|j: int| 0 <= j < s.len() ==> !is_delimiter(s[j]) && !is_escape(s[j]),
    ensures
        fmt_state_at(s, i) == fmt_init(),
        fmt_out_at(s, i) == s.take(i),
    decreases i,
{
    if i == 0 {
        assert(fmt_out_at(s, 0) =~= s.take(0));
    } else {
        lemma_plain_prefix(s, i - 1);
        assert(fmt_out_at(s, i) =~= s.take(i - 1) + seq![s[i - 1]]);
        assert(s.take(i) =~= s.take(i - 1) + seq![s[i - 1]]);
    }
}

fn any_set(t: StyleToggles) -> (b: bool)
    ensures
        b == any_on(t),
{
    t.bold || t.underline || t.italic || t.code
}

/// Appends the opening `<tspan>` tag for the toggles `t` to `out`.
#[verifier::rlimit(40)]
fn push_open_tag(out: &mut String, t: StyleToggles)
    requires
        any_on(t),
    ensures
        final(out)@ == old(out)@ + open_tag(t),
{
    out.append("<tspan class=\"");
    if t.bold {
        out.append("m_bold");
    }
    out.append(" ");
    if t.underline {
        out.append("m_underline");
    }
    out.append(" ");
    if t.italic {
        out.append("m_italic");
    }
    out.append(" ");
    if t.code {
        out.append("m_code");
    }
    out.append("\">");
    proof {
        reveal_strlit("");
        assert(""@ =~= Seq::<char>::empty());
        assert(out@ =~= old(out)@ + open_tag(t));
    }
}

/// Formats a label's markup as the contents of an SVG text element, rendering
/// each style run as a `<tspan>` with the classes of its active toggles.
pub fn markup_to_svg(markup: &str) -> (r: String)
    ensures
        r@ == markup_svg(markup@),
{
    let ghost s = markup@;
    let n = markup.unicode_len();
    let mut out = String::new();
    let mut styles = StyleToggles { bold: false, underline: false, italic: false, code: false };
    let mut escaped = false;
    let mut i: usize = 0;
    while i < n
        invariant
            n == s.len(),
            0 <= i <= n,
            markup@ == s,
            styles == fmt_state_at(s, i as int).styles,
            escaped == fmt_state_at(s, i as int).escaped,
            out@ == fmt_out_at(s, i as int),
        decreases n - i,
    {
        let c = markup.get_char(i);
        let ghost st = fmt_state_at(s, i as int);
        if escaped {
            out.push(c);
            escaped = false;
        } else if c == '\\' {
            escaped = true;
        } else if c == '*' || c == '_' || c == '/' || c == '`' {
            if any_set(styles) {
                out.append("</tspan>");
            }
            if c == '*' {
                styles.bold = !styles.bold;
            } else if c == '_' {
                styles.underline = !styles.underline;
            } else if c == '/' {
                styles.italic = !styles.italic;
            } else {
                styles.code = !styles.code;
            }
            assert(styles == toggled(st.styles, c));
            if any_set(styles) {
                push_open_tag(&mut out, styles);
            }
            assert(out@ =~= fmt_out_at(s, i as int + 1));
        } else {
            out.push(c);
        }
        assert(out@ =~= fmt_out_at(s, i as int + 1));
        i = i + 1;
    }
    if any_set(styles) {
        out.append("</tspan>");
    }
    assert(out@ =~= markup_svg(s));
    out
}

/// Scans a label's markup into its flat sequence of style runs.
pub fn markup_runs(markup: &str) -> (r: Vec<StyleRun>)
    ensures
        r.deep_view() == markup_runs_spec(markup@),
{
    let ghost s = markup@;
    let n = markup.unicode_len();
    let mut runs: Vec<StyleRun> = Vec::new();
    let mut cur = String::new();
    let mut styles = StyleToggles { bold: false, underline: false, italic: false, code: false };
    let mut escaped = false;
    let mut i: usize = 0;
    while i < n
        invariant
            n == s.len(),
            0 <= i <= n,
            markup@ == s,
            styles == fmt_state_at(s, i as int).styles,
            escaped == fmt_state_at(s, i as int).escaped,
            runs.deep_view() == runs_at(s, i as int).0,
            cur@ == runs_at(s, i as int).1,
        decreases n - i,
    {
        let c = markup.get_char(i);
        let ghost st = fmt_state_at(s, i as int);
        if escaped {
            cur.push(c);
            escaped = false;
        } else if c == '\\' {
            escaped = true;
        } else if c == '*' || c == '_' || c == '/' || c == '`' {
            if any_set(styles) || !cur.as_str().is_empty() {
                let run = StyleRun { text: cur, styles };
                runs.push(run);
                cur = String::new();
                assert(runs.deep_view() =~= runs_at(s, i as int + 1).0);
            } else {
                assert(cur@ =~= Seq::<char>::empty());
            }
            assert(cur@ =~= runs_at(s, i as int + 1).1);
            if c == '*' {
                styles.bold = !styles.bold;
            } else if c == '_' {
                styles.underline = !styles.underline;
            } else if c == '/' {
                styles.italic = !styles.italic;
            } else {
                styles.code = !styles.code;
            }
            assert(styles == toggled(st.styles, c));
        } else {
            cur.push(c);
        }
        assert(runs.deep_view() =~= runs_at(s, i as int + 1).0);
        i = i + 1;
    }
    if any_set(styles) || !cur.as_str().is_empty() {
        let run = StyleRun { text: cur, styles };
        runs.push(run);
        assert(runs.deep_view() =~= markup_runs_spec(s));
    } else {
        assert(runs.deep_view() =~= markup_runs_spec(s));
    }
    runs
}

} // verus!
