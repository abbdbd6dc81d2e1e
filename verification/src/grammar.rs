//! The annotation-line grammar. A line carries an annotation when it has the
//! form `<code-prefix>// <dash-run><glyph><optional space><label>`: the token
//! `// ` followed by one or more dashes and a direction glyph — `\` opens a
//! span, `/` closes one. The code prefix is greedy: when the token occurs
//! several times, the match is taken at its last occurrence, and everything
//! before it is the prefix. The dash-run length is the annotation's width.

use vstd::prelude::*;
use vstd::string::StrSliceExecFns;

verus! {

/// The two direction glyphs: `\` opens a span, `/` closes one.
pub open spec fn is_glyph(c: char) -> bool {
    c == '/' || c == '\\'
}

/// The first index at or after `k` where the dash run ends.
pub open spec fn dash_end(s: Seq<char>, k: int) -> int
    decreases s.len() - k,
{
    if k < 0 || k >= s.len() {
        k
    } else if s[k] != '-' {
        k
    } else {
        dash_end(s, k + 1)
    }
}

pub proof fn lemma_dash_end(s: Seq<char>, k: int)
    requires
        0 <= k <= s.len(),
    ensures
        k <= dash_end(s, k) <= s.len(),
        forall|t: int| k <= t < dash_end(s, k) ==> s[t] == '-',
        dash_end(s, k) == s.len() || s[dash_end(s, k)] != '-',
    decreases s.len() - k,
{
    if k < s.len() && s[k] == '-' {
        lemma_dash_end(s, k + 1);
    }
}

/// Whether an annotation token (`// ` + dashes + glyph) begins at index `i`.
pub open spec fn is_ann_at(s: Seq<char>, i: int) -> bool {
    &&& 0 <= i
    &&& i + 4 <= s.len()
    &&& s[i] == '/'
    &&& s[i + 1] == '/'
    &&& s[i + 2] == ' '
    &&& s[i + 3] == '-'
    &&& dash_end(s, i + 3) < s.len()
    &&& is_glyph(s[dash_end(s, i + 3)])
}

/// The last index below `i` where an annotation token begins, if any.
pub open spec fn last_ann_before(s: Seq<char>, i: int) -> Option<int>
    decreases i,
{
    if i <= 0 {
        None
    } else if is_ann_at(s, i - 1) {
        Some(i - 1)
    } else {
        last_ann_before(s, i - 1)
    }
}

/// Where the line's annotation token begins: at the last candidate, so that
/// the code prefix before it is as long as possible.
pub open spec fn ann_pos(s: Seq<char>) -> Option<int> {
    last_ann_before(s, s.len() as int)
}

/// The parts of a matched annotation line.
pub struct AnnV {
    /// Everything before the `// ` token: the code that stays.
    pub prefix: Seq<char>,
    /// The length of the dash run; the pairing key.
    pub width: nat,
    /// True for the OPEN glyph `\`, false for the CLOSE glyph `/`.
    pub is_open: bool,
    /// The rest of the line after the glyph, one leading space consumed.
    pub label: Seq<char>,
}

/// The parts of the annotation whose token begins at `j`.
pub open spec fn ann_at(s: Seq<char>, j: int) -> AnnV
    recommends
        is_ann_at(s, j),
{
    let e = dash_end(s, j + 3);
    AnnV {
        prefix: s.take(j),
        width: (e - (j + 3)) as nat,
        is_open: s[e] == '\\',
        label: if e + 1 < s.len() && s[e + 1] == ' ' {
            s.skip(e + 2)
        } else {
            s.skip(e + 1)
        },
    }
}

/// The annotation carried by a line, if the line matches the grammar.
pub open spec fn line_ann(s: Seq<char>) -> Option<AnnV> {
    match ann_pos(s) {
        Some(j) => Some(ann_at(s, j)),
        None => None,
    }
}

/// A matched annotation line, split into its parts.
pub struct Annotation {
    pub prefix: String,
    pub width: usize,
    pub is_open: bool,
    pub label: String,
}

impl DeepView for Annotation {
    type V = AnnV;

    open spec fn deep_view(&self) -> AnnV {
        AnnV {
            prefix: self.prefix@,
            width: self.width as nat,
            is_open: self.is_open,
            label: self.label@,
        }
    }
}

fn dash_run_end(line: &str, n: usize, k: usize) -> (e: usize)
    requires
        n == line@.len(),
        k <= n,
    ensures
        e as int == dash_end(line@, k as int),
        k <= e <= n,
{
    let ghost s = line@;
    let mut e = k;
    while e < n && line.get_char(e) == '-'
        invariant
            n == s.len(),
            line@ == s,
            k <= e <= n,
            dash_end(s, k as int) == dash_end(s, e as int),
        decreases n - e,
    {
        e = e + 1;
    }
    e
}

fn is_glyph_char(c: char) -> (b: bool)
    ensures
        b == is_glyph(c),
{
    c == '/' || c == '\\'
}

fn ann_check_at(line: &str, n: usize, i: usize) -> (b: bool)
    requires
        n == line@.len(),
        i < n,
    ensures
        b == is_ann_at(line@, i as int),
{
    if n - i < 4 {
        return false;
    }
    if line.get_char(i) != '/' || line.get_char(i + 1) != '/' || line.get_char(i + 2) != ' '
        || line.get_char(i + 3) != '-' {
        return false;
    }
    let e = dash_run_end(line, n, i + 3);
    e < n && is_glyph_char(line.get_char(e))
}

/// Matches a line against the annotation grammar, returning its parts when it
/// matches and `None` when it carries no annotation.
pub fn match_annotation(line: &str) -> (r: Option<Annotation>)
    ensures
        match r {
            Some(a) => line_ann(line@) == Some(a.deep_view()),
            None => line_ann(line@) is None,
        },
{
    let ghost s = line@;
    let n = line.unicode_len();
    let mut best: Option<usize> = None;
    let mut i: usize = 0;
    while i < n
        invariant
            n == s.len(),
            line@ == s,
            0 <= i <= n,
            match best {
                Some(j) => last_ann_before(s, i as int) == Some(j as int) && is_ann_at(s, j as int),
                None => last_ann_before(s, i as int) is None,
            },
        decreases n - i,
    {
        if ann_check_at(line, n, i) {
            best = Some(i);
        }
        i = i + 1;
    }
    match best {
        None => None,
        Some(j) => {
            proof {
                lemma_dash_end(s, j + 3);
            }
            let e = dash_run_end(line, n, j + 3);
            let width = e - (j + 3);
            let is_open = line.get_char(e) == '\\';
            let label_start = if e + 1 < n && line.get_char(e + 1) == ' ' {
                e + 2
            } else {
                e + 1
            };
            let prefix = line.substring_char(0, j).to_owned();
            let label = line.substring_char(label_start, n).to_owned();
            let a = Annotation { prefix, width, is_open, label };
            proof {
                assert(a.deep_view().prefix =~= ann_at(s, j as int).prefix);
                assert(a.deep_view().label =~= ann_at(s, j as int).label);
            }
            Some(a)
        },
    }
}

} // verus!
