use vstd::prelude::*;

use crate::interpret::Diagnostic;
use crate::position::{locate, PositionIndex};

verus! {

/// Number of decimal digits of `n`.
pub open spec fn digits(n: nat) -> nat
    decreases n,
{
    if n < 10 {
        1
    } else {
        1 + digits(n / 10)
    }
}

pub open spec fn digit_char(d: nat) -> char {
    seq!['0', '1', '2', '3', '4', '5', '6', '7', '8', '9'][d as int]
}

/// The decimal text of `n`.
pub open spec fn decimal(n: nat) -> Seq<char>
    decreases n,
{
    if n < 10 {
        seq![digit_char(n)]
    } else {
        decimal(n / 10).push(digit_char(n % 10))
    }
}

pub open spec fn spaces(n: nat) -> Seq<char> {
    Seq::new(n, |i: int| ' ')
}

/// The pieces `text` falls into between its `'\n'` characters.
pub open spec fn split_newlines(text: Seq<char>) -> Seq<Seq<char>>
    decreases text.len(),
{
    if text.len() == 0 {
        seq![Seq::empty()]
    } else {
        let p = split_newlines(text.drop_last());
        if text.last() == '\n' {
            p.push(Seq::empty())
        } else {
            p.update(p.len() - 1, p.last().push(text.last()))
        }
    }
}

pub open spec fn strip_cr(line: Seq<char>) -> Seq<char> {
    if line.len() > 0 && line.last() == '\r' {
        line.drop_last()
    } else {
        line
    }
}

/// The lines of `text`: split at `'\n'`, a `'\r'` before it dropped, and no
/// empty line after a final `'\n'`.
pub open spec fn text_lines(text: Seq<char>) -> Seq<Seq<char>> {
    let p = split_newlines(text);
    let closed = stripped(p.drop_last());
    if p.last().len() == 0 {
        closed
    } else {
        closed.push(p.last())
    }
}

pub open spec fn string_views(v: Seq<String>) -> Seq<Seq<char>> {
    v.map_values(|l: String| l@)
}

pub open spec fn stripped(v: Seq<Seq<char>>) -> Seq<Seq<char>> {
    v.map_values(|l: Seq<char>| strip_cr(l))
}

/// One line of a rendered diagnostic: a plain lead, a marker shown in the
/// gutter style, a plain gap and the text, shown in the highlight style where
/// `highlighted` is set.
pub struct ReportLine {
    pub lead: String,
    pub marker: String,
    pub gap: String,
    pub text: String,
    pub highlighted: bool,
}

pub type ReportLineView = (Seq<char>, Seq<char>, Seq<char>, Seq<char>, bool);

pub open spec fn report_line_view(l: ReportLine) -> ReportLineView {
    (l.lead@, l.marker@, l.gap@, l.text@, l.highlighted)
}

/// The report of a message of `lines` anchored at `line`: a header with an
/// arrow and the first line, an empty gutter line, the second line behind the
/// line number, each further line behind a gutter bar, and a blank line.
pub open spec fn report(line: nat, lines: Seq<Seq<char>>) -> Seq<ReportLineView> {
    let pad = spaces(digits(line));
    let header: Seq<ReportLineView> = if lines.len() == 0 {
        seq![]
    } else {
        seq![(pad, "--> "@, ""@, lines[0], false), (pad + " "@, "|"@, ""@, ""@, false)]
    };
    let body: Seq<ReportLineView> = Seq::new(
        if lines.len() == 0 {
            0
        } else {
            (lines.len() - 1) as nat
        },
        |k: int|
            if k == 0 {
                (""@, decimal(line) + " |"@, " "@, lines[1], true)
            } else {
                (pad + " "@, "|"@, " "@, lines[k + 1], true)
            },
    );
    header + body + seq![(""@, ""@, ""@, ""@, false)]
}

proof fn lemma_digits_bound(n: nat)
    ensures
        digits(n) >= 1,
        n >= 1 ==> digits(n) <= n,
        n >= 10 ==> digits(n) >= 2,
    decreases n,
{
    if n >= 10 {
        lemma_digits_bound(n / 10);
    }
}

/// Number of decimal digits of `n`.
pub fn decimal_width(n: usize) -> (r: usize)
    ensures
        r == digits(n as nat),
{
    proof {
        lemma_digits_bound(n as nat);
    }
    let mut m = n;
    let mut w: usize = 1;
    while m >= 10
        invariant
            w + digits(m as nat) == 1 + digits(n as nat),
            digits(n as nat) <= usize::MAX,
        decreases m,
    {
        proof {
            lemma_digits_bound(m as nat);
            lemma_digits_bound((m / 10) as nat);
        }
        m = m / 10;
        w = w + 1;
    }
    w
}

fn digit_text(d: usize) -> (r: &'static str)
    requires
        d < 10,
    ensures
        r@ == seq![digit_char(d as nat)],
{
    proof {
        reveal_strlit("0");
        reveal_strlit("1");
        reveal_strlit("2");
        reveal_strlit("3");
        reveal_strlit("4");
        reveal_strlit("5");
        reveal_strlit("6");
        reveal_strlit("7");
        reveal_strlit("8");
        reveal_strlit("9");
    }
    let r = if d == 0 {
        "0"
    } else if d == 1 {
        "1"
    } else if d == 2 {
        "2"
    } else if d == 3 {
        "3"
    } else if d == 4 {
        "4"
    } else if d == 5 {
        "5"
    } else if d == 6 {
        "6"
    } else if d == 7 {
        "7"
    } else if d == 8 {
        "8"
    } else {
        "9"
    };
    proof {
        assert(r@ =~= seq![digit_char(d as nat)]);
    }
    r
}

/// The decimal text of `n`.
pub fn decimal_text(n: usize) -> (r: String)
    ensures
        r@ == decimal(n as nat),
    decreases n,
{
    if n < 10 {
        String::from_str(digit_text(n))
    } else {
        let mut r = decimal_text(n / 10);
        r.append(digit_text(n % 10));
        r
    }
}

fn spaces_text(n: usize) -> (r: String)
    ensures
        r@ == spaces(n as nat),
{
    let mut r = String::new();
    let mut i: usize = 0;
    proof {
        reveal_strlit(" ");
        assert(r@ =~= spaces(0));
    }
    while i < n
        invariant
            i <= n,
            r@ == spaces(i as nat),
        decreases n - i,
    {
        r.append(" ");
        proof {
            reveal_strlit(" ");
            assert(r@ =~= spaces((i + 1) as nat));
        }
        i = i + 1;
    }
    r
}

/// Splits `text` into its lines.
pub fn split_lines(text: &str) -> (r: Vec<String>)
    ensures
        string_views(r@) == text_lines(text@),
{
    let n = text.unicode_len();
    let mut out: Vec<String> = Vec::new();
    let mut start: usize = 0;
    let mut i: usize = 0;
    let ghost raw: Seq<Seq<char>> = seq![];
    proof {
        assert(text@.take(0) =~= Seq::<char>::empty());
        assert(text@.subrange(0, 0) =~= Seq::<char>::empty());
        assert(split_newlines(text@.take(0)) =~= raw.push(text@.subrange(0, 0)));
        assert(string_views(out@) =~= stripped(raw));
    }
    while i < n
        invariant
            n == text@.len(),
            start <= i <= n,
            split_newlines(text@.take(i as int)) == raw.push(text@.subrange(start as int, i as int)),
            string_views(out@) == stripped(raw),
        decreases n - i,
    {
        let c = text.get_char(i);
        proof {
            assert(text@.take(i + 1).drop_last() =~= text@.take(i as int));
        }
        if c == '\n' {
            let piece = text.substring_char(start, i);
            let end = if i > start && piece.get_char(i - start - 1) == '\r' {
                i - 1
            } else {
                i
            };
            let line = text.substring_char(start, end).to_owned();
            let ghost old_out = out@;
            let ghost old_raw = raw;
            proof {
                assert(line@ =~= strip_cr(text@.subrange(start as int, i as int)));
                raw = raw.push(text@.subrange(start as int, i as int));
                assert(text@.subrange(i + 1, i + 1) =~= Seq::<char>::empty());
            }
            out.push(line);
            proof {
                assert(string_views(old_out).len() == stripped(old_raw).len());
                assert(out@.len() == old_out.len() + 1);
                assert(raw.len() == old_raw.len() + 1);
                assert(out@[old_out.len() as int] == line);
                assert(raw[old_raw.len() as int] == text@.subrange(start as int, i as int));
                assert forall|j: int| 0 <= j < out@.len() implies string_views(out@)[j]
                    == stripped(raw)[j] by {
                    if j < old_out.len() {
                        assert(string_views(old_out)[j] == stripped(old_raw)[j]);
                        assert(out@[j] == old_out[j]);
                        assert(raw[j] == old_raw[j]);
                    }
                }
                assert(string_views(out@) =~= stripped(raw));
            }
            start = i + 1;
        } else {
            proof {
                assert(text@.subrange(start as int, i as int).push(c) =~= text@.subrange(
                    start as int,
                    i + 1,
                ));
            }
        }
        i = i + 1;
    }
    proof {
        assert(text@.take(n as int) =~= text@);
        assert(split_newlines(text@).drop_last() == raw);
    }
    if start < n {
        let last = text.substring_char(start, n).to_owned();
        out.push(last);
        proof {
            assert(string_views(out@) =~= text_lines(text@));
        }
    } else {
        proof {
            assert(string_views(out@) =~= text_lines(text@));
        }
    }
    out
}

pub open spec fn report_views(v: Seq<ReportLine>) -> Seq<ReportLineView> {
    v.map_values(|l: ReportLine| report_line_view(l))
}

fn report_line(lead: String, marker: &str, gap: &str, text: String, highlighted: bool) -> (r:
    ReportLine)
    ensures
        report_line_view(r) == (lead@, marker@, gap@, text@, highlighted),
{
    ReportLine {
        lead,
        marker: String::from_str(marker),
        gap: String::from_str(gap),
        text,
        highlighted,
    }
}

/// Renders `message` as a report anchored at `line`.
pub fn render_report(line: usize, message: &str) -> (r: Vec<ReportLine>)
    ensures
        report_views(r@) == report(line as nat, text_lines(message@)),
{
    let lines = split_lines(message);
    let ghost ls = text_lines(message@);
    let ghost want = report(line as nat, ls);
    let n = lines.len();
    proof {
        assert(ls.len() == n);
        assert(forall|j: int| 0 <= j < n ==> lines@[j]@ == #[trigger] ls[j]) by {
            assert(forall|j: int| 0 <= j < n ==> string_views(lines@)[j] == lines@[j]@);
        }
    }
    let w = decimal_width(line);
    let pad = spaces_text(w);
    let mut out: Vec<ReportLine> = Vec::new();
    if n > 0 {
        out.push(report_line(pad.clone(), "--> ", "", lines[0].clone(), false));
        let mut lead = pad.clone();
        lead.append(" ");
        out.push(report_line(lead, "|", "", String::from_str(""), false));
    }
    let mut k: usize = 1;
    while k < n
        invariant
            n == lines@.len(),
            n == ls.len(),
            forall|j: int| 0 <= j < n ==> lines@[j]@ == #[trigger] ls[j],
            want == report(line as nat, ls),
            pad@ == spaces(digits(line as nat)),
            1 <= k,
            n > 0 ==> k <= n,
            out@.len() == if n > 0 {
                k + 1
            } else {
                0
            },
            forall|j: int| 0 <= j < out@.len() ==> report_line_view(#[trigger] out@[j]) == want[j],
        decreases n - k,
    {
        let ghost before = out@;
        if k == 1 {
            let mut marker = decimal_text(line);
            marker.append(" |");
            out.push(report_line(String::from_str(""), marker.as_str(), " ", lines[1].clone(), true));
        } else {
            let mut lead = pad.clone();
            lead.append(" ");
            out.push(report_line(lead, "|", " ", lines[k].clone(), true));
        }
        proof {
            assert(forall|j: int| 0 <= j < before.len() ==> out@[j] == before[j]);
        }
        k = k + 1;
    }
    out.push(report_line(String::from_str(""), "", "", String::from_str(""), false));
    proof {
        assert(want.len() == out@.len());
        assert(report_views(out@) =~= want);
    }
    out
}

/// The report of diagnostic `d`, anchored at the line of its start offset; or
/// `None` where that offset cannot be resolved, and the message is then shown
/// as it is.
pub fn render_diagnostic(index: &PositionIndex, d: &Diagnostic) -> (r: Option<Vec<ReportLine>>)
    requires
        index.wf(),
    ensures
        match r {
            Some(lines) => d.start >= 0 && (index.entry(d.file@) matches Some(ends) && (locate(
                ends,
                d.start as int,
            ) matches Some((line, _)) && report_views(lines@) == report(
                line as nat,
                text_lines(d.formatted_message@),
            ))),
            None => d.start < 0 || d.start > usize::MAX || index.entry(d.file@) is None || locate(
                index.entry(d.file@)->Some_0,
                d.start as int,
            ) is None,
        },
{
    if d.start < 0 || d.start as u64 > usize::MAX as u64 {
        return None;
    }
    match index.resolve(&d.file, d.start as usize) {
        Ok((line, _)) => Some(render_report(line, d.formatted_message.as_str())),
        Err(_) => None,
    }
}

} // verus!
