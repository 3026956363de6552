//! The info string that opens a fenced code block: its language, an optional
//! file name, and the lines to highlight.

use crate::text::{
    begins_with, chars_of, decimal, decimal_of, occurs_at_exec, push_chars, push_str,
    string_of,
};
use vstd::prelude::*;

verus! {

/// A character with the Unicode `White_Space` property.
pub open spec fn is_space(c: char) -> bool {
    ('\u{9}' <= c && c <= '\u{d}') || c == ' ' || c == '\u{85}' || c == '\u{a0}' || c == '\u{1680}'
        || ('\u{2000}' <= c && c <= '\u{200a}') || c == '\u{2028}' || c == '\u{2029}' || c
        == '\u{202f}' || c == '\u{205f}' || c == '\u{3000}'
}

fn is_space_exec(c: char) -> (r: bool)
    ensures
        r == is_space(c),
{
    ('\u{9}' <= c && c <= '\u{d}') || c == ' ' || c == '\u{85}' || c == '\u{a0}' || c == '\u{1680}'
        || ('\u{2000}' <= c && c <= '\u{200a}') || c == '\u{2028}' || c == '\u{2029}' || c
        == '\u{202f}' || c == '\u{205f}' || c == '\u{3000}'
}

/// The maximal runs of non-space characters of `s`, in order.
pub open spec fn words(s: Seq<char>) -> Seq<Seq<char>>
    decreases s.len(),
{
    if s.len() == 0 {
        Seq::empty()
    } else if is_space(s.last()) {
        words(s.drop_last())
    } else if s.len() >= 2 && !is_space(s[s.len() - 2]) {
        let w = words(s.drop_last());
        w.update(w.len() - 1, w.last().push(s.last()))
    } else {
        words(s.drop_last()).push(seq![s.last()])
    }
}

/// The pieces of `s` between occurrences of `sep`; an empty `s` is one empty piece.
pub open spec fn pieces(s: Seq<char>, sep: char) -> Seq<Seq<char>>
    decreases s.len(),
{
    if s.len() == 0 {
        seq![Seq::empty()]
    } else if s.last() == sep {
        pieces(s.drop_last(), sep).push(Seq::empty())
    } else {
        let p = pieces(s.drop_last(), sep);
        p.update(p.len() - 1, p.last().push(s.last()))
    }
}

proof fn lemma_pieces_nonempty(s: Seq<char>, sep: char)
    ensures
        pieces(s, sep).len() >= 1,
    decreases s.len(),
{
    if s.len() > 0 {
        lemma_pieces_nonempty(s.drop_last(), sep);
    }
}

/// The value of a run of decimal digits.
pub open spec fn digits_value(s: Seq<char>) -> nat
    decreases s.len(),
{
    if s.len() == 0 {
        0
    } else {
        digits_value(s.drop_last()) * 10 + (s.last() as nat - '0' as nat) as nat
    }
}

pub open spec fn all_digits(s: Seq<char>) -> bool {
    forall|i: int| 0 <= i < s.len() ==> '0' <= #[trigger] s[i] && s[i] <= '9'
}

/// The `usize` that `s` writes in decimal, with an optional leading `+`.
pub open spec fn usize_of(s: Seq<char>) -> Option<usize> {
    let d = if s.len() > 0 && s[0] == '+' {
        s.drop_first()
    } else {
        s
    };
    if d.len() > 0 && all_digits(d) && digits_value(d) <= usize::MAX {
        Some(digits_value(d) as usize)
    } else {
        None
    }
}

/// The numbers that parse among `ps`, in order.
pub open spec fn numbers_of(ps: Seq<Seq<char>>) -> Seq<usize>
    decreases ps.len(),
{
    if ps.len() == 0 {
        Seq::empty()
    } else {
        match usize_of(ps.last()) {
            Some(n) => numbers_of(ps.drop_last()).push(n),
            None => numbers_of(ps.drop_last()),
        }
    }
}

/// Parses a decimal `usize`, as `str::parse` does.
pub fn parse_usize(s: &Vec<char>) -> (r: Option<usize>)
    ensures
        r == usize_of(s@),
{
    let start: usize = if s.len() > 0 && s[0] == '+' {
        1
    } else {
        0
    };
    let ghost d = if s@.len() > 0 && s@[0] == '+' {
        s@.drop_first()
    } else {
        s@
    };
    assert(d =~= s@.subrange(start as int, s@.len() as int));
    if start == s.len() {
        return None;
    }
    let mut v: usize = 0;
    let mut i: usize = start;
    while i < s.len()
        invariant
            start <= i <= s.len(),
            d == s@.subrange(start as int, s@.len() as int),
            d == (if s@.len() > 0 && s@[0] == '+' {
                s@.drop_first()
            } else {
                s@
            }),
            d.len() > 0,
            all_digits(s@.subrange(start as int, i as int)),
            v == digits_value(s@.subrange(start as int, i as int)),
        decreases s.len() - i,
    {
        let ghost pre = s@.subrange(start as int, i + 1);
        assert(pre.drop_last() =~= s@.subrange(start as int, i as int));
        let c = s[i];
        if !('0' <= c && c <= '9') {
            assert(d[i - start] == c);
            assert(!all_digits(d));
            return None;
        }
        let digit: usize = (c as u32 - '0' as u32) as usize;
        let next = match v.checked_mul(10) {
            Some(m) => m.checked_add(digit),
            None => None,
        };
        match next {
            Some(n) => {
                v = n;
            },
            None => {
                proof {
                    let prefix = s@.subrange(start as int, i + 1);
                    assert(prefix.last() == c);
                    assert(digits_value(prefix) == v * 10 + digit);
                    if all_digits(d) {
                        assert(d.subrange(0, i - start + 1) =~= prefix);
                        lemma_digits_prefix_bound(d, i - start + 1);
                    }
                }
                return None;
            },
        }
        i = i + 1;
    }
    assert(s@.subrange(start as int, i as int) =~= d);
    Some(v)
}

/// A run of digits is worth at least any of its prefixes.
proof fn lemma_digits_prefix_bound(d: Seq<char>, k: int)
    requires
        0 <= k <= d.len(),
        all_digits(d),
    ensures
        digits_value(d) >= digits_value(d.subrange(0, k)),
    decreases d.len(),
{
    if k < d.len() {
        assert(d.drop_last() =~= d.subrange(0, d.len() - 1));
        assert(all_digits(d.drop_last()));
        assert(d.drop_last().subrange(0, k) =~= d.subrange(0, k));
        lemma_digits_prefix_bound(d.drop_last(), k);
    } else {
        assert(d.subrange(0, k) =~= d);
    }
}

/// The views of a list of character vectors.
pub open spec fn seqs_of(v: Seq<Vec<char>>) -> Seq<Seq<char>> {
    v.map_values(|w: Vec<char>| w@)
}

/// Splits `s` into its maximal runs of non-space characters.
pub fn split_words(s: &Vec<char>) -> (r: Vec<Vec<char>>)
    ensures
        seqs_of(r@) == words(s@),
{
    let mut out: Vec<Vec<char>> = Vec::new();
    let mut cur: Vec<char> = Vec::new();
    let mut i: usize = 0;
    while i < s.len()
        invariant
            i <= s.len(),
            cur@.len() > 0 <==> (i > 0 && !is_space(s@[i - 1])),
            words(s@.subrange(0, i as int)) == if cur@.len() > 0 {
                seqs_of(out@).push(cur@)
            } else {
                seqs_of(out@)
            },
        decreases s.len() - i,
    {
        let ghost t = s@.subrange(0, i + 1);
        assert(t.drop_last() =~= s@.subrange(0, i as int));
        let c = s[i];
        if is_space_exec(c) {
            if cur.len() > 0 {
                let ghost before = seqs_of(out@);
                let ghost cv = cur@;
                out.push(cur);
                assert(seqs_of(out@) =~= before.push(cv));
                cur = Vec::new();
            }
        } else {
            let ghost before = seqs_of(out@);
            let ghost cv = cur@;
            if cur.len() > 0 {
                assert(t[t.len() - 2] == s@[i - 1]);
            }
            cur.push(c);
            assert(cur@ =~= cv.push(c));
            proof {
                if cv.len() > 0 {
                    assert(before.push(cv).update(before.len() as int, cv.push(c)) =~= before.push(
                        cur@,
                    ));
                } else {
                    assert(cur@ =~= seq![c]);
                }
            }
        }
        i = i + 1;
    }
    assert(s@.subrange(0, s@.len() as int) =~= s@);
    if cur.len() > 0 {
        let ghost before = seqs_of(out@);
        let ghost cv = cur@;
        out.push(cur);
        assert(seqs_of(out@) =~= before.push(cv));
    }
    out
}

/// Splits `s` at each `sep`.
pub fn split_pieces(s: &Vec<char>, sep: char) -> (r: Vec<Vec<char>>)
    ensures
        seqs_of(r@) == pieces(s@, sep),
{
    let mut out: Vec<Vec<char>> = Vec::new();
    let mut cur: Vec<char> = Vec::new();
    let mut i: usize = 0;
    assert(s@.subrange(0, 0) =~= Seq::<char>::empty());
    assert(seqs_of(out@).push(cur@) =~= seq![Seq::<char>::empty()]);
    while i < s.len()
        invariant
            i <= s.len(),
            pieces(s@.subrange(0, i as int), sep) == seqs_of(out@).push(cur@),
        decreases s.len() - i,
    {
        let ghost t = s@.subrange(0, i + 1);
        assert(t.drop_last() =~= s@.subrange(0, i as int));
        let c = s[i];
        let ghost before = seqs_of(out@);
        let ghost cv = cur@;
        if c == sep {
            out.push(cur);
            assert(seqs_of(out@) =~= before.push(cv));
            cur = Vec::new();
            assert(seqs_of(out@).push(cur@) =~= before.push(cv).push(Seq::empty()));
        } else {
            cur.push(c);
            assert(before.push(cv).update(before.len() as int, cv.push(c)) =~= before.push(cur@));
        }
        i = i + 1;
    }
    assert(s@.subrange(0, s@.len() as int) =~= s@);
    let ghost before = seqs_of(out@);
    let ghost cv = cur@;
    out.push(cur);
    assert(seqs_of(out@) =~= before.push(cv));
    out
}

/// The numbers among the comma-separated pieces of `s`; pieces that are not
/// numbers are skipped.
pub fn parse_line_numbers(s: &Vec<char>) -> (r: Vec<usize>)
    ensures
        r@ == numbers_of(pieces(s@, ',')),
{
    let ps = split_pieces(s, ',');
    let ghost pv = seqs_of(ps@);
    let mut r: Vec<usize> = Vec::new();
    let mut i: usize = 0;
    while i < ps.len()
        invariant
            i <= ps.len(),
            pv == seqs_of(ps@),
            r@ == numbers_of(pv.subrange(0, i as int)),
        decreases ps.len() - i,
    {
        assert(pv.subrange(0, i + 1).drop_last() =~= pv.subrange(0, i as int));
        assert(pv[i as int] == ps@[i as int]@);
        match parse_usize(&ps[i]) {
            Some(n) => {
                r.push(n);
            },
            None => {},
        }
        i = i + 1;
    }
    assert(pv.subrange(0, pv.len() as int) =~= pv);
    r
}

/// The options written after a code fence.
#[derive(Debug, Default)]
pub struct CodeBlockOpen {
    pub lang: Option<String>,
    pub filename: Option<String>,
    pub highlights: Option<Vec<usize>>,
}

pub struct CodeBlockOpenView {
    pub lang: Option<Seq<char>>,
    pub filename: Option<Seq<char>>,
    pub highlights: Option<Seq<usize>>,
}

impl View for CodeBlockOpen {
    type V = CodeBlockOpenView;

    open spec fn view(&self) -> CodeBlockOpenView {
        CodeBlockOpenView {
            lang: crate::text::opt_view(self.lang),
            filename: crate::text::opt_view(self.filename),
            highlights: match self.highlights {
                Some(v) => Some(v@),
                None => None,
            },
        }
    }
}

pub open spec fn filename_prefix() -> Seq<char> {
    seq!['f', 'i', 'l', 'e', 'n', 'a', 'm', 'e', '=']
}

pub open spec fn highlight_prefix() -> Seq<char> {
    seq!['h', 'i', 'g', 'h', 'l', 'i', 'g', 'h', 't', '=']
}

/// The options after reading one more word of the info string: a word
/// without `=` names the language, `filename=` gives the file name,
/// `highlight=` the lines to highlight (none if no line number parses), and
/// any other word changes nothing.
pub open spec fn with_word(o: CodeBlockOpenView, p: Seq<char>) -> CodeBlockOpenView {
    if !p.contains('=') {
        CodeBlockOpenView { lang: Some(p), ..o }
    } else if begins_with(p, filename_prefix()) {
        CodeBlockOpenView { filename: Some(p.subrange(9, p.len() as int)), ..o }
    } else if begins_with(p, highlight_prefix()) {
        let ns = numbers_of(pieces(p.subrange(10, p.len() as int), ','));
        CodeBlockOpenView {
            highlights: if ns.len() == 0 {
                None
            } else {
                Some(ns)
            },
            ..o
        }
    } else {
        o
    }
}

/// The options that the words `ws` give, read in order.
pub open spec fn open_of(ws: Seq<Seq<char>>) -> CodeBlockOpenView
    decreases ws.len(),
{
    if ws.len() == 0 {
        CodeBlockOpenView { lang: None, filename: None, highlights: None }
    } else {
        with_word(open_of(ws.drop_last()), ws.last())
    }
}

/// Whether `v` holds `c`.
fn holds_char(v: &Vec<char>, c: char) -> (r: bool)
    ensures
        r == v@.contains(c),
{
    let mut i: usize = 0;
    while i < v.len()
        invariant
            i <= v.len(),
            forall|j: int| 0 <= j < i ==> v@[j] != c,
        decreases v.len() - i,
    {
        if v[i] == c {
            return true;
        }
        i = i + 1;
    }
    false
}

/// The part of `v` from position `from` on.
fn tail_from(v: &Vec<char>, from: usize) -> (r: Vec<char>)
    requires
        from <= v.len(),
    ensures
        r@ == v@.subrange(from as int, v@.len() as int),
{
    let mut r: Vec<char> = Vec::new();
    let mut i: usize = from;
    while i < v.len()
        invariant
            from <= i <= v.len(),
            r@ == v@.subrange(from as int, i as int),
        decreases v.len() - i,
    {
        r.push(v[i]);
        assert(r@ =~= v@.subrange(from as int, i + 1));
        i = i + 1;
    }
    r
}

/// Reads the info string of a code fence.
pub fn parse_codeblock_open(info: &str) -> (r: CodeBlockOpen)
    ensures
        r@ == open_of(words(info@)),
{
    let chars = chars_of(info);
    let parts = split_words(&chars);
    let ghost ws = seqs_of(parts@);
    let filename_eq = vec!['f', 'i', 'l', 'e', 'n', 'a', 'm', 'e', '='];
    let highlight_eq = vec!['h', 'i', 'g', 'h', 'l', 'i', 'g', 'h', 't', '='];
    assert(filename_eq@ =~= filename_prefix());
    assert(highlight_eq@ =~= highlight_prefix());
    let mut o = CodeBlockOpen { lang: None, filename: None, highlights: None };
    let mut i: usize = 0;
    while i < parts.len()
        invariant
            i <= parts.len(),
            ws == seqs_of(parts@),
            ws == words(info@),
            filename_eq@ == filename_prefix(),
            highlight_eq@ == highlight_prefix(),
            o@ == open_of(ws.subrange(0, i as int)),
        decreases parts.len() - i,
    {
        assert(ws.subrange(0, i + 1).drop_last() =~= ws.subrange(0, i as int));
        let p = &parts[i];
        assert(ws[i as int] == p@);
        if !holds_char(p, '=') {
            o.lang = Some(string_of(p));
        } else if occurs_at_exec(p, 0, &filename_eq) {
            let name = tail_from(p, 9);
            o.filename = Some(string_of(&name));
        } else if occurs_at_exec(p, 0, &highlight_eq) {
            let lines = tail_from(p, 10);
            let highlight = parse_line_numbers(&lines);
            if highlight.len() == 0 {
                o.highlights = None;
            } else {
                o.highlights = Some(highlight);
            }
        }
        i = i + 1;
    }
    assert(ws.subrange(0, ws.len() as int) =~= ws);
    o
}

/// The markup that opens a code block: the file name, if any, then the
/// opening of the block, classed by its language, if any.
pub open spec fn open_markup(o: CodeBlockOpenView) -> Seq<char> {
    let name = match o.filename {
        Some(f) => "<span class=\"pre-filename\">"@ + f + "</span>"@,
        None => Seq::empty(),
    };
    let pre = match o.lang {
        Some(l) => "<pre class=\"lang-"@ + l + "\"><code>"@,
        None => "<pre><code>"@,
    };
    name + pre
}

pub fn codeblock_open_html(o: &CodeBlockOpen) -> (r: String)
    ensures
        r@ == open_markup(o@),
{
    let mut r = String::new();
    match &o.filename {
        Some(f) => {
            push_str(&mut r, "<span class=\"pre-filename\">");
            push_str(&mut r, f.as_str());
            push_str(&mut r, "</span>");
        },
        None => {},
    }
    match &o.lang {
        Some(l) => {
            push_str(&mut r, "<pre class=\"lang-");
            push_str(&mut r, l.as_str());
            push_str(&mut r, "\"><code>");
        },
        None => {
            push_str(&mut r, "<pre><code>");
        },
    }
    proof {
        let name = match o@.filename {
            Some(f) => "<span class=\"pre-filename\">"@ + f + "</span>"@,
            None => Seq::empty(),
        };
        assert(r@ =~= name + (match o@.lang {
            Some(l) => "<pre class=\"lang-"@ + l + "\"><code>"@,
            None => "<pre><code>"@,
        }));
    }
    r
}

/// Line `n` is one of the lines to highlight.
pub open spec fn is_highlighted(hl: Option<Seq<usize>>, n: nat) -> bool {
    hl is Some && exists|i: int| 0 <= i < hl->0.len() && (#[trigger] hl->0[i]) as int == n as int
}

/// The markup of line number `n` of a highlighted code block.
pub open spec fn line_markup(n: nat, line: Seq<char>, hl: Option<Seq<usize>>) -> Seq<char> {
    let on = is_highlighted(hl, n);
    "<div class=\"line"@ + (if on {
        " line-highlight\">"@
    } else {
        "\">"@
    }) + "<span class=\"line-nb\">"@ + decimal_of(n) + "</span>"@ + line + (if on {
        "</span>"@
    } else {
        Seq::empty()
    }) + "</div>"@
}

/// The markup of `lines`, numbered from one.
pub open spec fn numbered(lines: Seq<Seq<char>>, hl: Option<Seq<usize>>) -> Seq<char>
    decreases lines.len(),
{
    if lines.len() == 0 {
        Seq::empty()
    } else {
        numbered(lines.drop_last(), hl) + line_markup(lines.len() as nat, lines.last(), hl)
    }
}

proof fn lemma_highlighted_at(v: Seq<usize>, i: int, n: nat)
    requires
        0 <= i < v.len(),
        v[i] as int == n as int,
    ensures
        is_highlighted(Some(v), n),
{
    assert(Some(v)->0[i] as int == n as int);
}

fn holds_number(v: &Vec<usize>, n: usize) -> (r: bool)
    ensures
        r == is_highlighted(Some(v@), n as nat),
{
    let mut i: usize = 0;
    while i < v.len()
        invariant
            i <= v.len(),
            forall|j: int| 0 <= j < i ==> v@[j] != n,
        decreases v.len() - i,
    {
        if v[i] == n {
            proof {
                lemma_highlighted_at(v@, i as int, n as nat);
            }
            return true;
        }
        i = i + 1;
    }
    false
}

fn highlights_line(hl: &Option<Vec<usize>>, n: usize) -> (r: bool)
    ensures
        r == is_highlighted(
            match hl {
                Some(v) => Some(v@),
                None => None,
            },
            n as nat,
        ),
{
    match hl {
        Some(v) => holds_number(v, n),
        None => false,
    }
}

/// Numbers the lines of highlighted code: each line of `html` but the last
/// (which follows the final line break) becomes a numbered `div`, marked
/// where its number is among `highlights`.
pub fn number_lines(html: &str, highlights: &Option<Vec<usize>>) -> (r: String)
    ensures
        r@ == numbered(
            pieces(html@, '\n').drop_last(),
            match highlights {
                Some(v) => Some(v@),
                None => None,
            },
        ),
{
    let ghost hl = match highlights {
        Some(v) => Some(v@),
        None => None,
    };
    let chars = chars_of(html);
    let lines = split_pieces(&chars, '\n');
    proof {
        lemma_pieces_nonempty(html@, '\n');
    }
    let ghost ls = seqs_of(lines@);
    let count = lines.len() - 1;
    let mut r = String::new();
    let mut j: usize = 0;
    while j < count
        invariant
            j <= count,
            count == lines.len() - 1,
            ls == seqs_of(lines@),
            ls == pieces(html@, '\n'),
            hl == match highlights {
                Some(v) => Some(v@),
                None => None,
            },
            r@ == numbered(ls.subrange(0, j as int), hl),
        decreases count - j,
    {
        let ghost before = r@;
        assert(ls.subrange(0, j + 1).drop_last() =~= ls.subrange(0, j as int));
        assert(ls[j as int] == lines@[j as int]@);
        let n = j + 1;
        let on = highlights_line(highlights, n);
        push_str(&mut r, "<div class=\"line");
        if on {
            push_str(&mut r, " line-highlight\">");
        } else {
            push_str(&mut r, "\">");
        }
        push_str(&mut r, "<span class=\"line-nb\">");
        let digits = decimal(n);
        push_chars(&mut r, &digits);
        push_str(&mut r, "</span>");
        push_chars(&mut r, &lines[j]);
        if on {
            push_str(&mut r, "</span>");
        }
        push_str(&mut r, "</div>");
        assert(r@ =~= before + line_markup(n as nat, ls[j as int], hl));
        j = j + 1;
    }
    assert(ls.subrange(0, count as int) =~= ls.drop_last());
    r
}

} // verus!
