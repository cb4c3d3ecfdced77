//! Lexical layer: a document is cut into lines, a line into whitespace-separated tokens.

use vstd::prelude::*;
use vstd::std_specs::iter::IteratorSpec;

verus! {

/// Unicode `White_Space`, the characters that `char::is_whitespace` accepts.
pub open spec fn is_space(c: char) -> bool {
    let n = c as u32;
    (0x09 <= n && n <= 0x0D) || n == 0x20 || n == 0x85 || n == 0xA0 || n == 0x1680
        || (0x2000 <= n && n <= 0x200A) || n == 0x2028 || n == 0x2029 || n == 0x202F
        || n == 0x205F || n == 0x3000
}

/// Whether `c` ends a piece: a newline when cutting lines, whitespace when cutting tokens.
pub open spec fn cuts(c: char, by_line: bool) -> bool {
    if by_line {
        c == '\n'
    } else {
        is_space(c)
    }
}

/// The pieces between the cutting characters of `s`, empty ones included,
/// so that `n` cutting characters give `n + 1` pieces.
pub open spec fn pieces(s: Seq<char>, by_line: bool) -> Seq<Seq<char>>
    decreases s.len(),
{
    if s.len() == 0 {
        seq![Seq::empty()]
    } else {
        let p = pieces(s.drop_last(), by_line);
        if cuts(s.last(), by_line) {
            p.push(Seq::empty())
        } else {
            p.update(p.len() - 1, p.last().push(s.last()))
        }
    }
}

/// There is at least one piece, and at most one more than there are characters.
proof fn lemma_pieces_len(s: Seq<char>, by_line: bool)
    ensures
        pieces(s, by_line).len() >= 1,
        pieces(s, by_line).len() <= s.len() + 1,
    decreases s.len(),
{
    if s.len() > 0 {
        lemma_pieces_len(s.drop_last(), by_line);
    }
}

/// The lines of a document, blank ones included.
pub open spec fn lines_of(doc: Seq<char>) -> Seq<Seq<char>> {
    pieces(doc, true)
}

/// The tokens of a line: its runs of non-whitespace characters, in order.
pub open spec fn tokens_of(line: Seq<char>) -> Seq<Seq<char>> {
    pieces(line, false).filter(|w: Seq<char>| w.len() > 0)
}

/// One tokenized line: its 1-based number, its text and its tokens.
pub type LineModel = (int, Seq<char>, Seq<Seq<char>>);

/// The non-blank lines among the first `n` of `lines`, each with its 1-based
/// number, its text and its tokens, in order.
pub open spec fn retained(lines: Seq<Seq<char>>, n: int) -> Seq<LineModel>
    decreases n,
{
    if n <= 0 {
        seq![]
    } else {
        let r = retained(lines, n - 1);
        let t = tokens_of(lines[n - 1]);
        if t.len() > 0 {
            r.push((n, lines[n - 1], t))
        } else {
            r
        }
    }
}

/// What a document tokenizes to: one entry per non-blank line.
pub open spec fn tokenized(doc: Seq<char>) -> Seq<LineModel> {
    retained(lines_of(doc), lines_of(doc).len() as int)
}

/// The tokens of one non-blank line of a document: the line's 1-based number,
/// the line as it stands in the document, its first token (the mnemonic) and
/// the tokens after it.
#[derive(Debug, Clone, PartialEq, Eq)]
pub struct LineTokens {
    pub line: usize,
    pub text: String,
    pub mnemonic: String,
    pub arguments: Vec<String>,
}

/// The texts of a sequence of strings.
pub open spec fn texts(v: Seq<String>) -> Seq<Seq<char>> {
    v.map_values(|s: String| s@)
}

impl View for LineTokens {
    type V = LineModel;

    /// The line number, the line, and all tokens of the line, the mnemonic first.
    open spec fn view(&self) -> LineModel {
        (self.line as int, self.text@, seq![self.mnemonic@] + texts(self.arguments@))
    }
}

/// Whether `c` is a whitespace character.
pub fn is_space_char(c: char) -> (r: bool)
    ensures
        r == is_space(c),
{
    let n = c as u32;
    (0x09 <= n && n <= 0x0D) || n == 0x20 || n == 0x85 || n == 0xA0 || n == 0x1680
        || (0x2000 <= n && n <= 0x200A) || n == 0x2028 || n == 0x2029 || n == 0x202F
        || n == 0x205F || n == 0x3000
}

/// Whether `c` ends a piece.
fn cuts_at(c: char, by_line: bool) -> (r: bool)
    ensures
        r == cuts(c, by_line),
{
    if by_line {
        c == '\n'
    } else {
        is_space_char(c)
    }
}

/// The bounds, as character indices into `cs`, of the pieces of `cs[from..to]`.
fn piece_bounds(cs: &Vec<char>, from: usize, to: usize, by_line: bool) -> (r: Vec<(usize, usize)>)
    requires
        from <= to <= cs.len(),
    ensures
        r.len() == pieces(cs@.subrange(from as int, to as int), by_line).len(),
        forall|k: int|
            #![trigger r@[k]]
            0 <= k < r.len() ==> {
                &&& from <= r[k].0 <= r[k].1 <= to
                &&& cs@.subrange(r[k].0 as int, r[k].1 as int) == pieces(
                    cs@.subrange(from as int, to as int),
                    by_line,
                )[k]
            },
{
    let mut r: Vec<(usize, usize)> = Vec::new();
    let mut start: usize = from;
    let mut i: usize = from;
    proof {
        assert(cs@.subrange(from as int, from as int) =~= Seq::<char>::empty());
    }
    while i < to
        invariant
            from <= start <= i <= to <= cs.len(),
            r.len() + 1 == pieces(cs@.subrange(from as int, i as int), by_line).len(),
            forall|k: int|
                #![trigger r@[k]]
                0 <= k < r.len() ==> {
                    &&& from <= r[k].0
                    &&& r[k].0 <= r[k].1
                    &&& r[k].1 <= i
                    &&& cs@.subrange(r[k].0 as int, r[k].1 as int) == pieces(
                        cs@.subrange(from as int, i as int),
                        by_line,
                    )[k]
                },
            cs@.subrange(start as int, i as int) == pieces(
                cs@.subrange(from as int, i as int),
                by_line,
            ).last(),
        decreases to - i,
    {
        let ghost before = cs@.subrange(from as int, i as int);
        let ghost after = cs@.subrange(from as int, i + 1);
        proof {
            assert(after.drop_last() =~= before);
            assert(after.last() == cs@[i as int]);
            lemma_pieces_len(before, by_line);
        }
        let ghost old_r = r@;
        let ghost old_start = start;
        if cuts_at(cs[i], by_line) {
            r.push((start, i));
            start = i + 1;
            proof {
                assert(cs@.subrange(start as int, i + 1) =~= Seq::<char>::empty());
            }
        } else {
            proof {
                assert(cs@.subrange(start as int, i + 1) =~= cs@.subrange(
                    start as int,
                    i as int,
                ).push(cs@[i as int]));
            }
        }
        proof {
            let p = pieces(before, by_line);
            assert forall|k: int| 0 <= k < old_r.len() implies pieces(after, by_line)[k] == p[k]
                && r@[k] == old_r[k] by {}
            if r.len() > old_r.len() {
                assert(r@[old_r.len() as int] == (old_start, i));
                assert(pieces(after, by_line)[old_r.len() as int] == p.last());
            }
        }
        i = i + 1;
    }
    let ghost old_r = r@;
    r.push((start, to));
    proof {
        let p = pieces(cs@.subrange(from as int, to as int), by_line);
        assert(r@[old_r.len() as int] == (start, to));
        assert(p.len() == r.len());
        assert forall|k: int| 0 <= k < r.len() implies from <= r[k].0 <= r[k].1 <= to
            && cs@.subrange(r[k].0 as int, r[k].1 as int) == p[k] by {
            if k < old_r.len() {
                assert(r@[k] == old_r[k]);
            }
        }
    }
    r
}

/// Whether a line holds nothing but whitespace.
pub open spec fn is_blank(line: Seq<char>) -> bool {
    forall|i: int| 0 <= i < line.len() ==> is_space(#[trigger] line[i])
}

/// Whether `w` can stand as a token: non-empty, without whitespace.
pub open spec fn is_token(w: Seq<char>) -> bool {
    w.len() > 0 && forall|i: int| 0 <= i < w.len() ==> !is_space(#[trigger] w[i])
}

/// Tokens written out with one space between each two.
pub open spec fn joined(ts: Seq<Seq<char>>) -> Seq<char>
    decreases ts.len(),
{
    if ts.len() == 0 {
        Seq::empty()
    } else if ts.len() == 1 {
        ts[0]
    } else {
        joined(ts.drop_last()) + seq![' '] + ts.last()
    }
}

/// All pieces are empty exactly when every character cuts.
proof fn lemma_pieces_all_empty(s: Seq<char>, by_line: bool)
    ensures
        (forall|k: int| 0 <= k < pieces(s, by_line).len() ==> #[trigger] pieces(s, by_line)[k].len() == 0)
            <==> (forall|i: int| 0 <= i < s.len() ==> cuts(#[trigger] s[i], by_line)),
    decreases s.len(),
{
    if s.len() > 0 {
        let t = s.drop_last();
        lemma_pieces_all_empty(t, by_line);
        lemma_pieces_len(t, by_line);
        let p = pieces(t, by_line);
        let q = pieces(s, by_line);
        if cuts(s.last(), by_line) {
            if forall|i: int| 0 <= i < t.len() ==> cuts(#[trigger] t[i], by_line) {
                assert forall|i: int| 0 <= i < s.len() implies cuts(#[trigger] s[i], by_line) by {
                    if i < t.len() {
                        assert(s[i] == t[i]);
                    }
                }
            } else {
                let i = choose|i: int| 0 <= i < t.len() && !cuts(#[trigger] t[i], by_line);
                assert(s[i] == t[i]);
                let k = choose|k: int| 0 <= k < p.len() && #[trigger] p[k].len() != 0;
                assert(q[k] == p[k]);
            }
        } else {
            assert(q[q.len() - 1].len() > 0);
        }
    }
}

/// Keeping the non-empty pieces keeps nothing when all are empty, and everything when none is.
proof fn lemma_filter_nonempty(ps: Seq<Seq<char>>)
    ensures
        ps.filter(|w: Seq<char>| w.len() > 0).len() == 0 <==> (forall|k: int|
            0 <= k < ps.len() ==> #[trigger] ps[k].len() == 0),
        (forall|k: int| 0 <= k < ps.len() ==> #[trigger] ps[k].len() > 0) ==> ps.filter(
            |w: Seq<char>| w.len() > 0,
        ) == ps,
    decreases ps.len(),
{
    reveal(Seq::filter);
    if ps.len() > 0 {
        let t = ps.drop_last();
        lemma_filter_nonempty(t);
        assert forall|k: int| 0 <= k < t.len() implies #[trigger] t[k] == ps[k] by {}
        assert(t.push(ps.last()) =~= ps);
    }
}

/// A line is blank exactly when it has no tokens.
pub proof fn lemma_blank_iff_no_tokens(line: Seq<char>)
    ensures
        tokens_of(line).len() == 0 <==> is_blank(line),
{
    lemma_pieces_all_empty(line, false);
    lemma_filter_nonempty(pieces(line, false));
}

/// The first `n` lines yield one entry per non-blank line among them.
proof fn lemma_retained_count(lines: Seq<Seq<char>>, n: int)
    requires
        0 <= n <= lines.len(),
    ensures
        retained(lines, n).len() == lines.take(n).filter(|l: Seq<char>| !is_blank(l)).len(),
    decreases n,
{
    if n > 0 {
        lemma_retained_count(lines, n - 1);
        lemma_blank_iff_no_tokens(lines[n - 1]);
        assert(lines.take(n - 1).push(lines[n - 1]) =~= lines.take(n));
        lines.take(n - 1).lemma_filter_push(lines[n - 1], |l: Seq<char>| !is_blank(l));
    }
}

/// A document yields one tokenized line per line that is not blank.
pub proof fn lemma_one_entry_per_nonblank_line(doc: Seq<char>)
    ensures
        tokenized(doc).len() == lines_of(doc).filter(|l: Seq<char>| !is_blank(l)).len(),
{
    let lines = lines_of(doc);
    lemma_retained_count(lines, lines.len() as int);
    assert(lines.take(lines.len() as int) =~= lines);
}

/// The entries from the first `n` lines are in line order, and each holds its line and tokens.
proof fn lemma_retained_lines(lines: Seq<Seq<char>>, n: int)
    requires
        0 <= n <= lines.len(),
    ensures
        forall|i: int, j: int|
            0 <= i < j < retained(lines, n).len() ==> #[trigger] retained(lines, n)[i].0
                < #[trigger] retained(lines, n)[j].0,
        forall|i: int|
            0 <= i < retained(lines, n).len() ==> {
                let e = #[trigger] retained(lines, n)[i];
                &&& 1 <= e.0 <= n
                &&& e.1 == lines[e.0 - 1]
                &&& e.2 == tokens_of(e.1)
                &&& e.2.len() > 0
            },
    decreases n,
{
    if n > 0 {
        lemma_retained_lines(lines, n - 1);
        let r = retained(lines, n - 1);
        let q = retained(lines, n);
        assert forall|i: int| 0 <= i < r.len() implies #[trigger] q[i] == r[i] by {}
        if q.len() > r.len() {
            assert(q[r.len() as int] == (n, lines[n - 1], tokens_of(lines[n - 1])));
        }
        assert forall|i: int, j: int| 0 <= i < j < q.len() implies #[trigger] q[i].0
            < #[trigger] q[j].0 by {
            assert(q[i] == r[i]);
            if j < r.len() {
                assert(q[j] == r[j]);
            }
        }
    }
}

/// The tokenized lines come in the order of the document, each with the
/// number of the line that it comes from, that line's text, and its tokens.
pub proof fn lemma_entries_follow_lines(doc: Seq<char>)
    ensures
        forall|i: int, j: int|
            0 <= i < j < tokenized(doc).len() ==> #[trigger] tokenized(doc)[i].0
                < #[trigger] tokenized(doc)[j].0,
        forall|i: int|
            0 <= i < tokenized(doc).len() ==> {
                let e = #[trigger] tokenized(doc)[i];
                &&& 1 <= e.0 <= lines_of(doc).len()
                &&& e.1 == lines_of(doc)[e.0 - 1]
                &&& e.2 == tokens_of(e.1)
                &&& e.2.len() > 0
            },
{
    lemma_retained_lines(lines_of(doc), lines_of(doc).len() as int);
}

/// Characters that do not cut extend the last piece.
proof fn lemma_pieces_append(s: Seq<char>, w: Seq<char>, by_line: bool)
    requires
        forall|i: int| 0 <= i < w.len() ==> !cuts(#[trigger] w[i], by_line),
    ensures
        pieces(s + w, by_line) == pieces(s, by_line).update(
            pieces(s, by_line).len() - 1,
            pieces(s, by_line).last() + w,
        ),
    decreases w.len(),
{
    lemma_pieces_len(s, by_line);
    if w.len() == 0 {
        assert(s + w =~= s);
        assert(pieces(s, by_line).last() + w =~= pieces(s, by_line).last());
        assert(pieces(s, by_line).update(pieces(s, by_line).len() - 1, pieces(s, by_line).last())
            =~= pieces(s, by_line));
    } else {
        let v = w.drop_last();
        lemma_pieces_append(s, v, by_line);
        assert((s + w).drop_last() =~= s + v);
        assert((s + w).last() == w.last());
        assert(!cuts(w[w.len() - 1], by_line));
        lemma_pieces_len(s + v, by_line);
        assert((pieces(s, by_line).last() + v).push(w.last()) =~= pieces(s, by_line).last() + w);
        assert(pieces(s + w, by_line) =~= pieces(s, by_line).update(
            pieces(s, by_line).len() - 1,
            pieces(s, by_line).last() + w,
        ));
    }
}

/// Tokens joined by single spaces are cut back into the same tokens.
proof fn lemma_pieces_of_joined(ts: Seq<Seq<char>>)
    requires
        ts.len() > 0,
        forall|k: int| 0 <= k < ts.len() ==> is_token(#[trigger] ts[k]),
    ensures
        pieces(joined(ts), false) == ts,
    decreases ts.len(),
{
    let w = ts.last();
    assert forall|i: int| 0 <= i < w.len() implies !cuts(#[trigger] w[i], false) by {
        assert(is_token(ts[ts.len() - 1]));
    }
    if ts.len() == 1 {
        lemma_pieces_append(Seq::empty(), w, false);
        assert(Seq::<char>::empty() + w =~= w);
        assert(pieces(joined(ts), false) =~= ts);
    } else {
        let t = ts.drop_last();
        assert forall|k: int| 0 <= k < t.len() implies is_token(#[trigger] t[k]) by {
            assert(t[k] == ts[k]);
        }
        lemma_pieces_of_joined(t);
        let j = joined(t) + seq![' '];
        assert(j.drop_last() =~= joined(t));
        lemma_pieces_append(j, w, false);
        assert(Seq::<char>::empty() + w =~= w);
        assert(pieces(joined(ts), false) =~= ts);
    }
}

/// Tokens joined by single spaces hold no newline.
proof fn lemma_joined_one_line(ts: Seq<Seq<char>>)
    requires
        forall|k: int| 0 <= k < ts.len() ==> is_token(#[trigger] ts[k]),
    ensures
        forall|i: int| 0 <= i < joined(ts).len() ==> !cuts(#[trigger] joined(ts)[i], true),
    decreases ts.len(),
{
    if ts.len() == 1 {
        assert(is_token(ts[0]));
    } else if ts.len() > 1 {
        let t = ts.drop_last();
        assert forall|k: int| 0 <= k < t.len() implies is_token(#[trigger] t[k]) by {
            assert(t[k] == ts[k]);
        }
        lemma_joined_one_line(t);
        assert(is_token(ts[ts.len() - 1]));
        let j = joined(ts);
        assert forall|i: int| 0 <= i < j.len() implies !cuts(#[trigger] j[i], true) by {
            if i < joined(t).len() {
                assert(j[i] == joined(t)[i]);
            } else if i > joined(t).len() {
                assert(j[i] == ts.last()[i - joined(t).len() - 1]);
            }
        }
    }
}

/// No piece holds a cutting character.
proof fn lemma_pieces_are_tokens(s: Seq<char>, by_line: bool)
    ensures
        forall|k: int, i: int|
            0 <= k < pieces(s, by_line).len() && 0 <= i < pieces(s, by_line)[k].len() ==> !cuts(
                #[trigger] pieces(s, by_line)[k][i],
                by_line,
            ),
    decreases s.len(),
{
    if s.len() > 0 {
        lemma_pieces_are_tokens(s.drop_last(), by_line);
        lemma_pieces_len(s.drop_last(), by_line);
        let p = pieces(s.drop_last(), by_line);
        let q = pieces(s, by_line);
        assert forall|k: int, i: int| 0 <= k < q.len() && 0 <= i < q[k].len() implies !cuts(
            #[trigger] q[k][i],
            by_line,
        ) by {
            if k < p.len() - 1 {
                assert(q[k] == p[k]);
            } else if k == p.len() - 1 && !cuts(s.last(), by_line) {
                if i < p[k].len() {
                    assert(q[k][i] == p[k][i]);
                }
            }
        }
    }
}

/// Every token of a line is non-empty and holds no whitespace.
proof fn lemma_tokens_are_tokens(line: Seq<char>)
    ensures
        forall|k: int| 0 <= k < tokens_of(line).len() ==> is_token(#[trigger] tokens_of(line)[k]),
{
    let ps = pieces(line, false);
    let pred = |w: Seq<char>| w.len() > 0;
    lemma_pieces_are_tokens(line, false);
    ps.lemma_filter_len(pred);
    assert forall|k: int| 0 <= k < tokens_of(line).len() implies is_token(
        #[trigger] tokens_of(line)[k],
    ) by {
        let w = tokens_of(line)[k];
        assert(tokens_of(line).contains(w));
        ps.lemma_filter_contains_rev(pred, w);
        let m = choose|m: int| 0 <= m < ps.len() && ps[m] == w;
        assert forall|i: int| 0 <= i < w.len() implies !is_space(#[trigger] w[i]) by {
            assert(!cuts(ps[m][i], false));
        }
    }
}

/// Tokens written out with single spaces tokenize back to themselves, in
/// order; so writing out the tokens of any line and tokenizing again is
/// idempotent.
pub proof fn lemma_rejoin_round_trip(ts: Seq<Seq<char>>, line: Seq<char>)
    requires
        forall|k: int| 0 <= k < ts.len() ==> is_token(#[trigger] ts[k]),
    ensures
        tokens_of(joined(ts)) == ts,
        ts.len() > 0 ==> tokenized(joined(ts)) == seq![(1int, joined(ts), ts)],
        joined(tokens_of(joined(tokens_of(line)))) == joined(tokens_of(line)),
{
    if ts.len() == 0 {
        lemma_filter_nonempty(pieces(joined(ts), false));
    } else {
        lemma_pieces_of_joined(ts);
        assert forall|k: int| 0 <= k < ts.len() implies #[trigger] ts[k].len() > 0 by {
            assert(is_token(ts[k]));
        }
        lemma_filter_nonempty(ts);
        assert(tokens_of(joined(ts)) == ts);
        lemma_joined_one_line(ts);
        lemma_pieces_append(Seq::empty(), joined(ts), true);
        assert(Seq::<char>::empty() + joined(ts) =~= joined(ts));
        assert(lines_of(joined(ts)) =~= seq![joined(ts)]);
        let ls = lines_of(joined(ts));
        assert(retained(ls, 0) =~= Seq::<LineModel>::empty());
        assert(ls.len() == 1 && ls[0] == joined(ts));
        assert(retained(ls, 1) =~= seq![(1int, joined(ts), ts)]);
    }
    let us = tokens_of(line);
    lemma_tokens_are_tokens(line);
    if us.len() == 0 {
        lemma_filter_nonempty(pieces(joined(us), false));
    } else {
        lemma_pieces_of_joined(us);
        assert forall|k: int| 0 <= k < us.len() implies #[trigger] us[k].len() > 0 by {
            assert(is_token(us[k]));
        }
        lemma_filter_nonempty(us);
    }
}

/// The characters of `s`, in order.
pub(crate) fn chars_of(s: &str) -> (r: Vec<char>)
    ensures
        r@ == s@,
{
    let mut r: Vec<char> = Vec::new();
    let mut it = s.chars();
    broadcast use vstd::string::group_string_axioms;

    loop
        invariant
            r@ + it.remaining() == s@,
        ensures
            r@ == s@,
        decreases s@.len() - r.len(),
    {
        match it.next() {
            Some(c) => r.push(c),
            None => {
                assert(r@ + it.remaining() =~= r@);
                break;
            },
        }
    }
    r
}

/// Relies on `String::push`, which appends one character at the end.
pub assume_specification[ String::push ](s: &mut String, ch: char)
    ensures
        final(s)@ == old(s)@.push(ch),
;

/// The characters `cs[from..to]`, as a string of their own.
pub(crate) fn text_between(cs: &Vec<char>, from: usize, to: usize) -> (r: String)
    requires
        from <= to <= cs.len(),
    ensures
        r@ == cs@.subrange(from as int, to as int),
{
    let mut r = String::new();
    let mut i: usize = from;
    while i < to
        invariant
            from <= i <= to <= cs.len(),
            r@ == cs@.subrange(from as int, i as int),
        decreases to - i,
    {
        r.push(cs[i]);
        assert(r@ =~= cs@.subrange(from as int, i + 1));
        i = i + 1;
    }
    r
}

/// Cuts a document into lines and each line into tokens. Blank lines yield
/// nothing, but are counted in the line numbers of the lines after them.
pub fn tokenize(document: &str) -> (r: Vec<LineTokens>)
    ensures
        r@.map_values(|t: LineTokens| t@) == tokenized(document@),
{
    let cs = chars_of(document);
    let lines = piece_bounds(&cs, 0, cs.len(), true);
    let ghost ls = lines_of(document@);
    proof {
        assert(cs@.subrange(0, cs.len() as int) =~= document@);
    }
    let mut r: Vec<LineTokens> = Vec::new();
    let mut k: usize = 0;
    while k < lines.len()
        invariant
            cs@ == document@,
            lines.len() == ls.len(),
            ls == lines_of(document@),
            forall|m: int|
                #![trigger lines@[m]]
                0 <= m < lines.len() ==> {
                    &&& lines@[m].0 <= lines@[m].1 <= cs.len()
                    &&& cs@.subrange(lines@[m].0 as int, lines@[m].1 as int) == ls[m]
                },
            k <= lines.len(),
            r@.map_values(|t: LineTokens| t@) == retained(ls, k as int),
        decreases lines.len() - k,
    {
        let (a, b) = lines[k];
        let words = piece_bounds(&cs, a, b, false);
        let ghost ws = pieces(ls[k as int], false);
        let mut toks: Vec<String> = Vec::new();
        let mut j: usize = 0;
        while j < words.len()
            invariant
                cs@ == document@,
                a <= b <= cs.len(),
                words.len() == ws.len(),
                forall|m: int|
                    #![trigger words@[m]]
                    0 <= m < words.len() ==> {
                        &&& a <= words@[m].0 <= words@[m].1 <= b
                        &&& cs@.subrange(words@[m].0 as int, words@[m].1 as int) == ws[m]
                    },
                j <= words.len(),
                texts(toks@) == ws.take(j as int).filter(|w: Seq<char>| w.len() > 0),
            decreases words.len() - j,
        {
            let (u, v) = words[j];
            let ghost before = texts(toks@);
            proof {
                assert(ws.take(j + 1).drop_last() =~= ws.take(j as int));
                assert(ws.take(j + 1).last() == ws[j as int]);
                assert(cs@.subrange(u as int, v as int) == ws[j as int]);
            }
            if u < v {
                let t = text_between(&cs, u, v);
                toks.push(t);
                proof {
                    assert(texts(toks@) =~= before.push(t@));
                }
            }
            proof {
                let p = |w: Seq<char>| w.len() > 0;
                assert(ws.take(j as int).push(ws[j as int]) =~= ws.take(j + 1));
                ws.take(j as int).lemma_filter_push(ws[j as int], p);
                assert(ws.take(j + 1).filter(p) == if p(ws[j as int]) {
                    ws.take(j as int).filter(p).push(ws[j as int])
                } else {
                    ws.take(j as int).filter(p)
                });
            }
            j = j + 1;
        }
        proof {
            assert(ws.take(ws.len() as int) =~= ws);
        }
        if toks.len() > 0 {
            let ghost all = texts(toks@);
            let mnemonic = toks.remove(0);
            proof {
                assert(seq![mnemonic@] + texts(toks@) =~= all);
            }
            let text = text_between(&cs, a, b);
            r.push(LineTokens { line: k + 1, text, mnemonic, arguments: toks });
        }
        proof {
            assert(r@.map_values(|t: LineTokens| t@) =~= retained(ls, k + 1));
        }
        k = k + 1;
    }
    proof {
        lemma_pieces_len(document@, true);
    }
    r
}

} // verus!
