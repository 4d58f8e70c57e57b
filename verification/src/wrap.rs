//! Splitting text into lines: at newlines, and greedily at whitespace
//! between words when a line would be too wide. Widths are measured by the
//! host, so word wrapping is a state machine that asks whether each
//! candidate line is too wide.
use crate::text::chars_of;
use vstd::prelude::*;

verus! {

/// Appends `c` to `s` (`String::push`).
#[verifier::external_body]
fn push_char(s: &mut String, c: char)
    ensures
        final(s)@ == old(s)@.push(c),
{
    s.push(c);
}

/// Whether `c` has the Unicode White_Space property.
pub open spec fn is_white_space(c: char) -> bool {
    let u = c as u32;
    (0x09 <= u <= 0x0d) || u == 0x20 || u == 0x85 || u == 0xa0 || u == 0x1680 || (0x2000 <= u <= 0x200a)
        || u == 0x2028 || u == 0x2029 || u == 0x202f || u == 0x205f || u == 0x3000
}

/// Executable [`is_white_space`].
pub fn white_space(c: char) -> (r: bool)
    ensures
        r == is_white_space(c),
{
    let u = c as u32;
    (0x09 <= u && u <= 0x0d) || u == 0x20 || u == 0x85 || u == 0xa0 || u == 0x1680 || (0x2000 <= u && u
        <= 0x200a) || u == 0x2028 || u == 0x2029 || u == 0x202f || u == 0x205f || u == 0x3000
}

/// The pieces of `s` between occurrences of `sep`; there is always at least
/// one piece, possibly empty.
pub open spec fn pieces(s: Seq<char>, sep: char) -> Seq<Seq<char>>
    decreases s.len(),
{
    if s.len() == 0 {
        seq![Seq::empty()]
    } else {
        let p = pieces(s.drop_last(), sep);
        if s.last() == sep {
            p.push(Seq::empty())
        } else {
            p.update(p.len() - 1, p.last().push(s.last()))
        }
    }
}

/// The maximal runs of non-white-space characters of `s`, in order.
pub open spec fn words(s: Seq<char>) -> Seq<Seq<char>>
    decreases s.len(),
{
    if s.len() == 0 {
        Seq::empty()
    } else {
        let w = words(s.drop_last());
        if is_white_space(s.last()) {
            w
        } else if s.len() >= 2 && !is_white_space(s[s.len() - 2]) {
            w.update(w.len() - 1, w.last().push(s.last()))
        } else {
            w.push(seq![s.last()])
        }
    }
}

proof fn lemma_pieces_nonempty(s: Seq<char>, sep: char)
    ensures
        pieces(s, sep).len() >= 1,
    decreases s.len(),
{
    if s.len() > 0 {
        lemma_pieces_nonempty(s.drop_last(), sep);
    }
}

proof fn lemma_words_continue(s: Seq<char>)
    requires
        s.len() >= 1,
        !is_white_space(s.last()),
    ensures
        words(s).len() >= 1,
        words(s).last().len() >= 1,
    decreases s.len(),
{
    if s.len() >= 2 && !is_white_space(s[s.len() - 2]) {
        assert(s.drop_last().last() == s[s.len() - 2]);
        lemma_words_continue(s.drop_last());
    }
}

/// Builds a string from characters.
fn string_of(chars: &Vec<char>, start: usize, end: usize) -> (r: String)
    requires
        start <= end <= chars@.len(),
    ensures
        r@ == chars@.subrange(start as int, end as int),
{
    let mut s = String::new();
    let mut i = start;
    while i < end
        invariant
            start <= i <= end,
            end <= chars@.len(),
            s@ == chars@.subrange(start as int, i as int),
        decreases end - i,
    {
        push_char(&mut s, chars[i]);
        i = i + 1;
        proof {
            assert(s@ =~= chars@.subrange(start as int, i as int));
        }
    }
    s
}

/// Splits `text` at `sep`, like `str::split` with a character pattern.
pub fn split_at_char(text: &str, sep: char) -> (r: Vec<String>)
    ensures
        r@.map_values(|s: String| s@) == pieces(text@, sep),
{
    let cs = chars_of(text);
    let n = cs.len();
    let mut out: Vec<String> = Vec::new();
    let mut start: usize = 0;
    let mut i: usize = 0;
    proof {
        assert(cs@.take(0) =~= Seq::<char>::empty());
        assert(out@.map_values(|s: String| s@).push(cs@.subrange(0, 0)) =~= seq![Seq::<char>::empty()]);
    }
    while i < n
        invariant
            n == cs@.len(),
            cs@ == text@,
            start <= i <= n,
            out@.map_values(|s: String| s@).push(cs@.subrange(start as int, i as int)) == pieces(
                cs@.take(i as int),
                sep,
            ),
        decreases n - i,
    {
        let ghost prev = out@.map_values(|s: String| s@);
        proof {
            assert(cs@.take(i + 1).drop_last() =~= cs@.take(i as int));
            assert(cs@.take(i + 1).last() == cs@[i as int]);
        }
        if cs[i] == sep {
            let piece = string_of(&cs, start, i);
            out.push(piece);
            start = i + 1;
            proof {
                assert(out@.map_values(|s: String| s@) =~= prev.push(piece@));
                assert(cs@.subrange(start as int, i + 1) =~= Seq::<char>::empty());
            }
        } else {
            proof {
                assert(cs@.subrange(start as int, i + 1) =~= cs@.subrange(start as int, i as int).push(cs@[i as int]));
                let p = pieces(cs@.take(i as int), sep);
                assert(p == prev.push(cs@.subrange(start as int, i as int)));
                assert(prev.push(cs@.subrange(start as int, i + 1)) =~= p.update(p.len() - 1, p.last().push(cs@[i as int])));
            }
        }
        i = i + 1;
    }
    let last = string_of(&cs, start, n);
    let ghost prev = out@.map_values(|s: String| s@);
    out.push(last);
    proof {
        assert(out@.map_values(|s: String| s@) =~= prev.push(last@));
        assert(cs@.take(n as int) =~= cs@);
    }
    out
}

/// Replaces every newline of `text` with a space.
pub fn newlines_to_spaces(text: &str) -> (r: String)
    ensures
        r@ == text@.map_values(|c: char| if c == '\n' { ' ' } else { c }),
{
    let cs = chars_of(text);
    let n = cs.len();
    let mut s = String::new();
    let mut i: usize = 0;
    while i < n
        invariant
            n == cs@.len(),
            cs@ == text@,
            i <= n,
            s@ == cs@.take(i as int).map_values(|c: char| if c == '\n' { ' ' } else { c }),
        decreases n - i,
    {
        let c = cs[i];
        push_char(&mut s, if c == '\n' { ' ' } else { c });
        i = i + 1;
        proof {
            assert(s@ =~= cs@.take(i as int).map_values(|c: char| if c == '\n' { ' ' } else { c }));
        }
    }
    proof {
        assert(cs@.take(n as int) =~= cs@);
    }
    s
}

} // verus!

verus! {

/// The words of each newline-separated paragraph of `text`.
pub open spec fn paragraph_words(text: Seq<char>) -> Seq<Seq<Seq<char>>> {
    pieces(text, '\n').map_values(|p: Seq<char>| words(p))
}

/// Splits `text` into its maximal runs of non-white-space characters.
pub fn words_of(text: &str) -> (r: Vec<Vec<char>>)
    ensures
        r@.map_values(|w: Vec<char>| w@) == words(text@),
{
    let cs = chars_of(text);
    let n = cs.len();
    let mut out: Vec<Vec<char>> = Vec::new();
    let mut i: usize = 0;
    proof {
        assert(cs@.take(0) =~= Seq::<char>::empty());
        assert(out@.map_values(|w: Vec<char>| w@) =~= Seq::<Seq<char>>::empty());
    }
    while i < n
        invariant
            n == cs@.len(),
            cs@ == text@,
            i <= n,
            out@.map_values(|w: Vec<char>| w@) == words(cs@.take(i as int)),
        decreases n - i,
    {
        let c = cs[i];
        let ghost prev = out@.map_values(|w: Vec<char>| w@);
        proof {
            assert(cs@.take(i + 1).drop_last() =~= cs@.take(i as int));
            assert(cs@.take(i + 1).last() == c);
        }
        if white_space(c) {
        } else if i >= 1 && !white_space(cs[i - 1]) {
            proof {
                assert(cs@.take(i + 1)[i - 1] == cs@[i - 1]);
                assert(cs@.take(i as int).last() == cs@[i - 1]);
                lemma_words_continue(cs@.take(i as int));
            }
            let mut cur = out.pop().unwrap();
            let ghost rest = out@.map_values(|w: Vec<char>| w@);
            proof {
                assert(prev =~= rest.push(cur@));
            }
            cur.push(c);
            out.push(cur);
            proof {
                assert(out@.map_values(|w: Vec<char>| w@) =~= prev.update(prev.len() - 1, prev.last().push(c)));
            }
        } else {
            let mut w: Vec<char> = Vec::new();
            w.push(c);
            out.push(w);
            proof {
                assert(out@.map_values(|w: Vec<char>| w@) =~= prev.push(seq![c]));
            }
        }
        i = i + 1;
    }
    proof {
        assert(cs@.take(n as int) =~= cs@);
    }
    out
}

/// Where a word goes: the first word of a line starts it without asking;
/// otherwise it joins the line after a space unless that line would be too
/// wide, in which case the line is finished and the word starts the next.
pub open spec fn place(
    lines: Seq<Seq<char>>,
    line: Seq<char>,
    word: Seq<char>,
    too_wide: bool,
) -> (Seq<Seq<char>>, Seq<char>) {
    if line.len() == 0 {
        (lines, word)
    } else if too_wide {
        (lines.push(line), word)
    } else {
        (lines, line + seq![' '] + word)
    }
}

/// Joining non-empty words gives a non-empty line.
proof fn lemma_join_words_nonempty(ws: Seq<Seq<char>>)
    requires
        ws.len() > 0,
        forall|i: int| 0 <= i < ws.len() ==> (#[trigger] ws[i]).len() > 0,
    ensures
        join_words(ws).len() > 0,
{
    if ws.len() == 1 {
        assert(ws[0].len() > 0);
    }
}

/// `line`, a space, and `word`.
fn join_with_space(line: &Vec<char>, word: &Vec<char>) -> (r: Vec<char>)
    ensures
        r@ == line@ + seq![' '] + word@,
{
    let mut joined: Vec<char> = line.clone();
    joined.push(' ');
    let m = word.len();
    let mut k: usize = 0;
    let ghost base = joined@;
    proof {
        assert(base =~= line@ + seq![' ']);
    }
    while k < m
        invariant
            m == word@.len(),
            k <= m,
            joined@ == base + word@.take(k as int),
        decreases m - k,
    {
        joined.push(word[k]);
        k = k + 1;
        proof {
            assert(joined@ =~= base + word@.take(k as int));
        }
    }
    proof {
        assert(word@.take(m as int) =~= word@);
    }
    joined
}

/// Words joined by single spaces.
pub open spec fn join_words(ws: Seq<Seq<char>>) -> Seq<char>
    decreases ws.len(),
{
    if ws.len() == 0 {
        Seq::empty()
    } else if ws.len() == 1 {
        ws[0]
    } else {
        join_words(ws.drop_last()) + seq![' '] + ws.last()
    }
}

/// The words of all groups, in order.
pub open spec fn flatten_words(gs: Seq<Seq<Seq<char>>>) -> Seq<Seq<char>>
    decreases gs.len(),
{
    if gs.len() == 0 {
        Seq::empty()
    } else {
        flatten_words(gs.drop_last()) + gs.last()
    }
}

/// Greedy word wrapping of a text, one step at a time. The host measures
/// each [`candidate`](LineBreaker::candidate) line and answers whether it is
/// too wide.
pub struct LineBreaker {
    paragraphs: Vec<Vec<Vec<char>>>,
    para: usize,
    word: usize,
    line: Vec<char>,
    lines: Vec<String>,
    groups: Ghost<Seq<Seq<Seq<char>>>>,
    group: Ghost<Seq<Seq<char>>>,
}

impl LineBreaker {
    /// The words of each paragraph.
    pub closed spec fn paragraphs_spec(&self) -> Seq<Seq<Seq<char>>> {
        self.paragraphs@.map_values(|p: Vec<Vec<char>>| p@.map_values(|w: Vec<char>| w@))
    }

    /// The paragraph being wrapped.
    pub closed spec fn para_spec(&self) -> int {
        self.para as int
    }

    /// The next word of that paragraph.
    pub closed spec fn word_spec(&self) -> int {
        self.word as int
    }

    /// The line being built.
    pub closed spec fn line_spec(&self) -> Seq<char> {
        self.line@
    }

    /// The finished lines.
    pub closed spec fn lines_spec(&self) -> Seq<Seq<char>> {
        self.lines@.map_values(|s: String| s@)
    }

    /// Whether every paragraph has been wrapped.
    pub open spec fn is_done(&self) -> bool {
        self.para_spec() >= self.paragraphs_spec().len()
    }

    /// The words placed on each finished line.
    pub closed spec fn line_groups(&self) -> Seq<Seq<Seq<char>>> {
        self.groups@
    }

    /// The breaker's internal invariant: besides the positions being in
    /// range, every finished line and the current one are their words
    /// joined by spaces, and the words placed so far are exactly the words
    /// read so far.
    pub closed spec fn wf(&self) -> bool {
        let ps = self.paragraphs_spec();
        let gs = self.groups@;
        let g = self.group@;
        &&& self.para <= self.paragraphs@.len()
        &&& self.para < self.paragraphs@.len() ==> self.word <= self.paragraphs@[self.para as int]@.len()
        &&& forall|a: int, b: int| 0 <= a < ps.len() && 0 <= b < ps[a].len() ==> (#[trigger] ps[a][b]).len() > 0
        &&& forall|i: int| 0 <= i < g.len() ==> (#[trigger] g[i]).len() > 0
        &&& gs.len() == self.lines_spec().len()
        &&& forall|i: int| 0 <= i < gs.len() ==> self.lines_spec()[i] == join_words(#[trigger] gs[i])
        &&& self.line@ == join_words(g)
        &&& self.para < ps.len() ==> flatten_words(gs) + g == flatten_words(ps.take(self.para as int))
            + ps[self.para as int].take(self.word as int)
        &&& self.para >= ps.len() ==> g.len() == 0 && flatten_words(gs) == flatten_words(ps)
    }

    /// A breaker at the start of `text`.
    pub fn new(text: &str) -> (r: Self)
        ensures
            r.wf(),
            r.paragraphs_spec() == paragraph_words(text@),
            r.para_spec() == 0,
            r.word_spec() == 0,
            r.line_spec() == Seq::<char>::empty(),
            r.lines_spec() == Seq::<Seq<char>>::empty(),
    {
        let pieces_v = split_at_char(text, '\n');
        let n = pieces_v.len();
        let mut paragraphs: Vec<Vec<Vec<char>>> = Vec::new();
        let mut i: usize = 0;
        while i < n
            invariant
                n == pieces_v@.len(),
                pieces_v@.map_values(|s: String| s@) == pieces(text@, '\n'),
                i <= n,
                paragraphs@.map_values(|p: Vec<Vec<char>>| p@.map_values(|w: Vec<char>| w@)) == pieces(
                    text@,
                    '\n',
                ).take(i as int).map_values(|p: Seq<char>| words(p)),
            decreases n - i,
        {
            let ws = words_of(pieces_v[i].as_str());
            let ghost prev = paragraphs@.map_values(|p: Vec<Vec<char>>| p@.map_values(|w: Vec<char>| w@));
            paragraphs.push(ws);
            proof {
                let all = pieces(text@, '\n');
                assert(pieces_v@.map_values(|s: String| s@)[i as int] == pieces_v@[i as int]@);
                assert(all[i as int] == pieces_v@[i as int]@);
                assert(ws@.map_values(|w: Vec<char>| w@) == words(all[i as int]));
                assert(all.take(i + 1).map_values(|p: Seq<char>| words(p)) =~= all.take(i as int).map_values(
                    |p: Seq<char>| words(p),
                ).push(words(all[i as int])));
                assert(paragraphs@.map_values(|p: Vec<Vec<char>>| p@.map_values(|w: Vec<char>| w@))
                    =~= prev.push(ws@.map_values(|w: Vec<char>| w@)));
            }
            i = i + 1;
        }
        proof {
            assert(pieces(text@, '\n').take(n as int) =~= pieces(text@, '\n'));
        }
        let r = LineBreaker {
            paragraphs,
            para: 0,
            word: 0,
            line: Vec::new(),
            lines: Vec::new(),
            groups: Ghost(Seq::empty()),
            group: Ghost(Seq::empty()),
        };
        proof {
            assert(r.lines_spec() =~= Seq::<Seq<char>>::empty());
            let ps = r.paragraphs_spec();
            let all = pieces(text@, '\n');
            assert(ps =~= all.map_values(|p: Seq<char>| words(p)));
            assert forall|a: int, b: int| 0 <= a < ps.len() && 0 <= b < ps[a].len() implies (
            #[trigger] ps[a][b]).len() > 0 by {
                lemma_split_shapes(all[a], '\n');
                assert(ps[a] == words(all[a]));
            }
            lemma_pieces_nonempty(text@, '\n');
            assert(ps.take(0) =~= Seq::<Seq<Seq<char>>>::empty());
            assert(ps[0].take(0) =~= Seq::<Seq<char>>::empty());
            assert(flatten_words(Seq::<Seq<Seq<char>>>::empty()) + Seq::<Seq<char>>::empty()
                =~= flatten_words(ps.take(0)) + ps[0].take(0));
        }
        r
    }

    /// Whether every paragraph has been wrapped.
    pub fn done(&self) -> (r: bool)
        requires
            self.wf(),
        ensures
            r == self.is_done(),
    {
        self.para >= self.paragraphs.len()
    }

    /// The line whose width decides the next step: the current line, a
    /// space, and the next word. `None` when the next step needs no
    /// measurement (the line is empty, or the paragraph has ended).
    pub fn candidate(&self) -> (r: Option<String>)
        requires
            self.wf(),
        ensures
            (!self.is_done() && self.word_spec() < self.paragraphs_spec()[self.para_spec()].len()
                && self.line_spec().len() > 0) ==> r is Some && r->0@ == self.line_spec() + seq![' ']
                + self.paragraphs_spec()[self.para_spec()][self.word_spec()],
            !(!self.is_done() && self.word_spec() < self.paragraphs_spec()[self.para_spec()].len()
                && self.line_spec().len() > 0) ==> r is None,
    {
        if self.para < self.paragraphs.len() && self.word < self.paragraphs[self.para].len() && self.line.len() > 0 {
            let w = &self.paragraphs[self.para][self.word];
            let joined = join_with_space(&self.line, w);
            let s = string_of(&joined, 0, joined.len());
            proof {
                assert(joined@.subrange(0, joined@.len() as int) =~= joined@);
                assert(self.paragraphs_spec()[self.para_spec()][self.word_spec()] == w@);
            }
            Some(s)
        } else {
            None
        }
    }

    /// Takes the next step: places the next word of the paragraph (using
    /// `too_wide` when the line is not empty), or, at the end of the
    /// paragraph, finishes its last line and moves to the next one.
    pub fn advance(&mut self, too_wide: bool)
        requires
            old(self).wf(),
            !old(self).is_done(),
        ensures
            final(self).wf(),
            final(self).paragraphs_spec() == old(self).paragraphs_spec(),
            ({
                let ps = old(self).paragraphs_spec();
                let p = old(self).para_spec();
                let k = old(self).word_spec();
                if k < ps[p].len() {
                    let (lines, line) = place(old(self).lines_spec(), old(self).line_spec(), ps[p][k], too_wide);
                    &&& final(self).para_spec() == p
                    &&& final(self).word_spec() == k + 1
                    &&& final(self).lines_spec() == lines
                    &&& final(self).line_spec() == line
                } else {
                    &&& final(self).para_spec() == p + 1
                    &&& final(self).word_spec() == 0
                    &&& final(self).lines_spec() == old(self).lines_spec().push(old(self).line_spec())
                    &&& final(self).line_spec() == Seq::<char>::empty()
                }
            }),
    {
        let ghost ps = self.paragraphs_spec();
        assert(ps.len() == self.paragraphs@.len());
        let np = self.paragraphs.len();
        assert(self.para < np);
        let ghost old_lines = self.lines_spec();
        let ghost old_line = self.line@;
        let ghost gs = self.groups@;
        let ghost g = self.group@;
        let ghost p = self.para as int;
        let ghost k = self.word as int;
        let ghost before = flatten_words(ps.take(p));
        if self.word < self.paragraphs[self.para].len() {
            let w = self.paragraphs[self.para][self.word].clone();
            proof {
                assert(ps[self.para as int][self.word as int] == w@);
                assert(w@.len() > 0);
                assert(ps[p].take(k + 1) =~= ps[p].take(k).push(w@));
                assert(join_words(seq![w@]) == w@);
            }
            if self.line.len() == 0 {
                self.line = w;
                proof {
                    if g.len() > 0 {
                        lemma_join_words_nonempty(g);
                    }
                    assert(g.len() == 0);
                    self.group@ = seq![self.line@];
                    assert(flatten_words(gs) + g =~= flatten_words(gs));
                    assert(flatten_words(gs) + self.group@ =~= before + ps[p].take(k + 1));
                }
            } else if too_wide {
                let finished = string_of(&self.line, 0, self.line.len());
                self.lines.push(finished);
                self.line = w;
                proof {
                    assert(old_line.subrange(0, old_line.len() as int) =~= old_line);
                    assert(self.lines_spec() =~= old_lines.push(old_line));
                    self.groups@ = gs.push(g);
                    self.group@ = seq![self.line@];
                    assert(self.groups@.drop_last() =~= gs);
                    assert(flatten_words(self.groups@) == flatten_words(gs) + g);
                    assert(flatten_words(self.groups@) + self.group@ =~= before + ps[p].take(k + 1));
                    assert forall|i: int| 0 <= i < self.groups@.len() implies self.lines_spec()[i] == join_words(
                        #[trigger] self.groups@[i],
                    ) by {
                        if i < gs.len() {
                            assert(self.groups@[i] == gs[i]);
                        }
                    }
                }
            } else {
                let joined = join_with_space(&self.line, &w);
                self.line = joined;
                proof {
                    assert(g.len() > 0);
                    let g2 = g.push(w@);
                    assert(g2.drop_last() =~= g);
                    assert(join_words(g2) == join_words(g) + seq![' '] + w@);
                    self.group@ = g2;
                    assert(flatten_words(gs) + g == before + ps[p].take(k));
                    assert(flatten_words(gs) + g2 =~= (flatten_words(gs) + g).push(w@));
                    assert(before + ps[p].take(k + 1) =~= (before + ps[p].take(k)).push(w@));
                    assert forall|i: int| 0 <= i < g2.len() implies (#[trigger] g2[i]).len() > 0 by {
                        if i < g.len() {
                            assert(g2[i] == g[i]);
                        }
                    }
                }
            }
            self.word = self.word + 1;
        } else {
            let finished = string_of(&self.line, 0, self.line.len());
            self.lines.push(finished);
            self.line = Vec::new();
            self.para = self.para + 1;
            self.word = 0;
            proof {
                assert(old_line.subrange(0, old_line.len() as int) =~= old_line);
                assert(self.lines_spec() =~= old_lines.push(old_line));
                self.groups@ = gs.push(g);
                self.group@ = Seq::empty();
                assert(self.groups@.drop_last() =~= gs);
                assert(flatten_words(self.groups@) == flatten_words(gs) + g);
                assert(ps[p].take(k) =~= ps[p]);
                assert(ps.take(p + 1).drop_last() =~= ps.take(p));
                assert(ps.take(p + 1).last() == ps[p]);
                assert(flatten_words(ps.take(p + 1)) == before + ps[p]);
                assert(join_words(Seq::<Seq<char>>::empty()) =~= self.line@);
                if p + 1 < ps.len() {
                    assert(ps[p + 1].take(0) =~= Seq::<Seq<char>>::empty());
                    assert(flatten_words(self.groups@) + self.group@ =~= flatten_words(ps.take(p + 1)) + ps[p
                        + 1].take(0));
                } else {
                    assert(ps.take(p + 1) =~= ps);
                }
                assert forall|i: int| 0 <= i < self.groups@.len() implies self.lines_spec()[i] == join_words(
                    #[trigger] self.groups@[i],
                ) by {
                    if i < gs.len() {
                        assert(self.groups@[i] == gs[i]);
                    }
                }
            }
        }
    }

    /// The finished lines.
    pub fn into_lines(self) -> (r: Vec<String>)
        ensures
            r@.map_values(|s: String| s@) == self.lines_spec(),
    {
        self.lines
    }
}

} // verus!

verus! {

/// How a text's lines are found.
pub enum WrapStart {
    /// The lines are known without measuring.
    Lines(Vec<String>),
    /// Greedy word wrapping must measure candidate lines.
    Measure(LineBreaker),
}

/// Starts splitting `text` into lines under `wrap`. Empty text is one empty
/// line; single-line text turns newlines into spaces; newline wrapping, and
/// word wrapping without a finite width, split at newlines; word wrapping
/// with a finite width measures.
pub fn start_wrap(text: &str, wrap: crate::style::TextWrap, width_is_finite: bool) -> (r: WrapStart)
    ensures
        text@.len() == 0 ==> (r matches WrapStart::Lines(v) && v@.map_values(|s: String| s@) == seq![
            Seq::<char>::empty(),
        ]),
        text@.len() > 0 && wrap is SingleLine ==> (r matches WrapStart::Lines(v) && v@.map_values(
            |s: String| s@,
        ) == seq![text@.map_values(|c: char| if c == '\n' { ' ' } else { c })]),
        text@.len() > 0 && (wrap is Newlines || (wrap is Words && !width_is_finite)) ==> (r matches WrapStart::Lines(
            v,
        ) && v@.map_values(|s: String| s@) == pieces(text@, '\n')),
        text@.len() > 0 && wrap is Words && width_is_finite ==> (r matches WrapStart::Measure(b) && b.wf()
            && b.paragraphs_spec() == paragraph_words(text@) && b.para_spec() == 0 && b.word_spec() == 0
            && b.line_spec() == Seq::<char>::empty() && b.lines_spec() == Seq::<Seq<char>>::empty()),
{
    if text.is_empty() {
        let mut v: Vec<String> = Vec::new();
        v.push(String::new());
        proof {
            assert(v@.map_values(|s: String| s@) =~= seq![Seq::<char>::empty()]);
        }
        return WrapStart::Lines(v);
    }
    match wrap {
        crate::style::TextWrap::SingleLine => {
            let mut v: Vec<String> = Vec::new();
            let line = newlines_to_spaces(text);
            v.push(line);
            proof {
                assert(v@.map_values(|s: String| s@) =~= seq![line@]);
            }
            WrapStart::Lines(v)
        },
        crate::style::TextWrap::Newlines => WrapStart::Lines(split_at_char(text, '\n')),
        crate::style::TextWrap::Words => {
            if width_is_finite {
                WrapStart::Measure(LineBreaker::new(text))
            } else {
                WrapStart::Lines(split_at_char(text, '\n'))
            }
        },
    }
}

} // verus!

verus! {

/// Wrapping keeps every word, in order, and adds none: each finished line
/// is the words placed on it joined by single spaces, and once every
/// paragraph is wrapped, the words of all lines in order are the words of
/// all paragraphs in order.
pub proof fn lemma_wrap_keeps_words(b: LineBreaker)
    requires
        b.wf(),
        b.is_done(),
    ensures
        b.line_groups().len() == b.lines_spec().len(),
        forall|i: int| 0 <= i < b.lines_spec().len() ==> b.lines_spec()[i] == join_words(#[trigger] b.line_groups()[i]),
        flatten_words(b.line_groups()) == flatten_words(b.paragraphs_spec()),
{
}

/// White space is the Unicode White_Space property, so among ASCII
/// characters exactly tab, line feed, vertical tab, form feed, carriage
/// return and space are white space, and no printable ASCII character
/// (letters, digits, punctuation such as `-`) is.
pub proof fn lemma_white_space_ascii(c: char)
    ensures
        (c as u32) < 0x80 ==> (is_white_space(c) <==> ((c as u32) == 0x20 || (0x09 <= (c as u32) <= 0x0d))),
        0x21 <= (c as u32) <= 0x7e ==> !is_white_space(c),
{
}

/// A run of printable ASCII characters is never split or trimmed: it is one
/// word and one paragraph, so wrapping keeps it whole, hyphens included.
pub proof fn lemma_printable_run_is_one_word(p: Seq<char>)
    requires
        p.len() > 0,
        forall|i: int| 0 <= i < p.len() ==> 0x21 <= (#[trigger] p[i] as u32) <= 0x7e,
    ensures
        words(p) == seq![p],
        pieces(p, '\n') == seq![p],
        paragraph_words(p) == seq![seq![p]],
    decreases p.len(),
{
    let last = p.last();
    assert(0x21 <= (p[p.len() - 1] as u32) <= 0x7e);
    lemma_white_space_ascii(last);
    assert(last != '\n');
    if p.len() == 1 {
        let e = Seq::<char>::empty();
        assert(p.drop_last() =~= e);
        assert(words(e) == Seq::<Seq<char>>::empty());
        assert(pieces(e, '\n') == seq![e]);
        assert(e.push(last) =~= p);
        assert(seq![last] =~= p);
        assert(words(p) == words(e).push(seq![last]));
        assert(words(p) =~= seq![p]);
        assert(pieces(p, '\n') == seq![e].update(0, e.push(last)));
        assert(pieces(p, '\n') =~= seq![p]);
    } else {
        let q = p.drop_last();
        assert forall|i: int| 0 <= i < q.len() implies 0x21 <= (#[trigger] q[i] as u32) <= 0x7e by {
            assert(q[i] == p[i]);
        }
        lemma_printable_run_is_one_word(q);
        assert(0x21 <= (p[p.len() - 2] as u32) <= 0x7e);
        lemma_white_space_ascii(p[p.len() - 2]);
        assert(q.push(last) =~= p);
        assert(words(p) =~= seq![p]);
        assert(pieces(p, '\n') =~= seq![p]);
    }
    assert(paragraph_words(p) =~= seq![seq![p]]);
}

/// Words are non-empty and hold no white space; pieces hold no separator and
/// there is at least one.
pub proof fn lemma_split_shapes(s: Seq<char>, sep: char)
    ensures
        forall|i: int| 0 <= i < words(s).len() ==> (#[trigger] words(s)[i]).len() > 0,
        forall|i: int, j: int|
            0 <= i < words(s).len() && 0 <= j < words(s)[i].len() ==> !is_white_space(#[trigger] words(s)[i][j]),
        pieces(s, sep).len() >= 1,
        forall|i: int, j: int|
            0 <= i < pieces(s, sep).len() && 0 <= j < pieces(s, sep)[i].len() ==> #[trigger] pieces(s, sep)[i][j]
                != sep,
    decreases s.len(),
{
    lemma_pieces_nonempty(s, sep);
    if s.len() > 0 {
        let t = s.drop_last();
        lemma_split_shapes(t, sep);
        let c = s.last();
        let w = words(t);
        let ws = words(s);
        if is_white_space(c) {
        } else if s.len() >= 2 && !is_white_space(s[s.len() - 2]) {
            assert(t.last() == s[s.len() - 2]);
            lemma_words_continue(t);
            assert forall|i: int, j: int| 0 <= i < ws.len() && 0 <= j < ws[i].len() implies !is_white_space(
                #[trigger] ws[i][j],
            ) by {
                if i < w.len() - 1 {
                    assert(ws[i] == w[i]);
                } else if j < w.last().len() {
                    assert(ws[i][j] == w[w.len() - 1][j]);
                }
            }
            assert forall|i: int| 0 <= i < ws.len() implies (#[trigger] ws[i]).len() > 0 by {
                if i < w.len() - 1 {
                    assert(ws[i] == w[i]);
                }
            }
        } else {
            assert forall|i: int, j: int| 0 <= i < ws.len() && 0 <= j < ws[i].len() implies !is_white_space(
                #[trigger] ws[i][j],
            ) by {
                if i < w.len() {
                    assert(ws[i] == w[i]);
                }
            }
            assert forall|i: int| 0 <= i < ws.len() implies (#[trigger] ws[i]).len() > 0 by {
                if i < w.len() {
                    assert(ws[i] == w[i]);
                }
            }
        }
        let p = pieces(t, sep);
        let ps = pieces(s, sep);
        lemma_pieces_nonempty(t, sep);
        if c == sep {
            assert forall|i: int, j: int| 0 <= i < ps.len() && 0 <= j < ps[i].len() implies #[trigger] ps[i][j] != sep by {
                if i < p.len() {
                    assert(ps[i] == p[i]);
                }
            }
        } else {
            assert forall|i: int, j: int| 0 <= i < ps.len() && 0 <= j < ps[i].len() implies #[trigger] ps[i][j] != sep by {
                if i < p.len() - 1 {
                    assert(ps[i] == p[i]);
                } else if j < p.last().len() {
                    assert(ps[i][j] == p[p.len() - 1][j]);
                }
            }
        }
    }
}

} // verus!
