//! Text sanitization for rendered markup.
//!
//! Rendered vector markup must not contain blank lines when it is embedded
//! inline: the downstream markup format treats certain blank-line patterns
//! inside embedded raw markup as a signal to resume normal parsing. Render
//! errors are wrapped in a visually distinct HTML fragment so that a failure
//! is obvious in the final document instead of being silently dropped.
use vstd::prelude::*;

verus! {

/// The Unicode `White_Space` code points, the characters that a trimmed
/// line may drop.
pub open spec fn is_space(c: char) -> bool {
    ||| c == ' '
    ||| c == '\t'
    ||| c == '\n'
    ||| c == '\r'
    ||| c == '\u{b}'
    ||| c == '\u{c}'
    ||| c == '\u{85}'
    ||| c == '\u{a0}'
    ||| c == '\u{1680}'
    ||| ('\u{2000}' <= c && c <= '\u{200a}')
    ||| c == '\u{2028}'
    ||| c == '\u{2029}'
    ||| c == '\u{202f}'
    ||| c == '\u{205f}'
    ||| c == '\u{3000}'
}

/// A line is blank when every character in it is whitespace; the empty
/// line is blank.
pub open spec fn is_blank(l: Seq<char>) -> bool {
    forall|j: int| 0 <= j < l.len() ==> is_space(#[trigger] l[j])
}

/// A sequence of characters containing no line feed.
pub open spec fn nl_free(l: Seq<char>) -> bool {
    forall|j: int| 0 <= j < l.len() ==> #[trigger] l[j] != '\n'
}

/// Prepend `cur` onto the first line of `ls`; if there is no line yet,
/// `cur` becomes the only line (unless it is empty).
pub open spec fn attach_seq(cur: Seq<char>, ls: Seq<Seq<char>>) -> Seq<Seq<char>> {
    if cur.len() == 0 {
        ls
    } else if ls.len() == 0 {
        seq![cur]
    } else {
        ls.update(0, cur + ls[0])
    }
}

/// The lines of `s`: maximal segments terminated by `\n` or `\r\n`, with
/// the terminator removed and a final terminator producing no extra empty
/// line. This matches how `str::lines` splits.
pub open spec fn lines_of(s: Seq<char>) -> Seq<Seq<char>>
    decreases s.len(),
{
    if s.len() == 0 {
        Seq::empty()
    } else if s[0] == '\n' {
        seq![Seq::<char>::empty()] + lines_of(s.skip(1))
    } else if s[0] == '\r' && s.len() >= 2 && s[1] == '\n' {
        seq![Seq::<char>::empty()] + lines_of(s.skip(2))
    } else {
        attach_seq(seq![s[0]], lines_of(s.skip(1)))
    }
}

/// The subsequence of lines that are not blank, in order.
pub open spec fn keep_nonblank(ls: Seq<Seq<char>>) -> Seq<Seq<char>>
    decreases ls.len(),
{
    if ls.len() == 0 {
        Seq::empty()
    } else if is_blank(ls[0]) {
        keep_nonblank(ls.skip(1))
    } else {
        seq![ls[0]] + keep_nonblank(ls.skip(1))
    }
}

/// Join lines with a single line feed between adjacent lines.
pub open spec fn join_nl(ls: Seq<Seq<char>>) -> Seq<char>
    decreases ls.len(),
{
    if ls.len() == 0 {
        Seq::empty()
    } else if ls.len() == 1 {
        ls[0]
    } else {
        ls[0] + seq!['\n'] + join_nl(ls.skip(1))
    }
}

/// The sanitized form of rendered markup: its non-blank lines, joined by
/// line feeds.
pub open spec fn sanitize(s: Seq<char>) -> Seq<char> {
    join_nl(keep_nonblank(lines_of(s)))
}

/// `s` with every line feed replaced by an HTML line break.
pub open spec fn replace_nl(s: Seq<char>) -> Seq<char>
    decreases s.len(),
{
    if s.len() == 0 {
        Seq::empty()
    } else if s[0] == '\n' {
        "<br/>"@ + replace_nl(s.skip(1))
    } else {
        seq![s[0]] + replace_nl(s.skip(1))
    }
}

/// The visible error fragment: a bordered, colored block holding the
/// renderer's message with line feeds turned into HTML breaks.
pub open spec fn error_html(s: Seq<char>) -> Seq<char> {
    "<div style=\"color: red; border: 5px double red; padding: 1em;\">"@ + replace_nl(s)
        + "</div>"@
}

/// Whether `c` is Unicode whitespace.
fn is_space_char(c: char) -> (r: bool)
    ensures
        r == is_space(c),
{
    let u: u32 = c as u32;
    c == ' ' || c == '\t' || c == '\n' || c == '\r' || u == 0xb || u == 0xc || u == 0x85
        || u == 0xa0 || u == 0x1680 || (0x2000 <= u && u <= 0x200a) || u == 0x2028 || u == 0x2029
        || u == 0x202f || u == 0x205f || u == 0x3000
}

/// Whether every character of `s` is whitespace.
fn is_blank_line(s: &str) -> (r: bool)
    ensures
        r == is_blank(s@),
{
    let n = s.unicode_len();
    let mut i: usize = 0;
    while i < n
        invariant
            n == s@.len(),
            0 <= i <= n,
            forall|j: int| 0 <= j < i ==> is_space(#[trigger] s@[j]),
        decreases n - i,
    {
        if !is_space_char(s.get_char(i)) {
            return false;
        }
        i += 1;
    }
    true
}

/// The views of a sequence of strings.
pub open spec fn views(ls: Seq<String>) -> Seq<Seq<char>> {
    ls.map_values(|l: String| l@)
}

proof fn lemma_attach_attach(cur: Seq<char>, c: char, ls: Seq<Seq<char>>)
    ensures
        attach_seq(cur, attach_seq(seq![c], ls)) == attach_seq(cur + seq![c], ls),
{
    if ls.len() == 0 {
        assert(attach_seq(seq![c], ls) =~= seq![seq![c]]);
        if cur.len() == 0 {
            assert(cur + seq![c] =~= seq![c]);
            assert(attach_seq(cur, seq![seq![c]]) =~= seq![seq![c]]);
            assert(attach_seq(cur + seq![c], ls) =~= seq![seq![c]]);
        } else {
            assert(attach_seq(cur, seq![seq![c]]) =~= seq![cur + seq![c]]);
            assert(attach_seq(cur + seq![c], ls) =~= seq![cur + seq![c]]);
        }
    } else {
        let inner = attach_seq(seq![c], ls);
        assert(inner =~= ls.update(0, seq![c] + ls[0]));
        assert(inner.len() == ls.len());
        if cur.len() == 0 {
            assert(cur + seq![c] =~= seq![c]);
        } else {
            assert(attach_seq(cur, inner) =~= inner.update(0, cur + inner[0]));
            assert(cur + (seq![c] + ls[0]) =~= (cur + seq![c]) + ls[0]);
            assert(inner.update(0, cur + inner[0]) =~= ls.update(0, (cur + seq![c]) + ls[0]));
        }
    }
}

proof fn lemma_attach_close(cur: Seq<char>, ls: Seq<Seq<char>>)
    ensures
        attach_seq(cur, seq![Seq::<char>::empty()] + ls) == seq![cur] + ls,
{
    let whole = seq![Seq::<char>::empty()] + ls;
    if cur.len() == 0 {
        assert(cur =~= Seq::<char>::empty());
        assert(whole =~= seq![cur] + ls);
    } else {
        assert(whole.len() >= 1);
        assert(whole[0] =~= Seq::<char>::empty());
        assert(cur + whole[0] =~= cur);
        assert(whole.update(0, cur) =~= seq![cur] + ls);
    }
}

/// Split `s` into its lines, as `str::lines` does: segments end at `\n`
/// or `\r\n`, the terminator is dropped, and a trailing terminator adds
/// no empty final line.
pub fn split_lines(s: &str) -> (r: Vec<String>)
    ensures
        views(r@) == lines_of(s@),
{
    let n = s.unicode_len();
    let mut out: Vec<String> = Vec::new();
    let mut st: usize = 0;
    let mut i: usize = 0;
    proof {
        assert(s@.skip(0) =~= s@);
        assert(views(out@) =~= Seq::<Seq<char>>::empty());
        assert(views(out@) + lines_of(s@) =~= lines_of(s@));
    }
    while i < n
        invariant
            n == s@.len(),
            0 <= st <= i <= n,
            lines_of(s@.skip(st as int)) == attach_seq(
                s@.subrange(st as int, i as int),
                lines_of(s@.skip(i as int)),
            ),
            lines_of(s@) == views(out@) + lines_of(s@.skip(st as int)),
        decreases n - i,
    {
        let ghost cur = s@.subrange(st as int, i as int);
        proof {
            assert(s@.skip(i as int)[0] == s@[i as int]);
        }
        let c = s.get_char(i);
        if c == '\r' && i + 1 < n && s.get_char(i + 1) == '\n' {
            proof {
                assert(s@.skip(i as int)[1] == s@[i as int + 1]);
                assert(s@.skip(i as int).skip(2) =~= s@.skip(i as int + 2));
                lemma_attach_close(cur, lines_of(s@.skip(i as int + 2)));
                assert(lines_of(s@.skip(st as int)) == seq![cur] + lines_of(
                    s@.skip(i as int + 2),
                ));
            }
            let piece = s.substring_char(st, i);
            out.push(String::from_str(piece));
            proof {
                assert(views(out@) =~= views(out@.drop_last()) + seq![cur]);
                assert(views(out@.drop_last()) + seq![cur] + lines_of(s@.skip(i as int + 2))
                    =~= views(out@.drop_last()) + (seq![cur] + lines_of(s@.skip(i as int + 2))));
                assert(s@.subrange(i as int + 2, i as int + 2) =~= Seq::<char>::empty());
            }
            i = i + 2;
            st = i;
        } else if c == '\n' {
            proof {
                assert(s@.skip(i as int).skip(1) =~= s@.skip(i as int + 1));
                lemma_attach_close(cur, lines_of(s@.skip(i as int + 1)));
                assert(lines_of(s@.skip(st as int)) == seq![cur] + lines_of(
                    s@.skip(i as int + 1),
                ));
            }
            let piece = s.substring_char(st, i);
            out.push(String::from_str(piece));
            proof {
                assert(views(out@) =~= views(out@.drop_last()) + seq![cur]);
                assert(views(out@.drop_last()) + seq![cur] + lines_of(s@.skip(i as int + 1))
                    =~= views(out@.drop_last()) + (seq![cur] + lines_of(s@.skip(i as int + 1))));
                assert(s@.subrange(i as int + 1, i as int + 1) =~= Seq::<char>::empty());
            }
            i = i + 1;
            st = i;
        } else {
            proof {
                let rest = s@.skip(i as int);
                if rest[0] == '\r' && rest.len() >= 2 && rest[1] == '\n' {
                    assert(s@[i as int + 1] == rest[1]);
                    assert(false);
                }
                assert(rest.skip(1) =~= s@.skip(i as int + 1));
                assert(lines_of(rest) == attach_seq(seq![s@[i as int]], lines_of(
                    s@.skip(i as int + 1),
                )));
                lemma_attach_attach(cur, s@[i as int], lines_of(s@.skip(i as int + 1)));
                assert(cur + seq![s@[i as int]] =~= s@.subrange(st as int, i as int + 1));
            }
            i = i + 1;
        }
    }
    proof {
        assert(s@.skip(n as int) =~= Seq::<char>::empty());
        let cur = s@.subrange(st as int, n as int);
        if st == n {
            assert(cur =~= Seq::<char>::empty());
            assert(views(out@) + lines_of(s@.skip(st as int)) =~= views(out@));
        }
    }
    if st < n {
        let piece = s.substring_char(st, n);
        out.push(String::from_str(piece));
        proof {
            let cur = s@.subrange(st as int, n as int);
            assert(attach_seq(cur, Seq::<Seq<char>>::empty()) =~= seq![cur]);
            assert(views(out@) =~= views(out@.drop_last()) + seq![cur]);
        }
    }
    out
}

/// Keep the lines that are not blank, in order.
fn filter_blank(lines: &Vec<String>) -> (r: Vec<String>)
    ensures
        views(r@) == keep_nonblank(views(lines@)),
{
    let mut out: Vec<String> = Vec::new();
    let mut i: usize = 0;
    proof {
        assert(views(lines@).skip(0) =~= views(lines@));
        assert(views(out@) =~= Seq::<Seq<char>>::empty());
        assert(views(out@) + keep_nonblank(views(lines@)) =~= keep_nonblank(views(lines@)));
    }
    while i < lines.len()
        invariant
            0 <= i <= lines.len(),
            keep_nonblank(views(lines@)) == views(out@) + keep_nonblank(
                views(lines@).skip(i as int),
            ),
        decreases lines.len() - i,
    {
        let ghost vs = views(lines@);
        proof {
            assert(vs.skip(i as int)[0] == vs[i as int]);
            assert(vs[i as int] == lines@[i as int]@);
            assert(vs.skip(i as int).skip(1) =~= vs.skip(i as int + 1));
        }
        if !is_blank_line(lines[i].as_str()) {
            out.push(lines[i].clone());
            proof {
                assert(views(out@) =~= views(out@.drop_last()) + seq![vs[i as int]]);
                assert(views(out@.drop_last()) + (seq![vs[i as int]] + keep_nonblank(
                    vs.skip(i as int + 1),
                )) =~= views(out@.drop_last()) + seq![vs[i as int]] + keep_nonblank(
                    vs.skip(i as int + 1),
                ));
            }
        }
        i += 1;
    }
    proof {
        assert(views(lines@).skip(lines@.len() as int) =~= Seq::<Seq<char>>::empty());
        assert(views(out@) + keep_nonblank(Seq::<Seq<char>>::empty()) =~= views(out@));
    }
    out
}

/// Join lines with a single line feed between adjacent lines.
fn join_lines(lines: &Vec<String>) -> (r: String)
    ensures
        r@ == join_nl(views(lines@)),
{
    let ghost vs = views(lines@);
    let mut out = String::new();
    let mut i: usize = 0;
    while i < lines.len()
        invariant
            0 <= i <= lines.len(),
            vs == views(lines@),
            i == 0 ==> out@ == Seq::<char>::empty(),
            0 < i < lines@.len() ==> join_nl(vs) == out@ + seq!['\n'] + join_nl(
                vs.skip(i as int),
            ),
            i == lines@.len() && i > 0 ==> out@ == join_nl(vs),
        decreases lines.len() - i,
    {
        proof {
            assert(vs.skip(i as int)[0] == vs[i as int]);
            assert(vs[i as int] == lines@[i as int]@);
            assert(vs.skip(i as int).skip(1) =~= vs.skip(i as int + 1));
            reveal_strlit("\n");
            assert("\n"@ =~= seq!['\n']);
        }
        if i > 0 {
            out.append("\n");
        }
        out.append(lines[i].as_str());
        proof {
            let rest = vs.skip(i as int);
            if i + 1 < lines@.len() {
                assert(rest.len() > 1);
                assert(join_nl(rest) == vs[i as int] + seq!['\n'] + join_nl(
                    vs.skip(i as int + 1),
                ));
            } else {
                assert(rest.len() == 1);
                assert(join_nl(rest) == vs[i as int]);
            }
            if i == 0 {
                assert(vs.skip(0) =~= vs);
            }
        }
        i += 1;
    }
    proof {
        if lines@.len() == 0 {
            assert(join_nl(vs) =~= Seq::<char>::empty());
        }
    }
    out
}

/// Remove the blank lines of `s`: the non-blank lines of `s` joined by
/// line feeds. Rendered markup is passed through this before it is
/// embedded or written out.
pub fn blank_line_remover(s: &str) -> (r: String)
    ensures
        r@ == sanitize(s@),
{
    let lines = split_lines(s);
    let kept = filter_blank(&lines);
    join_lines(&kept)
}

proof fn lemma_lines_nl_free(s: Seq<char>)
    ensures
        forall|i: int| 0 <= i < lines_of(s).len() ==> nl_free(#[trigger] lines_of(s)[i]),
    decreases s.len(),
{
    if s.len() == 0 {
    } else if s[0] == '\n' {
        lemma_lines_nl_free(s.skip(1));
        let whole = lines_of(s);
        let rest = lines_of(s.skip(1));
        assert forall|i: int| 0 <= i < whole.len() implies nl_free(#[trigger] whole[i]) by {
            if i == 0 {
                assert(whole[0] =~= Seq::<char>::empty());
            } else {
                assert(whole[i] == rest[i - 1]);
            }
        }
    } else if s[0] == '\r' && s.len() >= 2 && s[1] == '\n' {
        lemma_lines_nl_free(s.skip(2));
        let whole = lines_of(s);
        let rest = lines_of(s.skip(2));
        assert forall|i: int| 0 <= i < whole.len() implies nl_free(#[trigger] whole[i]) by {
            if i == 0 {
                assert(whole[0] =~= Seq::<char>::empty());
            } else {
                assert(whole[i] == rest[i - 1]);
            }
        }
    } else {
        lemma_lines_nl_free(s.skip(1));
        let rest = lines_of(s.skip(1));
        let whole = attach_seq(seq![s[0]], rest);
        assert forall|i: int| 0 <= i < whole.len() implies nl_free(#[trigger] whole[i]) by {
            if rest.len() == 0 {
                assert(whole[i] =~= seq![s[0]]);
            } else if i == 0 {
                assert(whole[0] == seq![s[0]] + rest[0]);
                assert(nl_free(rest[0]));
                assert(forall|j: int|
                    0 <= j < whole[0].len() ==> #[trigger] whole[0][j] != '\n');
            } else {
                assert(whole[i] == rest[i]);
            }
        }
    }
}

proof fn lemma_keep_nonblank_elems(ls: Seq<Seq<char>>)
    requires
        forall|i: int| 0 <= i < ls.len() ==> nl_free(#[trigger] ls[i]),
    ensures
        forall|i: int|
            0 <= i < keep_nonblank(ls).len() ==> nl_free(#[trigger] keep_nonblank(ls)[i])
                && !is_blank(keep_nonblank(ls)[i]),
    decreases ls.len(),
{
    if ls.len() > 0 {
        assert(forall|i: int|
            0 <= i < ls.skip(1).len() ==> nl_free(#[trigger] ls.skip(1)[i]));
        lemma_keep_nonblank_elems(ls.skip(1));
        let whole = keep_nonblank(ls);
        let rest = keep_nonblank(ls.skip(1));
        if !is_blank(ls[0]) {
            assert forall|i: int| 0 <= i < whole.len() implies nl_free(#[trigger] whole[i])
                && !is_blank(whole[i]) by {
                if i == 0 {
                    assert(whole[0] == ls[0]);
                } else {
                    assert(whole[i] == rest[i - 1]);
                }
            }
        } else {
            assert(whole == rest);
        }
    }
}

/// `a` with one trailing carriage return removed, if it has one.
spec fn strip_cr(a: Seq<char>) -> Seq<char> {
    if a.len() > 0 && a[a.len() - 1] == '\r' {
        a.take(a.len() - 1)
    } else {
        a
    }
}

proof fn lemma_strip_cr_nonblank(a: Seq<char>)
    requires
        !is_blank(a),
    ensures
        !is_blank(strip_cr(a)),
{
    let k = choose|k: int| 0 <= k < a.len() && !is_space(a[k]);
    assert(a[k] != '\r');
    if a.len() > 0 && a[a.len() - 1] == '\r' {
        assert(k < a.len() - 1);
        assert(strip_cr(a)[k] == a[k]);
        assert(!is_space(strip_cr(a)[k]));
    }
}

proof fn lemma_lines_single(l: Seq<char>)
    requires
        nl_free(l),
        l.len() > 0,
    ensures
        lines_of(l) == seq![l],
    decreases l.len(),
{
    assert(l[0] != '\n');
    if l.len() >= 2 {
        assert(l[1] != '\n');
    }
    let rest = l.skip(1);
    if rest.len() == 0 {
        assert(lines_of(rest) =~= Seq::<Seq<char>>::empty());
        assert(attach_seq(seq![l[0]], lines_of(rest)) =~= seq![seq![l[0]]]);
        assert(seq![l[0]] =~= l);
    } else {
        lemma_lines_single(rest);
        assert(attach_seq(seq![l[0]], seq![rest]) =~= seq![seq![l[0]] + rest]);
        assert(seq![l[0]] + rest =~= l);
    }
}

proof fn lemma_lines_decompose(a: Seq<char>, t: Seq<char>)
    requires
        nl_free(a),
    ensures
        lines_of(a + seq!['\n'] + t) == seq![strip_cr(a)] + lines_of(t),
    decreases a.len(),
{
    let whole = a + seq!['\n'] + t;
    if a.len() == 0 {
        assert(whole[0] == '\n');
        assert(whole.skip(1) =~= t);
        assert(strip_cr(a) =~= Seq::<char>::empty());
        assert(seq![Seq::<char>::empty()] + lines_of(t) =~= seq![strip_cr(a)] + lines_of(t));
    } else if a.len() == 1 && a[0] == '\r' {
        assert(whole[0] == '\r');
        assert(whole.len() >= 2);
        assert(whole[1] == '\n');
        assert(whole.skip(2) =~= t);
        assert(strip_cr(a) =~= Seq::<char>::empty());
        assert(seq![Seq::<char>::empty()] + lines_of(t) =~= seq![strip_cr(a)] + lines_of(t));
    } else {
        let a2 = a.skip(1);
        assert(whole[0] == a[0]);
        assert(whole[0] != '\n');
        if whole[0] == '\r' && whole.len() >= 2 && whole[1] == '\n' {
            // then a2 is empty and a == ['\r'], handled above
            assert(a.len() >= 2 ==> whole[1] == a[1] && a[1] != '\n');
            assert(a.len() == 1);
            assert(false);
        }
        assert(whole.skip(1) =~= a2 + seq!['\n'] + t);
        lemma_lines_decompose(a2, t);
        let rest = seq![strip_cr(a2)] + lines_of(t);
        assert(lines_of(whole) == attach_seq(seq![a[0]], rest));
        assert(rest.len() >= 1);
        assert(attach_seq(seq![a[0]], rest) =~= rest.update(0, seq![a[0]] + strip_cr(a2)));
        if a2.len() > 0 && a2[a2.len() - 1] == '\r' {
            assert(a[a.len() - 1] == '\r');
            assert(seq![a[0]] + a2.take(a2.len() - 1) =~= a.take(a.len() - 1));
            assert(seq![a[0]] + strip_cr(a2) =~= strip_cr(a));
        } else if a2.len() == 0 {
            assert(a.len() == 1);
            assert(a[0] != '\r');
            assert(strip_cr(a2) =~= Seq::<char>::empty());
            assert(seq![a[0]] + strip_cr(a2) =~= a);
            assert(seq![a[0]] + strip_cr(a2) =~= strip_cr(a));
        } else {
            assert(a.len() >= 2);
            assert(a[a.len() - 1] == a2[a2.len() - 1]);
            assert(seq![a[0]] + a2 =~= a);
            assert(seq![a[0]] + strip_cr(a2) =~= strip_cr(a));
        }
        assert(rest.update(0, strip_cr(a)) =~= seq![strip_cr(a)] + lines_of(t));
    }
}

proof fn lemma_join_blankfree(ls: Seq<Seq<char>>)
    requires
        forall|i: int| 0 <= i < ls.len() ==> nl_free(#[trigger] ls[i]) && !is_blank(ls[i]),
    ensures
        forall|i: int|
            0 <= i < lines_of(join_nl(ls)).len() ==> !is_blank(
                #[trigger] lines_of(join_nl(ls))[i],
            ),
    decreases ls.len(),
{
    if ls.len() == 0 {
    } else if ls.len() == 1 {
        assert(nl_free(ls[0]) && !is_blank(ls[0]));
        assert(ls[0].len() > 0);
        lemma_lines_single(ls[0]);
        assert(lines_of(join_nl(ls)) == seq![ls[0]]);
    } else {
        let tail = ls.skip(1);
        assert(forall|i: int|
            0 <= i < tail.len() ==> nl_free(#[trigger] tail[i]) && !is_blank(tail[i]));
        lemma_join_blankfree(tail);
        lemma_lines_decompose(ls[0], join_nl(tail));
        lemma_strip_cr_nonblank(ls[0]);
        let out = lines_of(join_nl(ls));
        assert(out == seq![strip_cr(ls[0])] + lines_of(join_nl(tail)));
        assert forall|i: int| 0 <= i < out.len() implies !is_blank(#[trigger] out[i]) by {
            if i == 0 {
                assert(out[0] == strip_cr(ls[0]));
            } else {
                assert(out[i] == lines_of(join_nl(tail))[i - 1]);
            }
        }
    }
}

/// The sanitized form of any text contains no blank line: every line of
/// `sanitize(s)` has at least one non-whitespace character.
pub proof fn lemma_sanitize_no_blank_lines(s: Seq<char>)
    ensures
        forall|i: int|
            0 <= i < lines_of(sanitize(s)).len() ==> !is_blank(
                #[trigger] lines_of(sanitize(s))[i],
            ),
{
    lemma_lines_nl_free(s);
    lemma_keep_nonblank_elems(lines_of(s));
    lemma_join_blankfree(keep_nonblank(lines_of(s)));
}

proof fn lemma_replace_nl_concat(a: Seq<char>, b: Seq<char>)
    ensures
        replace_nl(a + b) == replace_nl(a) + replace_nl(b),
    decreases a.len(),
{
    if a.len() == 0 {
        assert(a + b =~= b);
        assert(replace_nl(a) =~= Seq::<char>::empty());
        assert(replace_nl(a) + replace_nl(b) =~= replace_nl(b));
    } else {
        assert((a + b)[0] == a[0]);
        assert((a + b).skip(1) =~= a.skip(1) + b);
        lemma_replace_nl_concat(a.skip(1), b);
        if a[0] == '\n' {
            assert(replace_nl(a + b) == "<br/>"@ + (replace_nl(a.skip(1)) + replace_nl(b)));
            assert("<br/>"@ + (replace_nl(a.skip(1)) + replace_nl(b)) =~= ("<br/>"@ + replace_nl(
                a.skip(1),
            )) + replace_nl(b));
        } else {
            assert(replace_nl(a + b) == seq![a[0]] + (replace_nl(a.skip(1)) + replace_nl(b)));
            assert(seq![a[0]] + (replace_nl(a.skip(1)) + replace_nl(b)) =~= (seq![a[0]]
                + replace_nl(a.skip(1))) + replace_nl(b));
        }
    }
}

proof fn lemma_replace_nl_free(a: Seq<char>)
    requires
        nl_free(a),
    ensures
        replace_nl(a) == a,
    decreases a.len(),
{
    if a.len() > 0 {
        lemma_replace_nl_free(a.skip(1));
        assert(seq![a[0]] + a.skip(1) =~= a);
    }
}

/// Wrap a renderer's error message in a bordered, colored HTML block with
/// line feeds turned into HTML breaks, so a failed render is visible in
/// the output document.
pub fn error_format(s: &str) -> (r: String)
    ensures
        r@ == error_html(s@),
{
    let n = s.unicode_len();
    let mut out = String::from_str(
        "<div style=\"color: red; border: 5px double red; padding: 1em;\">",
    );
    let ghost header = "<div style=\"color: red; border: 5px double red; padding: 1em;\">"@;
    let mut st: usize = 0;
    let mut i: usize = 0;
    while i < n
        invariant
            n == s@.len(),
            0 <= st <= i <= n,
            nl_free(s@.subrange(st as int, i as int)),
            out@ == header + replace_nl(s@.take(st as int)),
        decreases n - i,
    {
        let c = s.get_char(i);
        if c == '\n' {
            let piece = s.substring_char(st, i);
            out.append(piece);
            out.append("<br/>");
            proof {
                let pre = s@.take(st as int);
                let chunk = s@.subrange(st as int, i as int);
                let nl = s@.subrange(i as int, i as int + 1);
                assert(nl =~= seq!['\n']);
                assert(s@.take(i as int + 1) =~= pre + chunk + nl);
                lemma_replace_nl_concat(pre + chunk, nl);
                lemma_replace_nl_concat(pre, chunk);
                lemma_replace_nl_free(chunk);
                assert(replace_nl(nl) == "<br/>"@ + replace_nl(nl.skip(1)));
                assert(nl.skip(1) =~= Seq::<char>::empty());
                assert(replace_nl(nl) =~= "<br/>"@);
                assert(out@ =~= header + replace_nl(s@.take(i as int + 1)));
            }
            i = i + 1;
            st = i;
        } else {
            proof {
                assert(s@.subrange(st as int, i as int + 1) =~= s@.subrange(st as int, i as int)
                    + seq![s@[i as int]]);
            }
            i = i + 1;
        }
    }
    let piece = s.substring_char(st, n);
    out.append(piece);
    out.append("</div>");
    proof {
        let pre = s@.take(st as int);
        let chunk = s@.subrange(st as int, n as int);
        assert(s@.take(n as int) =~= pre + chunk);
        lemma_replace_nl_concat(pre, chunk);
        lemma_replace_nl_free(chunk);
        assert(s@.take(n as int) =~= s@);
        assert(out@ =~= error_html(s@));
    }
    out
}

} // verus!
