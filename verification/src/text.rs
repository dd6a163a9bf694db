//! Character-level string utilities: conversions between `String` and
//! `Vec<char>`, lowercasing, and the whitespace normalizers used for
//! command-name comparison and table layout.

use vstd::prelude::*;
use vstd::string::StrSliceExecFns;

verus! {

/// The characters with the Unicode `White_Space` property, the set that
/// `char::is_whitespace` recognizes.
pub open spec fn spec_is_space(c: char) -> bool {
    c == ' ' || c == '\u{9}' || c == '\u{a}' || c == '\u{b}' || c == '\u{c}' || c == '\u{d}'
        || c == '\u{85}' || c == '\u{a0}' || c == '\u{1680}' || c == '\u{2000}' || c == '\u{2001}'
        || c == '\u{2002}' || c == '\u{2003}' || c == '\u{2004}' || c == '\u{2005}'
        || c == '\u{2006}' || c == '\u{2007}' || c == '\u{2008}' || c == '\u{2009}'
        || c == '\u{200a}' || c == '\u{2028}' || c == '\u{2029}' || c == '\u{202f}'
        || c == '\u{205f}' || c == '\u{3000}'
}

/// Whether `c` is a whitespace character.
pub fn is_space(c: char) -> (r: bool)
    ensures
        r == spec_is_space(c),
{
    c == ' ' || c == '\u{9}' || c == '\u{a}' || c == '\u{b}' || c == '\u{c}' || c == '\u{d}'
        || c == '\u{85}' || c == '\u{a0}' || c == '\u{1680}' || c == '\u{2000}' || c == '\u{2001}'
        || c == '\u{2002}' || c == '\u{2003}' || c == '\u{2004}' || c == '\u{2005}'
        || c == '\u{2006}' || c == '\u{2007}' || c == '\u{2008}' || c == '\u{2009}'
        || c == '\u{200a}' || c == '\u{2028}' || c == '\u{2029}' || c == '\u{202f}'
        || c == '\u{205f}' || c == '\u{3000}'
}

/// The characters of `s`, in order.
pub fn str_to_chars(s: &str) -> (r: Vec<char>)
    ensures
        r@ == s@,
{
    let n: usize = s.unicode_len();
    let mut r: Vec<char> = Vec::new();
    let mut i: usize = 0;
    while i < n
        invariant
            n == s@.len(),
            i <= n,
            r@ == s@.subrange(0, i as int),
        decreases n - i,
    {
        let c = s.get_char(i);
        r.push(c);
        proof {
            assert(r@ =~= s@.subrange(0, i + 1 as int));
        }
        i = i + 1;
    }
    proof {
        assert(r@ =~= s@);
    }
    r
}

/// Whether two string slices hold the same characters.
pub fn str_eq(a: &str, b: &str) -> (r: bool)
    ensures
        r == (a@ == b@),
{
    let n: usize = a.unicode_len();
    let m: usize = b.unicode_len();
    if n != m {
        return false;
    }
    let mut i: usize = 0;
    while i < n
        invariant
            n == a@.len(),
            n == b@.len(),
            i <= n,
            forall|j: int| 0 <= j < i ==> a@[j] == b@[j],
        decreases n - i,
    {
        if a.get_char(i) != b.get_char(i) {
            return false;
        }
        i = i + 1;
    }
    proof {
        assert(a@ =~= b@);
    }
    true
}

/// Relies on `String::push`: appends the given character to the end of the
/// string.
#[verifier::external_body]
fn push_char(s: &mut String, c: char)
    ensures
        final(s)@ == old(s)@.push(c),
{
    s.push(c);
}

/// A `String` holding exactly the characters of `v`, in order.
pub fn chars_to_string(v: &Vec<char>) -> (r: String)
    ensures
        r@ == v@,
{
    let mut r = String::new();
    let mut i: usize = 0;
    while i < v.len()
        invariant
            i <= v@.len(),
            r@ == v@.subrange(0, i as int),
        decreases v@.len() - i,
    {
        push_char(&mut r, v[i]);
        proof {
            assert(r@ =~= v@.subrange(0, i + 1 as int));
        }
        i = i + 1;
    }
    proof {
        assert(r@ =~= v@);
    }
    r
}

/// What `str::to_lowercase` returns: the Unicode lowercase equivalent of a
/// sequence of characters.
pub uninterp spec fn lower_of(s: Seq<char>) -> Seq<char>;

/// Relies on `str::to_lowercase`: returns the lowercase equivalent of `s` per
/// the Unicode `Lowercase` property; the result depends on the characters
/// alone, and an empty string stays empty.
#[verifier::external_body]
pub(crate) fn lowercase(s: &str) -> (r: String)
    ensures
        r@ == lower_of(s@),
        s@.len() == 0 ==> r@.len() == 0,
{
    s.to_lowercase()
}

/// `s` with every plain space character removed.
pub open spec fn spec_remove_spaces(s: Seq<char>) -> Seq<char>
    decreases s.len(),
{
    if s.len() == 0 {
        Seq::empty()
    } else {
        let rest = spec_remove_spaces(s.drop_last());
        if s.last() == ' ' {
            rest
        } else {
            rest.push(s.last())
        }
    }
}

/// A name normalized for comparison: lowercased, spaces removed.
pub open spec fn spec_normalize_name(s: Seq<char>) -> Seq<char> {
    spec_remove_spaces(lower_of(s))
}

/// Normalize a name for comparisons (lowercase, spaces removed).
pub fn normalize_name(s: &str) -> (r: String)
    ensures
        r@ == spec_normalize_name(s@),
{
    let lowered = lowercase(s);
    let chars = str_to_chars(lowered.as_str());
    let mut out: Vec<char> = Vec::new();
    let mut i: usize = 0;
    while i < chars.len()
        invariant
            i <= chars@.len(),
            out@ == spec_remove_spaces(chars@.subrange(0, i as int)),
        decreases chars@.len() - i,
    {
        let c = chars[i];
        if c != ' ' {
            out.push(c);
        }
        proof {
            let pre = chars@.subrange(0, i + 1 as int);
            assert(pre.drop_last() =~= chars@.subrange(0, i as int));
        }
        i = i + 1;
    }
    proof {
        assert(chars@.subrange(0, chars@.len() as int) =~= chars@);
    }
    chars_to_string(&out)
}

/// `s` with every whitespace run collapsed to one space: a space stands
/// where a run began, other characters pass through.
pub open spec fn spec_collapse_ws(s: Seq<char>) -> Seq<char>
    decreases s.len(),
{
    if s.len() == 0 {
        Seq::empty()
    } else {
        let rest = spec_collapse_ws(s.drop_last());
        let c = s.last();
        if !spec_is_space(c) {
            rest.push(c)
        } else if s.len() == 1 || !spec_is_space(s[s.len() - 2]) {
            rest.push(' ')
        } else {
            rest
        }
    }
}

/// `s` trimmed, with interior whitespace runs collapsed to single spaces.
pub open spec fn spec_normalize_whitespace(s: Seq<char>) -> Seq<char> {
    crate::template::spec_trim(spec_collapse_ws(s))
}

/// Trim and collapse whitespace to single spaces.
pub fn normalize_whitespace(s: &str) -> (r: String)
    ensures
        r@ == spec_normalize_whitespace(s@),
{
    let chars = str_to_chars(s);
    let n = chars.len();
    let mut out: Vec<char> = Vec::new();
    let mut prev_space = false;
    let mut i: usize = 0;
    while i < n
        invariant
            n == chars@.len(),
            i <= n,
            out@ == spec_collapse_ws(chars@.take(i as int)),
            prev_space == (i > 0 && spec_is_space(chars@[i - 1])),
        decreases n - i,
    {
        proof {
            assert(chars@.take(i + 1 as int).drop_last() =~= chars@.take(i as int));
        }
        let c = chars[i];
        if is_space(c) {
            if !prev_space {
                out.push(' ');
            }
            prev_space = true;
        } else {
            out.push(c);
            prev_space = false;
        }
        i = i + 1;
    }
    proof {
        assert(chars@.take(n as int) =~= chars@);
    }
    let trimmed = crate::template::trim_range(&out, 0, out.len());
    proof {
        assert(out@.subrange(0, out@.len() as int) =~= out@);
    }
    chars_to_string(&trimmed)
}

/// The whitespace-separated words of `s`, in order.
pub open spec fn spec_words(s: Seq<char>) -> Seq<Seq<char>>
    decreases s.len(),
{
    if s.len() == 0 {
        Seq::empty()
    } else {
        let rest = spec_words(s.drop_last());
        let c = s.last();
        if spec_is_space(c) {
            rest
        } else if s.len() == 1 || spec_is_space(s[s.len() - 2]) {
            rest.push(seq![c])
        } else {
            rest.update(rest.len() - 1, rest.last().push(c))
        }
    }
}

/// Split `s` into its whitespace-separated words.
pub fn split_words(s: &Vec<char>) -> (r: Vec<Vec<char>>)
    ensures
        r.deep_view() == spec_words(s@),
{
    let n = s.len();
    let mut words: Vec<Vec<char>> = Vec::new();
    let mut cur: Vec<char> = Vec::new();
    let mut i: usize = 0;
    while i < n
        invariant
            n == s@.len(),
            i <= n,
            (cur@.len() == 0) == (i == 0 || spec_is_space(s@[i - 1])),
            cur@.len() == 0 ==> spec_words(s@.take(i as int)) == words.deep_view(),
            cur@.len() > 0 ==> spec_words(s@.take(i as int)) == words.deep_view().push(cur@),
        decreases n - i,
    {
        proof {
            assert(s@.take(i + 1 as int).drop_last() =~= s@.take(i as int));
        }
        let c = s[i];
        if is_space(c) {
            if cur.len() > 0 {
                let ghost pre_words = words.deep_view();
                let ghost pre_cur = cur@;
                words.push(cur);
                cur = Vec::new();
                proof {
                    assert(words@[words@.len() - 1].deep_view() =~= pre_cur);
                    assert(words.deep_view() =~= pre_words.push(pre_cur));
                }
            }
        } else {
            if cur.len() == 0 {
                cur.push(c);
                proof {
                    assert(cur@ =~= seq![c]);
                }
            } else {
                let ghost prev = cur@;
                cur.push(c);
                proof {
                    let w = words.deep_view().push(prev);
                    assert(w.update(w.len() - 1, w.last().push(c)) =~= words.deep_view().push(
                        cur@,
                    ));
                }
            }
        }
        i = i + 1;
    }
    proof {
        assert(s@.take(n as int) =~= s@);
    }
    if cur.len() > 0 {
        let ghost pre_words = words.deep_view();
        let ghost pre_cur = cur@;
        words.push(cur);
        proof {
            assert(words@[words@.len() - 1].deep_view() =~= pre_cur);
            assert(words.deep_view() =~= pre_words.push(pre_cur));
        }
    }
    words
}

/// The full chunks of exactly `width` characters a long word hard-wraps
/// into.
pub open spec fn spec_chunks(w: Seq<char>, width: int) -> Seq<Seq<char>>
    decreases w.len(),
{
    if width < 1 || w.len() < width {
        Seq::empty()
    } else {
        seq![w.take(width)] + spec_chunks(w.skip(width), width)
    }
}

/// What remains of a long word after its full chunks.
pub open spec fn spec_chunk_rest(w: Seq<char>, width: int) -> Seq<char>
    decreases w.len(),
{
    if width < 1 || w.len() < width {
        w
    } else {
        spec_chunk_rest(w.skip(width), width)
    }
}

/// One word placed during greedy wrapping: appended to the open line when
/// it fits, else the line is flushed and the word starts a new one,
/// hard-wrapped into chunks when it alone exceeds the width.
pub open spec fn spec_wrap_word(
    acc: Seq<Seq<char>>,
    line: Seq<char>,
    w: Seq<char>,
    width: int,
) -> (Seq<Seq<char>>, Seq<char>) {
    let pending = if line.len() == 0 {
        w.len() as int
    } else {
        1 + w.len() as int
    };
    if line.len() + pending <= width {
        (acc, if line.len() == 0 {
            w
        } else {
            line + seq![' '] + w
        })
    } else {
        let acc1 = if line.len() > 0 {
            acc.push(line)
        } else {
            acc
        };
        if w.len() <= width {
            (acc1, w)
        } else {
            (acc1 + spec_chunks(w, width), spec_chunk_rest(w, width))
        }
    }
}

/// All words placed in order.
pub open spec fn spec_wrap_words(
    acc: Seq<Seq<char>>,
    line: Seq<char>,
    words: Seq<Seq<char>>,
    width: int,
) -> (Seq<Seq<char>>, Seq<char>)
    decreases words.len(),
{
    if words.len() == 0 {
        (acc, line)
    } else {
        let step = spec_wrap_word(acc, line, words[0], width);
        spec_wrap_words(step.0, step.1, words.drop_first(), width)
    }
}

/// The lines `s` word-wraps into at `width`: greedy placement, long words
/// hard-wrapped; a zero width yields one empty line, and the final open
/// line is emitted even when empty only if no other line was.
pub open spec fn spec_wrap_text(s: Seq<char>, width: int) -> Seq<Seq<char>> {
    if width <= 0 {
        seq![Seq::<char>::empty()]
    } else {
        let folded = spec_wrap_words(Seq::empty(), Seq::empty(), spec_words(s), width);
        if folded.1.len() > 0 || folded.0.len() == 0 {
            folded.0.push(folded.1)
        } else {
            folded.0
        }
    }
}

/// Word-wrap `s` to `width` characters per line.
pub fn wrap_text(s: &Vec<char>, width: usize) -> (r: Vec<Vec<char>>)
    ensures
        r.deep_view() == spec_wrap_text(s@, width as int),
{
    if width == 0 {
        let mut r: Vec<Vec<char>> = Vec::new();
        r.push(Vec::new());
        proof {
            assert(r@[0].deep_view() =~= Seq::<char>::empty());
            assert(r.deep_view() =~= spec_wrap_text(s@, 0));
        }
        return r;
    }
    let words = split_words(s);
    let ghost all = words.deep_view();
    let mut lines: Vec<Vec<char>> = Vec::new();
    let mut line: Vec<char> = Vec::new();
    let mut k: usize = 0;
    proof {
        assert(all.skip(0) =~= all);
        assert(lines.deep_view() =~= Seq::<Seq<char>>::empty());
        assert(line@ =~= Seq::<char>::empty());
    }
    while k < words.len()
        invariant
            all == words.deep_view(),
            k <= all.len(),
            width >= 1,
            spec_wrap_words(Seq::empty(), Seq::empty(), all, width as int) == spec_wrap_words(
                lines.deep_view(),
                line@,
                all.skip(k as int),
                width as int,
            ),
        decreases all.len() - k,
    {
        proof {
            assert(all.skip(k as int)[0] == all[k as int]);
            assert(all.skip(k as int).drop_first() =~= all.skip(k + 1 as int));
            assert(words.deep_view()[k as int] =~= words@[k as int]@);
        }
        let w = &words[k];
        let wl = w.len();
        let ghost pre_acc = lines.deep_view();
        let ghost pre_line = line@;
        let ghost step = spec_wrap_word(pre_acc, pre_line, all[k as int], width as int);
        let fits: bool = if line.len() == 0 {
            wl <= width
        } else {
            wl < width && line.len() <= width - wl - 1
        };
        proof {
            let pending: int = if pre_line.len() == 0 {
                all[k as int].len() as int
            } else {
                1 + all[k as int].len() as int
            };
            assert(fits == (pre_line.len() + pending <= width as int));
        }
        if fits {
            if line.len() == 0 {
                line = copy_chars(w);
            } else {
                line.push(' ');
                let mut tail = copy_chars(w);
                line.append(&mut tail);
                proof {
                    assert(line@ =~= pre_line + seq![' '] + all[k as int]);
                }
            }
            proof {
                assert(lines.deep_view() =~= step.0);
                assert(line@ =~= step.1);
            }
        } else {
            if line.len() > 0 {
                lines.push(line);
                line = Vec::new();
                proof {
                    assert(lines@[lines@.len() - 1].deep_view() =~= pre_line);
                    assert(lines.deep_view() =~= pre_acc.push(pre_line));
                }
            }
            let ghost acc1 = if pre_line.len() > 0 {
                pre_acc.push(pre_line)
            } else {
                pre_acc
            };
            if wl <= width {
                line = copy_chars(w);
                proof {
                    assert(lines.deep_view() =~= step.0);
                    assert(line@ =~= step.1);
                }
            } else {
                let ghost pre_lines = lines.deep_view();
                proof {
                    assert(pre_lines =~= acc1);
                    assert(w@.skip(0) =~= w@);
                    assert(spec_chunks_upto(w@, width as int, 0) =~= Seq::<Seq<char>>::empty());
                    assert(spec_chunks_upto(w@, width as int, 0) + spec_chunks(
                        w@.skip(0),
                        width as int,
                    ) =~= spec_chunks(w@, width as int));
                    assert(pre_lines + spec_chunks_upto(w@, width as int, 0) =~= pre_lines);
                }
                let mut pos: usize = 0;
                while wl - pos >= width
                    invariant
                        all == words.deep_view(),
                        k < all.len(),
                        w == &words@[k as int],
                        w@ =~= all[k as int],
                        wl == w@.len(),
                        width >= 1,
                        pos <= wl,
                        lines.deep_view() =~= pre_lines + spec_chunks_upto(
                            w@,
                            width as int,
                            pos as int,
                        ),
                        spec_chunks(w@, width as int) =~= spec_chunks_upto(
                            w@,
                            width as int,
                            pos as int,
                        ) + spec_chunks(w@.skip(pos as int), width as int),
                        spec_chunk_rest(w@, width as int) == spec_chunk_rest(
                            w@.skip(pos as int),
                            width as int,
                        ),
                    decreases wl - pos,
                {
                    let mut chunk: Vec<char> = Vec::new();
                    let mut t: usize = pos;
                    while t < pos + width
                        invariant
                            pos + width <= wl,
                            wl == w@.len(),
                            w == &words@[k as int],
                            all == words.deep_view(),
                            k < all.len(),
                            pos <= t <= pos + width,
                            chunk@ =~= w@.subrange(pos as int, t as int),
                        decreases pos + width - t,
                    {
                        chunk.push(w[t]);
                        proof {
                            assert(chunk@ =~= w@.subrange(pos as int, t + 1 as int));
                        }
                        t = t + 1;
                    }
                    let ghost before = lines.deep_view();
                    lines.push(chunk);
                    proof {
                        let ghost ch = w@.subrange(pos as int, pos + width as int);
                        assert(w@.skip(pos as int).take(width as int) =~= ch);
                        assert(w@.skip(pos as int).skip(width as int) =~= w@.skip(
                            pos + width as int,
                        ));
                        assert(spec_chunks(w@.skip(pos as int), width as int) =~= seq![ch]
                            + spec_chunks(w@.skip(pos + width as int), width as int));
                        assert(spec_chunks_upto(w@, width as int, pos + width as int)
                            =~= spec_chunks_upto(w@, width as int, pos as int).push(ch));
                        assert(lines@[lines@.len() - 1].deep_view() =~= ch);
                        assert(lines.deep_view() =~= before.push(ch));
                        assert(before.push(ch) =~= pre_lines + spec_chunks_upto(
                            w@,
                            width as int,
                            pos + width as int,
                        ));
                        assert(spec_chunks_upto(w@, width as int, pos as int).push(ch)
                            + spec_chunks(w@.skip(pos + width as int), width as int)
                            =~= spec_chunks_upto(w@, width as int, pos as int) + (seq![ch]
                            + spec_chunks(w@.skip(pos + width as int), width as int)));
                    }
                    pos = pos + width;
                }
                proof {
                    assert(w@.skip(pos as int).len() < width);
                    assert(spec_chunks(w@.skip(pos as int), width as int) =~= Seq::<
                        Seq<char>,
                    >::empty());
                    assert(spec_chunks_upto(w@, width as int, pos as int) + Seq::<
                        Seq<char>,
                    >::empty() =~= spec_chunks_upto(w@, width as int, pos as int));
                    assert(spec_chunk_rest(w@.skip(pos as int), width as int) == w@.skip(
                        pos as int,
                    ));
                }
                line = tail_range(w, pos);
                proof {
                    assert(lines.deep_view() =~= pre_lines + spec_chunks(w@, width as int));
                    assert(lines.deep_view() =~= step.0);
                    assert(line@ =~= step.1);
                }
            }
        }
        k = k + 1;
    }
    proof {
        assert(all.skip(all.len() as int) =~= Seq::<Seq<char>>::empty());
    }
    if line.len() > 0 || lines.len() == 0 {
        let ghost pre_lines = lines.deep_view();
        let ghost pre_line = line@;
        lines.push(line);
        proof {
            assert(lines@[lines@.len() - 1].deep_view() =~= pre_line);
            assert(lines.deep_view() =~= pre_lines.push(pre_line));
        }
    }
    lines
}

/// The chunks of `w` that start before `upto`.
pub open spec fn spec_chunks_upto(w: Seq<char>, width: int, upto: int) -> Seq<Seq<char>>
    decreases upto,
{
    if width < 1 || upto < width || w.len() < upto {
        Seq::empty()
    } else {
        spec_chunks_upto(w, width, upto - width).push(w.subrange(upto - width, upto))
    }
}

/// The characters of `v` from `from` on.
pub fn tail_range(v: &Vec<char>, from: usize) -> (r: Vec<char>)
    requires
        from <= v@.len(),
    ensures
        r@ == v@.skip(from as int),
{
    let mut out: Vec<char> = Vec::new();
    let mut i: usize = from;
    while i < v.len()
        invariant
            from <= i <= v@.len(),
            out@ =~= v@.subrange(from as int, i as int),
        decreases v@.len() - i,
    {
        out.push(v[i]);
        proof {
            assert(out@ =~= v@.subrange(from as int, i + 1 as int));
        }
        i = i + 1;
    }
    proof {
        assert(out@ =~= v@.skip(from as int));
    }
    out
}

proof fn lemma_chunks_widths(w: Seq<char>, width: int)
    requires
        width >= 1,
    ensures
        forall|i: int|
            0 <= i < spec_chunks(w, width).len() ==> (#[trigger] spec_chunks(w, width)[i]).len()
                == width,
        spec_chunk_rest(w, width).len() < width,
    decreases w.len(),
{
    if w.len() >= width {
        lemma_chunks_widths(w.skip(width), width);
        assert(forall|i: int|
            1 <= i < spec_chunks(w, width).len() ==> spec_chunks(w, width)[i] == spec_chunks(
                w.skip(width),
                width,
            )[i - 1]);
    }
}

proof fn lemma_wrap_words_widths(acc: Seq<Seq<char>>, line: Seq<char>, words: Seq<Seq<char>>, width: int)
    requires
        width >= 1,
        forall|i: int| 0 <= i < acc.len() ==> (#[trigger] acc[i]).len() <= width,
        line.len() <= width,
    ensures
        forall|i: int|
            0 <= i < spec_wrap_words(acc, line, words, width).0.len() ==> (
            #[trigger] spec_wrap_words(acc, line, words, width).0[i]).len() <= width,
        spec_wrap_words(acc, line, words, width).1.len() <= width,
    decreases words.len(),
{
    if words.len() > 0 {
        let step = spec_wrap_word(acc, line, words[0], width);
        lemma_chunks_widths(words[0], width);
        assert(forall|i: int| 0 <= i < step.0.len() ==> (#[trigger] step.0[i]).len() <= width);
        assert(step.1.len() <= width);
        lemma_wrap_words_widths(step.0, step.1, words.drop_first(), width);
    }
}

/// Every line of a wrapped text fits the width: greedy placement never
/// exceeds it, and long words are hard-wrapped into exact-width chunks.
pub proof fn lemma_wrap_text_fits(s: Seq<char>, width: int)
    requires
        width >= 1,
    ensures
        forall|i: int|
            0 <= i < spec_wrap_text(s, width).len() ==> (#[trigger] spec_wrap_text(s, width)[i]).len()
                <= width,
{
    lemma_wrap_words_widths(Seq::empty(), Seq::empty(), spec_words(s), width);
}

/// `n` copies of `c`.
pub open spec fn spec_repeat(c: char, n: int) -> Seq<char>
    decreases n,
{
    if n <= 0 {
        Seq::empty()
    } else {
        spec_repeat(c, n - 1).push(c)
    }
}

/// A run of `n` copies of `c`.
pub fn repeat_char(c: char, n: usize) -> (r: Vec<char>)
    ensures
        r@ == spec_repeat(c, n as int),
{
    let mut out: Vec<char> = Vec::new();
    let mut i: usize = 0;
    while i < n
        invariant
            i <= n,
            out@ == spec_repeat(c, i as int),
        decreases n - i,
    {
        out.push(c);
        i = i + 1;
    }
    out
}

/// `s` padded with spaces on the right to width `w`; a longer `s` passes
/// through.
pub open spec fn spec_pad(s: Seq<char>, w: int) -> Seq<char> {
    if s.len() >= w {
        s
    } else {
        s + spec_repeat(' ', w - s.len())
    }
}

/// Pad `v` with spaces on the right to width `w`.
pub fn pad_chars(v: &Vec<char>, w: usize) -> (r: Vec<char>)
    ensures
        r@ == spec_pad(v@, w as int),
{
    let mut out = copy_chars(v);
    if v.len() >= w {
        return out;
    }
    let mut fill = repeat_char(' ', w - v.len());
    out.append(&mut fill);
    out
}

/// `s` clipped to `w` characters, the last replaced by an ellipsis when
/// clipping was needed.
pub open spec fn spec_clip(s: Seq<char>, w: int) -> Seq<char> {
    if w <= 0 {
        Seq::empty()
    } else if s.len() <= w {
        s
    } else if w == 1 {
        seq!['\u{2026}']
    } else {
        s.take(w - 1).push('\u{2026}')
    }
}

/// Clip `v` to `w` characters with an ellipsis when it is longer.
pub fn clip_chars(v: &Vec<char>, w: usize) -> (r: Vec<char>)
    ensures
        r@ == spec_clip(v@, w as int),
{
    if w == 0 {
        return Vec::new();
    }
    if v.len() <= w {
        return copy_chars(v);
    }
    if w == 1 {
        let mut out: Vec<char> = Vec::new();
        out.push('\u{2026}');
        proof {
            assert(out@ =~= seq!['\u{2026}']);
        }
        return out;
    }
    let mut out: Vec<char> = Vec::new();
    let mut i: usize = 0;
    while i < w - 1
        invariant
            w >= 2,
            w <= v@.len(),
            i <= w - 1,
            out@ =~= v@.subrange(0, i as int),
        decreases w - i,
    {
        out.push(v[i]);
        proof {
            assert(out@ =~= v@.subrange(0, i + 1 as int));
        }
        i = i + 1;
    }
    out.push('\u{2026}');
    proof {
        assert(out@ =~= v@.take(w - 1 as int).push('\u{2026}'));
    }
    out
}

/// An equal character vector.
pub fn copy_chars(v: &Vec<char>) -> (r: Vec<char>)
    ensures
        r@ == v@,
{
    tail_range(v, 0)
}

} // verus!
