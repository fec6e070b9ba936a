//! Line wrapping: greedy word wrap at a target visible width. Escape
//! sequences take no columns, words are never broken, and a word wider than
//! the whole line stands alone on its own line.

use vstd::prelude::*;

use crate::buffer::{has_no_newline, is_complete_line};
use crate::pace::{esc_char, has_no_escape, lemma_strip_id_no_esc, spec_strip_ansi};
use crate::stream::{lemma_line_len_of_concat, lemma_line_len_no_newline, spec_lines_of};
use crate::text::{
    is_space, is_space_char, lemma_trim_front_first, lemma_trim_front_skip, spec_trim_front,
    spec_word_len, word_len_from,
};

verus! {

/// `spec_trim_front` never lengthens a text.
proof fn lemma_trim_front_len(s: Seq<char>)
    ensures
        spec_trim_front(s).len() <= s.len(),
    decreases s.len(),
{
    if s.len() > 0 && is_space_char(s[0]) {
        lemma_trim_front_len(s.drop_first());
    }
}

/// The whitespace-separated words of `s`, in order, without the whitespace.
pub open spec fn spec_words(s: Seq<char>) -> Seq<Seq<char>>
    decreases s.len(),
    via spec_words_decreases
{
    let t = spec_trim_front(s);
    if t.len() == 0 {
        Seq::empty()
    } else {
        seq![t.take(spec_word_len(t) as int)] + spec_words(t.skip(spec_word_len(t) as int))
    }
}

#[via_fn]
proof fn spec_words_decreases(s: Seq<char>) {
    lemma_trim_front_len(s);
    lemma_trim_front_first(s);
    let t = spec_trim_front(s);
    if t.len() > 0 {
        assert(spec_word_len(t) >= 1);
        lemma_word_len_le(t);
    }
}

/// A word run never exceeds the text it starts.
proof fn lemma_word_len_le(s: Seq<char>)
    ensures
        spec_word_len(s) <= s.len(),
    decreases s.len(),
{
    if s.len() > 0 && !is_space_char(s[0]) {
        lemma_word_len_le(s.drop_first());
    }
}

/// The visible width of `s`: its columns on screen, escapes taking none.
pub open spec fn spec_visible_width(s: Seq<char>) -> nat {
    spec_strip_ansi(s).len()
}

/// Lays the words out after a line that already holds `cur` visible
/// columns: each word goes on the current line after a space when it fits
/// within `width`, else on a fresh line.
pub open spec fn spec_fill(words: Seq<Seq<char>>, width: int, cur: int) -> Seq<char>
    decreases words.len(),
{
    if words.len() == 0 {
        Seq::empty()
    } else {
        let wv = spec_visible_width(words[0]) as int;
        if cur + 1 + wv <= width {
            seq![' '] + words[0] + spec_fill(words.drop_first(), width, cur + 1 + wv)
        } else {
            seq!['\n'] + words[0] + spec_fill(words.drop_first(), width, wv)
        }
    }
}

/// The wrapped form of a word sequence: the first word opens the first
/// line, the rest follow greedily.
pub open spec fn spec_wrap_words(words: Seq<Seq<char>>, width: int) -> Seq<char> {
    if words.len() == 0 {
        Seq::empty()
    } else {
        words[0] + spec_fill(words.drop_first(), width, spec_visible_width(words[0]) as int)
    }
}

/// The wrapped form of a line: unchanged when wrapping is disabled with
/// width zero, else its words laid out greedily within `width` visible
/// columns, whitespace normalized to the breaks.
pub open spec fn spec_wrap(s: Seq<char>, width: int) -> Seq<char> {
    if width == 0 {
        s
    } else {
        spec_wrap_words(spec_words(s), width)
    }
}

/// Every character of a word run is non-whitespace.
proof fn lemma_word_run_chars(s: Seq<char>)
    ensures
        forall|j: int| 0 <= j < spec_word_len(s) ==> !is_space_char(s[j]),
    decreases s.len(),
{
    if s.len() > 0 && !is_space_char(s[0]) {
        lemma_word_len_le(s);
        lemma_word_len_le(s.drop_first());
        lemma_word_run_chars(s.drop_first());
        assert forall|j: int| 0 <= j < spec_word_len(s) implies !is_space_char(s[j]) by {
            if j > 0 {
                assert(s.drop_first()[j - 1] == s[j]);
            }
        }
    }
}

/// A word is a non-empty run of non-whitespace characters.
pub open spec fn is_word(w: Seq<char>) -> bool {
    w.len() > 0 && (forall|j: int| 0 <= j < w.len() ==> !is_space_char(w[j]))
}

/// Every entry `spec_words` yields is a word.
proof fn lemma_words_wf(s: Seq<char>)
    ensures
        forall|i: int| 0 <= i < spec_words(s).len() ==> is_word(#[trigger] spec_words(s)[i]),
    decreases s.len(),
{
    lemma_trim_front_len(s);
    lemma_trim_front_first(s);
    let t = spec_trim_front(s);
    if t.len() > 0 {
        let k = spec_word_len(t) as int;
        lemma_word_len_le(t);
        lemma_word_run_chars(t);
        assert(is_word(t.take(k)));
        lemma_words_wf(t.skip(k));
        assert forall|i: int| 0 <= i < spec_words(s).len() implies is_word(
            #[trigger] spec_words(s)[i],
        ) by {
            if i > 0 {
                assert(spec_words(s)[i] == spec_words(t.skip(k))[i - 1]);
            }
        }
    }
}

/// The word run of a word followed by whitespace — or nothing — is the word.
proof fn lemma_word_len_concat(w: Seq<char>, v: Seq<char>)
    requires
        is_word(w),
        v.len() == 0 || is_space_char(v[0]),
    ensures
        spec_word_len(w + v) == w.len(),
    decreases w.len(),
{
    let t = w + v;
    assert(t[0] == w[0]);
    assert(!is_space_char(t[0]));
    assert(spec_word_len(t) == 1 + spec_word_len(t.drop_first()));
    if w.len() == 1 {
        assert(t.drop_first() =~= v);
        assert(spec_word_len(v) == 0);
    } else {
        assert(t.drop_first() =~= w.drop_first() + v);
        assert forall|j: int| 0 <= j < w.drop_first().len() implies !is_space_char(
            w.drop_first()[j],
        ) by {
            assert(w.drop_first()[j] == w[j + 1]);
        }
        lemma_word_len_concat(w.drop_first(), v);
    }
}

/// The words of a word followed by whitespace-or-nothing are the word and
/// what follows.
proof fn lemma_words_of_word_prefix(w: Seq<char>, v: Seq<char>)
    requires
        is_word(w),
        v.len() == 0 || is_space_char(v[0]),
    ensures
        spec_words(w + v) == seq![w] + spec_words(v),
{
    let t = w + v;
    assert(t[0] == w[0]);
    assert(!is_space_char(t[0]));
    assert(spec_trim_front(t) == t);
    lemma_word_len_concat(w, v);
    assert(t.take(w.len() as int) =~= w);
    assert(t.skip(w.len() as int) =~= v);
}

/// A leading whitespace character changes no words.
proof fn lemma_words_skip_sep(d: char, t: Seq<char>)
    requires
        is_space_char(d),
    ensures
        spec_words(seq![d] + t) == spec_words(t),
{
    let u = seq![d] + t;
    assert(u[0] == d);
    assert(u.drop_first() =~= t);
    assert(spec_trim_front(u) == spec_trim_front(t));
}

/// The words of a greedy layout are the words laid out.
proof fn lemma_fill_words(words: Seq<Seq<char>>, width: int, cur: int)
    requires
        forall|i: int| 0 <= i < words.len() ==> is_word(#[trigger] words[i]),
    ensures
        spec_words(spec_fill(words, width, cur)) == words,
    decreases words.len(),
{
    if words.len() == 0 {
        assert(spec_trim_front(spec_fill(words, width, cur)).len() == 0);
        assert(spec_words(spec_fill(words, width, cur)) =~= words);
    } else {
        let w0 = words[0];
        let rest = words.drop_first();
        let wv = spec_visible_width(w0) as int;
        let cur2 = if cur + 1 + wv <= width {
            cur + 1 + wv
        } else {
            wv
        };
        let d = if cur + 1 + wv <= width {
            ' '
        } else {
            '\n'
        };
        let tail = spec_fill(rest, width, cur2);
        assert(spec_fill(words, width, cur) =~= seq![d] + (w0 + tail));
        lemma_fill_starts_with_space(rest, width, cur2);
        assert forall|i: int| 0 <= i < rest.len() implies is_word(#[trigger] rest[i]) by {
            assert(rest[i] == words[i + 1]);
        }
        lemma_fill_words(rest, width, cur2);
        lemma_words_skip_sep(d, w0 + tail);
        lemma_words_of_word_prefix(w0, tail);
        assert(seq![w0] + rest =~= words);
    }
}

/// A non-empty greedy layout starts with the whitespace before its first
/// word.
proof fn lemma_fill_starts_with_space(words: Seq<Seq<char>>, width: int, cur: int)
    ensures
        spec_fill(words, width, cur).len() == 0 || is_space_char(spec_fill(words, width, cur)[0]),
{
    if words.len() > 0 {
        let out = spec_fill(words, width, cur);
        assert(out[0] == ' ' || out[0] == '\n');
    }
}

/// Word-boundary wrapping, in general: wrapping only rewrites the
/// whitespace between words, so the words of the wrapped line are exactly
/// the words of the input, in order, each one whole — an unbreakable token
/// wider than the line passes through untouched.
pub proof fn lemma_wrap_preserves_words(s: Seq<char>, width: int)
    ensures
        spec_words(spec_wrap(s, width)) == spec_words(s),
{
    if width != 0 {
        let words = spec_words(s);
        lemma_words_wf(s);
        if words.len() == 0 {
            assert(spec_trim_front(spec_wrap(s, width)).len() == 0);
            assert(spec_words(spec_wrap(s, width)) =~= words);
        } else {
            let w0 = words[0];
            let rest = words.drop_first();
            let tail = spec_fill(rest, width, spec_visible_width(w0) as int);
            assert(spec_wrap(s, width) == w0 + tail);
            lemma_fill_starts_with_space(rest, width, spec_visible_width(w0) as int);
            assert forall|i: int| 0 <= i < rest.len() implies is_word(#[trigger] rest[i]) by {
                assert(rest[i] == words[i + 1]);
            }
            lemma_fill_words(rest, width, spec_visible_width(w0) as int);
            lemma_words_of_word_prefix(w0, tail);
            assert(seq![w0] + rest =~= words);
        }
    }
}

/// Trimming keeps a text free of escapes.
proof fn lemma_trim_front_no_esc(s: Seq<char>)
    requires
        has_no_escape(s),
    ensures
        has_no_escape(spec_trim_front(s)),
    decreases s.len(),
{
    if s.len() > 0 && is_space_char(s[0]) {
        assert forall|j: int| 0 <= j < s.drop_first().len() implies s.drop_first()[j]
            != esc_char() by {
            assert(s.drop_first()[j] == s[j + 1]);
        }
        lemma_trim_front_no_esc(s.drop_first());
    }
}

/// The words of an escape-free text are escape-free.
proof fn lemma_words_no_esc(s: Seq<char>)
    requires
        has_no_escape(s),
    ensures
        forall|i: int|
            0 <= i < spec_words(s).len() ==> has_no_escape(#[trigger] spec_words(s)[i]),
    decreases s.len(),
{
    lemma_trim_front_len(s);
    lemma_trim_front_first(s);
    lemma_trim_front_no_esc(s);
    let t = spec_trim_front(s);
    if t.len() > 0 {
        let k = spec_word_len(t) as int;
        lemma_word_len_le(t);
        assert(k >= 1);
        assert forall|j: int| 0 <= j < t.take(k).len() implies t.take(k)[j] != esc_char() by {
            assert(t.take(k)[j] == t[j]);
        }
        assert(has_no_escape(t.take(k)));
        assert forall|j: int| 0 <= j < t.skip(k).len() implies t.skip(k)[j] != esc_char() by {
            assert(t.skip(k)[j] == t[j + k]);
        }
        lemma_words_no_esc(t.skip(k));
        assert forall|i: int| 0 <= i < spec_words(s).len() implies has_no_escape(
            #[trigger] spec_words(s)[i],
        ) by {
            if i > 0 {
                assert(spec_words(s)[i] == spec_words(t.skip(k))[i - 1]);
            }
        }
    }
}

/// The text of an output line, without its terminator.
pub open spec fn spec_line_body(l: Seq<char>) -> Seq<char> {
    if l.len() > 0 && l[l.len() - 1] == '\n' {
        l.drop_last()
    } else {
        l
    }
}

/// An output line fits `width` when its text is no wider, or is one single
/// unbreakable word.
pub open spec fn spec_line_fits(l: Seq<char>, width: int) -> bool {
    spec_line_body(l).len() <= width || (forall|j: int|
        0 <= j < spec_line_body(l).len() ==> !is_space_char(spec_line_body(l)[j]))
}

/// Every line of `t` fits `width`.
pub open spec fn spec_all_lines_fit(t: Seq<char>, width: int) -> bool {
    forall|i: int|
        0 <= i < spec_lines_of(t).len() ==> spec_line_fits(#[trigger] spec_lines_of(t)[i], width)
}

/// A break splits off exactly the line before it.
proof fn lemma_lines_of_break(u: Seq<char>, v: Seq<char>)
    requires
        has_no_newline(u),
    ensures
        spec_lines_of(u + seq!['\n'] + v) == seq![u + seq!['\n']] + spec_lines_of(v),
{
    let head = u + seq!['\n'];
    assert(head[head.len() - 1] == '\n');
    assert(head.take(head.len() - 1) =~= u);
    assert(is_complete_line(head));
    lemma_line_len_of_concat(head, v);
    let t = head + v;
    assert(u + seq!['\n'] + v =~= t);
    assert(t.take(head.len() as int) =~= head);
    assert(t.skip(head.len() as int) =~= v);
    assert(spec_lines_of(t) == seq![head] + spec_lines_of(v));
}

/// Laid out after the line under construction, every finished line fits.
proof fn lemma_fill_lines_fit(words: Seq<Seq<char>>, width: int, cur_line: Seq<char>)
    requires
        width >= 1,
        forall|i: int| 0 <= i < words.len() ==> is_word(#[trigger] words[i]),
        forall|i: int| 0 <= i < words.len() ==> has_no_escape(#[trigger] words[i]),
        has_no_newline(cur_line),
        spec_line_fits(cur_line, width),
    ensures
        spec_all_lines_fit(cur_line + spec_fill(words, width, cur_line.len() as int), width),
    decreases words.len(),
{
    let cur = cur_line.len() as int;
    if words.len() == 0 {
        assert(cur_line + spec_fill(words, width, cur) =~= cur_line);
        if cur_line.len() > 0 {
            lemma_line_len_no_newline(cur_line);
            assert(cur_line.take(cur) =~= cur_line);
            assert(cur_line.skip(cur) =~= Seq::<char>::empty());
            assert(spec_lines_of(cur_line) == seq![cur_line] + spec_lines_of(
                Seq::<char>::empty(),
            ));
            assert(spec_lines_of(cur_line) =~= seq![cur_line]);
        }
    } else {
        let w0 = words[0];
        let rest = words.drop_first();
        lemma_strip_id_no_esc(w0);
        let wv = spec_visible_width(w0) as int;
        assert(wv == w0.len());
        assert forall|i: int| 0 <= i < rest.len() implies is_word(#[trigger] rest[i])
            && has_no_escape(rest[i]) by {
            assert(rest[i] == words[i + 1]);
        }
        assert(has_no_newline(w0));
        if cur + 1 + wv <= width {
            let next_line = cur_line + seq![' '] + w0;
            assert(has_no_newline(next_line)) by {
                assert forall|j: int| 0 <= j < next_line.len() implies next_line[j] != '\n' by {
                    if j < cur_line.len() {
                        assert(next_line[j] == cur_line[j]);
                    } else if j > cur_line.len() {
                        assert(next_line[j] == w0[j - cur_line.len() - 1]);
                    }
                }
            }
            assert(spec_line_fits(next_line, width));
            lemma_fill_lines_fit(rest, width, next_line);
            assert(cur_line + spec_fill(words, width, cur) =~= next_line + spec_fill(
                rest,
                width,
                next_line.len() as int,
            ));
        } else {
            let next_line = w0;
            assert(spec_line_fits(next_line, width));
            lemma_fill_lines_fit(rest, width, next_line);
            let tail = next_line + spec_fill(rest, width, next_line.len() as int);
            lemma_lines_of_break(cur_line, tail);
            assert(cur_line + spec_fill(words, width, cur) =~= cur_line + seq!['\n'] + tail);
            assert(spec_line_fits(cur_line + seq!['\n'], width)) by {
                assert((cur_line + seq!['\n'])[cur_line.len() as int] == '\n');
                assert(spec_line_body(cur_line + seq!['\n']) =~= cur_line);
            }
            let out = cur_line + spec_fill(words, width, cur);
            assert forall|i: int| 0 <= i < spec_lines_of(out).len() implies spec_line_fits(
                #[trigger] spec_lines_of(out)[i],
                width,
            ) by {
                if i == 0 {
                    assert(spec_lines_of(out)[0] == cur_line + seq!['\n']);
                } else {
                    assert(spec_lines_of(out)[i] == spec_lines_of(tail)[i - 1]);
                }
            }
        }
    }
}

/// Wrap width boundary, in general, for text without escape sequences:
/// with a positive width every output line fits within it, except a line
/// made of one unbreakable word wider than the whole line.
pub proof fn lemma_wrap_width_bound(s: Seq<char>, width: int)
    requires
        width >= 1,
        has_no_escape(s),
    ensures
        spec_all_lines_fit(spec_wrap(s, width), width),
{
    let words = spec_words(s);
    lemma_words_wf(s);
    lemma_words_no_esc(s);
    if words.len() == 0 {
        assert(spec_lines_of(spec_wrap(s, width)) =~= Seq::<Seq<char>>::empty());
    } else {
        let w0 = words[0];
        let rest = words.drop_first();
        lemma_strip_id_no_esc(w0);
        assert forall|i: int| 0 <= i < rest.len() implies is_word(#[trigger] rest[i])
            && has_no_escape(rest[i]) by {
            assert(rest[i] == words[i + 1]);
        }
        assert(has_no_newline(w0));
        assert(spec_line_fits(w0, width));
        lemma_fill_lines_fit(rest, width, w0);
        assert(spec_wrap(s, width) == w0 + spec_fill(rest, width, w0.len() as int));
    }
}

/// The visible width of `text` on screen.
pub fn visible_width(text: &str) -> (r: usize)
    ensures
        r == spec_visible_width(text@),
{
    let stripped = crate::pace::strip_ansi(text);
    stripped.as_str().unicode_len()
}

/// Skips whitespace from `from`, returning the first non-whitespace
/// position.
fn skip_spaces(s: &str, from: usize) -> (r: usize)
    requires
        from <= s@.len(),
    ensures
        from <= r <= s@.len(),
        forall|j: int| from <= j < r ==> is_space_char(s@[j]),
        r == s@.len() || !is_space_char(s@[r as int]),
{
    let n: usize = s.unicode_len();
    let mut i: usize = from;
    while i < n && is_space(s.get_char(i))
        invariant
            from <= i <= n,
            n == s@.len(),
            forall|j: int| from <= j < i ==> is_space_char(s@[j]),
        decreases n - i,
    {
        i = i + 1;
    }
    i
}

/// Wraps one line to `width` visible columns. Width zero disables wrapping
/// and returns the line unchanged; otherwise words are joined by single
/// spaces and a line break replaces the space before each word that would
/// run past `width`, while a word wider than `width` stands alone.
pub fn wrap_line(line: &str, width: u32) -> (r: String)
    ensures
        r@ == spec_wrap(line@, width as int),
        width == 0 ==> r@ == line@,
{
    if width == 0 {
        return String::from_str(line);
    }
    let w: usize = width as usize;
    let ghost lv = line@;
    let n: usize = line.unicode_len();
    let start = skip_spaces(line, 0);
    proof {
        lemma_trim_front_skip(lv, start as int);
    }
    if start == n {
        proof {
            assert(spec_trim_front(lv).len() == 0);
        }
        return String::new();
    }
    let wl = word_len_from(line, start);
    let first = line.substring_char(start, start + wl);
    let mut r = String::from_str(first);
    let mut cur: usize = visible_width(first);
    let mut pos: usize = start + wl;
    proof {
        let t = spec_trim_front(lv);
        assert(t == lv.skip(start as int));
        assert(t.take(spec_word_len(t) as int) =~= lv.subrange(start as int, (start + wl) as int));
        assert(first@ == t.take(spec_word_len(t) as int));
        assert(t.skip(spec_word_len(t) as int) =~= lv.skip(pos as int));
        assert(spec_words(lv).drop_first() =~= spec_words(lv.skip(pos as int)));
        assert(spec_wrap(lv, width as int) == r@ + spec_fill(
            spec_words(lv.skip(pos as int)),
            width as int,
            cur as int,
        ));
    }
    while pos < n
        invariant
            pos <= n,
            n == lv.len(),
            line@ == lv,
            width as int > 0,
            w == width as usize,
            spec_wrap(lv, width as int) == r@ + spec_fill(
                spec_words(lv.skip(pos as int)),
                width as int,
                cur as int,
            ),
        decreases n - pos,
    {
        let ghost pre = r@;
        let ghost words_here = spec_words(lv.skip(pos as int));
        let wstart = skip_spaces(line, pos);
        proof {
            let u = lv.skip(pos as int);
            assert forall|j: int| 0 <= j < wstart - pos implies is_space_char(u[j]) by {
                assert(u[j] == lv[j + pos]);
            }
            if wstart < n {
                assert(u[wstart - pos] == lv[wstart as int]);
            }
            lemma_trim_front_skip(u, wstart - pos);
            assert(u.skip(wstart - pos) =~= lv.skip(wstart as int));
        }
        if wstart == n {
            proof {
                assert(spec_trim_front(lv.skip(pos as int)).len() == 0);
                assert(words_here =~= Seq::<Seq<char>>::empty());
                assert(spec_fill(words_here, width as int, cur as int) =~= Seq::<char>::empty());
                assert(pre =~= pre + Seq::<char>::empty());
            }
            pos = n;
        } else {
            let wl2 = word_len_from(line, wstart);
            let word = line.substring_char(wstart, wstart + wl2);
            let wv = visible_width(word);
            proof {
                let t = spec_trim_front(lv.skip(pos as int));
                assert(t == lv.skip(wstart as int));
                assert(t.take(spec_word_len(t) as int) =~= lv.subrange(
                    wstart as int,
                    (wstart + wl2) as int,
                ));
                assert(word@ == t.take(spec_word_len(t) as int));
                assert(t.skip(spec_word_len(t) as int) =~= lv.skip((wstart + wl2) as int));
                assert(words_here[0] == word@);
                assert(words_here.drop_first() =~= spec_words(lv.skip((wstart + wl2) as int)));
            }
            let ghost tail_words = spec_words(lv.skip((wstart + wl2) as int));
            if cur < w && wv <= w - cur - 1 {
                r.append(" ");
                r.append(word);
                proof {
                    reveal_strlit(" ");
                    assert(spec_fill(words_here, width as int, cur as int) == seq![' '] + word@
                        + spec_fill(tail_words, width as int, cur as int + 1 + wv as int));
                    assert(pre + (seq![' '] + word@ + spec_fill(
                        tail_words,
                        width as int,
                        cur as int + 1 + wv as int,
                    )) =~= ((pre + seq![' ']) + word@) + spec_fill(
                        tail_words,
                        width as int,
                        cur as int + 1 + wv as int,
                    ));
                    assert(r@ == (pre + " "@) + word@);
                    assert(" "@ =~= seq![' ']);
                }
                cur = cur + 1 + wv;
            } else {
                r.append("\n");
                r.append(word);
                proof {
                    reveal_strlit("\n");
                    assert(spec_fill(words_here, width as int, cur as int) == seq!['\n'] + word@
                        + spec_fill(tail_words, width as int, wv as int));
                    assert(pre + (seq!['\n'] + word@ + spec_fill(
                        tail_words,
                        width as int,
                        wv as int,
                    )) =~= ((pre + seq!['\n']) + word@) + spec_fill(
                        tail_words,
                        width as int,
                        wv as int,
                    ));
                    assert(r@ == (pre + "\n"@) + word@);
                    assert("\n"@ =~= seq!['\n']);
                }
                cur = wv;
            }
            pos = wstart + wl2;
        }
    }
    proof {
        assert(spec_trim_front(lv.skip(n as int)) =~= Seq::<char>::empty());
        assert(spec_words(lv.skip(pos as int)) =~= Seq::<Seq<char>>::empty());
        assert(spec_fill(
            spec_words(lv.skip(pos as int)),
            width as int,
            cur as int,
        ) =~= Seq::<char>::empty());
        assert(r@ =~= r@ + Seq::<char>::empty());
    }
    r
}

} // verus!
