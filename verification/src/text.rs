//! Character-level helpers shared by command parsing and prompt analysis.

use vstd::prelude::*;

verus! {

/// True for the whitespace characters this library recognizes.
pub open spec fn is_space_char(c: char) -> bool {
    c == ' ' || c == '\t' || c == '\n' || c == '\r'
}

/// Executable test matching `is_space_char`.
pub fn is_space(c: char) -> (r: bool)
    ensures
        r == is_space_char(c),
{
    c == ' ' || c == '\t' || c == '\n' || c == '\r'
}

/// `s` without its leading whitespace.
pub open spec fn spec_trim_front(s: Seq<char>) -> Seq<char>
    decreases s.len(),
{
    if s.len() > 0 && is_space_char(s[0]) {
        spec_trim_front(s.drop_first())
    } else {
        s
    }
}

/// `s` without its trailing whitespace.
pub open spec fn spec_trim_back(s: Seq<char>) -> Seq<char>
    decreases s.len(),
{
    if s.len() > 0 && is_space_char(s[s.len() - 1]) {
        spec_trim_back(s.drop_last())
    } else {
        s
    }
}

/// `s` without leading and trailing whitespace.
pub open spec fn spec_trim(s: Seq<char>) -> Seq<char> {
    spec_trim_back(spec_trim_front(s))
}

/// Length of the run of non-whitespace characters at the start of `s`.
pub open spec fn spec_word_len(s: Seq<char>) -> nat
    decreases s.len(),
{
    if s.len() == 0 || is_space_char(s[0]) {
        0
    } else {
        1 + spec_word_len(s.drop_first())
    }
}

pub(crate) proof fn lemma_trim_front_skip(s: Seq<char>, k: int)
    requires
        0 <= k <= s.len(),
        forall|j: int| 0 <= j < k ==> is_space_char(s[j]),
        k == s.len() || !is_space_char(s[k]),
    ensures
        spec_trim_front(s) == s.skip(k),
    decreases k,
{
    if k == 0 {
        assert(s.skip(0) =~= s);
    } else {
        lemma_trim_front_skip(s.drop_first(), k - 1);
        assert(s.drop_first().skip(k - 1) =~= s.skip(k));
    }
}

proof fn lemma_trim_back_take(s: Seq<char>, k: int)
    requires
        0 <= k <= s.len(),
        forall|j: int| k <= j < s.len() ==> is_space_char(s[j]),
        k == 0 || !is_space_char(s[k - 1]),
    ensures
        spec_trim_back(s) == s.take(k),
    decreases s.len(),
{
    if k == s.len() {
        assert(s.take(k) =~= s);
    } else {
        lemma_trim_back_take(s.drop_last(), k);
        assert(s.drop_last().take(k) =~= s.take(k));
    }
}

/// Returns `s` without leading and trailing whitespace, as the `spec_trim`
/// of its characters.
pub fn trim_spaces(s: &str) -> (r: String)
    ensures
        r@ == spec_trim(s@),
{
    let ghost sv = s@;
    let n: usize = s.unicode_len();
    let mut a: usize = 0;
    while a < n && is_space(s.get_char(a))
        invariant
            a <= n,
            n == sv.len(),
            s@ == sv,
            forall|j: int| 0 <= j < a ==> is_space_char(sv[j]),
        decreases n - a,
    {
        a = a + 1;
    }
    let mut b: usize = n;
    while b > a && is_space(s.get_char(b - 1))
        invariant
            a <= b <= n,
            n == sv.len(),
            s@ == sv,
            forall|j: int| b <= j < n ==> is_space_char(sv[j]),
        decreases b,
    {
        b = b - 1;
    }
    let r = String::from_str(s.substring_char(a, b));
    proof {
        lemma_trim_front_skip(sv, a as int);
        let u = sv.skip(a as int);
        assert forall|j: int| (b - a) <= j < u.len() implies is_space_char(u[j]) by {
            assert(u[j] == sv[j + a]);
        }
        if b > a {
            assert(u[b - a - 1] == sv[b - 1]);
        }
        lemma_trim_back_take(u, b - a);
        assert(u.take(b - a) =~= sv.subrange(a as int, b as int));
    }
    r
}

/// Returns the length of the leading run of non-whitespace characters of
/// `s`, starting at index `from`.
pub fn word_len_from(s: &str, from: usize) -> (r: usize)
    requires
        from <= s@.len(),
    ensures
        r == spec_word_len(s@.skip(from as int)),
        from + r <= s@.len(),
{
    let n: usize = s.unicode_len();
    let mut i: usize = from;
    while i < n && !is_space(s.get_char(i))
        invariant
            from <= i <= n,
            n == s@.len(),
            forall|j: int| from <= j < i ==> !is_space_char(s@[j]),
        decreases n - i,
    {
        i = i + 1;
    }
    proof {
        lemma_word_len_at(s@, from as int, i as int);
    }
    i - from
}

/// Case folding for letters: `a` matches `b` when they are equal, or when
/// `a` is an upper-case ASCII letter whose lower-case form is `b`.
pub open spec fn char_eq_ci(a: char, b: char) -> bool {
    a == b || (65 <= a as u32 && a as u32 <= 90 && a as u32 + 32 == b as u32)
}

/// `word` matches `name` up to ASCII case.
pub open spec fn word_matches(word: Seq<char>, name: Seq<char>) -> bool {
    word.len() == name.len() && (forall|i: int| 0 <= i < word.len() ==> char_eq_ci(word[i], name[i]))
}

fn chars_eq_ci(a: char, b: char) -> (r: bool)
    ensures
        r == char_eq_ci(a, b),
{
    a == b || (a as u32 >= 65 && a as u32 <= 90 && a as u32 + 32 == b as u32)
}

/// Compares `word` against a lower-case `name`, folding ASCII case.
pub fn str_matches_ci(word: &str, name: &str) -> (r: bool)
    ensures
        r == word_matches(word@, name@),
{
    let wn: usize = word.unicode_len();
    let nn: usize = name.unicode_len();
    if wn != nn {
        return false;
    }
    let mut i: usize = 0;
    while i < wn
        invariant
            i <= wn,
            wn == word@.len(),
            wn == name@.len(),
            forall|j: int| 0 <= j < i ==> char_eq_ci(word@[j], name@[j]),
        decreases wn - i,
    {
        if !chars_eq_ci(word.get_char(i), name.get_char(i)) {
            return false;
        }
        i = i + 1;
    }
    true
}

/// Compares two strings character by character.
pub fn str_eq(a: &str, b: &str) -> (r: bool)
    ensures
        r == (a@ == b@),
{
    let an: usize = a.unicode_len();
    let bn: usize = b.unicode_len();
    if an != bn {
        proof {
            assert(a@ != b@);
        }
        return false;
    }
    let mut i: usize = 0;
    while i < an
        invariant
            i <= an,
            an == a@.len(),
            an == b@.len(),
            forall|j: int| 0 <= j < i ==> a@[j] == b@[j],
        decreases an - i,
    {
        if a.get_char(i) != b.get_char(i) {
            return false;
        }
        i = i + 1;
    }
    proof {
        assert(a@ =~= b@);
    }
    true
}

/// A trimmed sequence starts with no whitespace.
pub(crate) proof fn lemma_trim_front_first(s: Seq<char>)
    ensures
        spec_trim_front(s).len() > 0 ==> !is_space_char(spec_trim_front(s)[0]),
    decreases s.len(),
{
    if s.len() > 0 && is_space_char(s[0]) {
        lemma_trim_front_first(s.drop_first());
    }
}

/// Trimming the back keeps the first character and leaves no trailing
/// whitespace.
pub(crate) proof fn lemma_trim_back_props(s: Seq<char>)
    ensures
        spec_trim_back(s).len() > 0 ==> !is_space_char(
            spec_trim_back(s)[spec_trim_back(s).len() - 1],
        ),
        spec_trim_back(s).len() > 0 ==> spec_trim_back(s)[0] == s[0],
    decreases s.len(),
{
    if s.len() > 0 && is_space_char(s[s.len() - 1]) {
        lemma_trim_back_props(s.drop_last());
    }
}

/// Trimming is idempotent.
pub(crate) proof fn lemma_trim_idempotent(s: Seq<char>)
    ensures
        spec_trim(spec_trim(s)) == spec_trim(s),
{
    let t = spec_trim(s);
    lemma_trim_front_first(s);
    lemma_trim_back_props(spec_trim_front(s));
    if t.len() > 0 {
        assert(!is_space_char(t[0]));
        assert(spec_trim_front(t) == t);
        assert(!is_space_char(t[t.len() - 1]));
        assert(spec_trim_back(t) == t);
    } else {
        assert(spec_trim_front(t) == t);
        assert(spec_trim_back(t) == t);
    }
}

proof fn lemma_word_len_at(s: Seq<char>, from: int, stop: int)
    requires
        0 <= from <= stop <= s.len(),
        forall|j: int| from <= j < stop ==> !is_space_char(s[j]),
        stop == s.len() || is_space_char(s[stop]),
    ensures
        spec_word_len(s.skip(from)) == stop - from,
    decreases stop - from,
{
    let u = s.skip(from);
    if from == stop {
        if u.len() > 0 {
            assert(u[0] == s[from]);
        }
    } else {
        assert(u[0] == s[from]);
        lemma_word_len_at(s, from + 1, stop);
        assert(u.drop_first() =~= s.skip(from + 1));
    }
}

} // verus!
