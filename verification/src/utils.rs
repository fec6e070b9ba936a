//! Small pieces of the surrounding client that are pure logic: the
//! separator line, the model list, and conversation file naming.

use vstd::prelude::*;

use crate::text::{spec_trim, str_eq, trim_spaces};

verus! {

/// A horizontal separator of `width` line-drawing characters.
pub fn separator_line(width: usize) -> (r: String)
    ensures
        r@.len() == width,
        forall|i: int| 0 <= i < r@.len() ==> r@[i] == '─',
{
    let mut r = String::new();
    let mut i: usize = 0;
    while i < width
        invariant
            i <= width,
            r@.len() == i,
            forall|j: int| 0 <= j < r@.len() ==> r@[j] == '─',
        decreases width - i,
    {
        r.append("─");
        proof {
            reveal_strlit("─");
            assert("─"@ =~= seq!['─']);
        }
        i = i + 1;
    }
    r
}

/// The models offered for selection, in order.
pub open spec fn spec_model_options() -> Seq<Seq<char>> {
    seq!["gpt-3.5-turbo"@, "gpt-4o"@, "gpt-4o-mini"@, "gpt-4.1"@, "gpt-5"@, "o3"@]
}

/// The models offered for selection.
pub fn model_options() -> (r: Vec<String>)
    ensures
        r.deep_view() == spec_model_options(),
{
    let mut r: Vec<String> = Vec::new();
    r.push(String::from_str("gpt-3.5-turbo"));
    r.push(String::from_str("gpt-4o"));
    r.push(String::from_str("gpt-4o-mini"));
    r.push(String::from_str("gpt-4.1"));
    r.push(String::from_str("gpt-5"));
    r.push(String::from_str("o3"));
    proof {
        assert(r.deep_view() =~= spec_model_options());
    }
    r
}

/// The position of `d` in `ms`, where it occurs.
pub open spec fn spec_find(ms: Seq<Seq<char>>, d: Seq<char>) -> Option<int>
    decreases ms.len(),
{
    if ms.len() == 0 {
        None
    } else if ms[0] == d {
        Some(0int)
    } else {
        match spec_find(ms.drop_first(), d) {
            Some(i) => Some(i + 1),
            None => None,
        }
    }
}

/// The position to preselect: that of `d` in `ms`, or the first entry.
pub open spec fn spec_default_index(ms: Seq<Seq<char>>, d: Seq<char>) -> int {
    match spec_find(ms, d) {
        Some(i) => i,
        None => 0,
    }
}

proof fn lemma_find_at(ms: Seq<Seq<char>>, d: Seq<char>, i: int)
    requires
        0 <= i < ms.len(),
        forall|j: int| 0 <= j < i ==> ms[j] != d,
        ms[i] == d,
    ensures
        spec_find(ms, d) == Some(i),
    decreases i,
{
    if i == 0 {
    } else {
        lemma_find_at(ms.drop_first(), d, i - 1);
    }
}

proof fn lemma_find_none(ms: Seq<Seq<char>>, d: Seq<char>)
    requires
        forall|j: int| 0 <= j < ms.len() ==> ms[j] != d,
    ensures
        spec_find(ms, d) is None,
    decreases ms.len(),
{
    if ms.len() > 0 {
        lemma_find_none(ms.drop_first(), d);
    }
}

/// The index of `default` among `models`, or zero when absent.
pub fn default_model_index(models: &Vec<String>, default: &str) -> (r: usize)
    ensures
        r == spec_default_index(models.deep_view(), default@),
        r == 0 || r < models@.len(),
{
    let n: usize = models.len();
    let mut i: usize = 0;
    while i < n
        invariant
            i <= n,
            n == models@.len(),
            n == models.deep_view().len(),
            forall|j: int| 0 <= j < i ==> models.deep_view()[j] != default@,
        decreases n - i,
    {
        proof {
            assert(models.deep_view()[i as int] == models@[i as int]@);
        }
        if str_eq(models[i].as_str(), default) {
            proof {
                lemma_find_at(models.deep_view(), default@, i as int);
            }
            return i;
        }
        i = i + 1;
    }
    proof {
        lemma_find_none(models.deep_view(), default@);
    }
    0
}

/// The character `c` takes in a conversation file name: spaces become
/// underscores and ASCII capitals fold to lower case.
pub open spec fn spec_file_char(c: char) -> char {
    if c == ' ' {
        '_'
    } else if c == 'A' {
        'a'
    } else if c == 'B' {
        'b'
    } else if c == 'C' {
        'c'
    } else if c == 'D' {
        'd'
    } else if c == 'E' {
        'e'
    } else if c == 'F' {
        'f'
    } else if c == 'G' {
        'g'
    } else if c == 'H' {
        'h'
    } else if c == 'I' {
        'i'
    } else if c == 'J' {
        'j'
    } else if c == 'K' {
        'k'
    } else if c == 'L' {
        'l'
    } else if c == 'M' {
        'm'
    } else if c == 'N' {
        'n'
    } else if c == 'O' {
        'o'
    } else if c == 'P' {
        'p'
    } else if c == 'Q' {
        'q'
    } else if c == 'R' {
        'r'
    } else if c == 'S' {
        's'
    } else if c == 'T' {
        't'
    } else if c == 'U' {
        'u'
    } else if c == 'V' {
        'v'
    } else if c == 'W' {
        'w'
    } else if c == 'X' {
        'x'
    } else if c == 'Y' {
        'y'
    } else if c == 'Z' {
        'z'
    } else {
        c
    }
}

/// `s` mapped character by character into file-name form.
pub open spec fn spec_file_map(s: Seq<char>) -> Seq<char>
    decreases s.len(),
{
    if s.len() == 0 {
        Seq::empty()
    } else {
        seq![spec_file_char(s[0])] + spec_file_map(s.drop_first())
    }
}

/// `p` ends `s`.
pub open spec fn spec_suffix(p: Seq<char>, s: Seq<char>) -> bool {
    p.len() <= s.len() && s.skip(s.len() - p.len()) == p
}

/// Executable suffix test.
fn has_suffix(s: &str, p: &str) -> (r: bool)
    ensures
        r == spec_suffix(p@, s@),
{
    let pn: usize = p.unicode_len();
    let sn: usize = s.unicode_len();
    if pn > sn {
        return false;
    }
    let tail = s.substring_char(sn - pn, sn);
    proof {
        assert(tail@ =~= s@.skip(s@.len() - p@.len()));
    }
    str_eq(tail, p)
}

/// The file name a conversation title yields: the trimmed title lower-cased
/// with spaces as underscores and a `.json` ending — or `conversation.json`
/// when nothing of the title remains.
pub open spec fn spec_filename_of(title: Seq<char>) -> Seq<char> {
    let t = spec_file_map(spec_trim(title));
    if t.len() == 0 {
        "conversation.json"@
    } else if spec_suffix(".json"@, t) {
        t
    } else {
        t + ".json"@
    }
}

fn file_char_str(c: char) -> (r: Option<&'static str>)
    ensures
        match r {
            Some(s) => s@ == seq![spec_file_char(c)],
            None => spec_file_char(c) == c,
        },
{
    let r: Option<&'static str> = if c == ' ' {
        Some("_")
    } else if c == 'A' {
        Some("a")
    } else if c == 'B' {
        Some("b")
    } else if c == 'C' {
        Some("c")
    } else if c == 'D' {
        Some("d")
    } else if c == 'E' {
        Some("e")
    } else if c == 'F' {
        Some("f")
    } else if c == 'G' {
        Some("g")
    } else if c == 'H' {
        Some("h")
    } else if c == 'I' {
        Some("i")
    } else if c == 'J' {
        Some("j")
    } else if c == 'K' {
        Some("k")
    } else if c == 'L' {
        Some("l")
    } else if c == 'M' {
        Some("m")
    } else if c == 'N' {
        Some("n")
    } else if c == 'O' {
        Some("o")
    } else if c == 'P' {
        Some("p")
    } else if c == 'Q' {
        Some("q")
    } else if c == 'R' {
        Some("r")
    } else if c == 'S' {
        Some("s")
    } else if c == 'T' {
        Some("t")
    } else if c == 'U' {
        Some("u")
    } else if c == 'V' {
        Some("v")
    } else if c == 'W' {
        Some("w")
    } else if c == 'X' {
        Some("x")
    } else if c == 'Y' {
        Some("y")
    } else if c == 'Z' {
        Some("z")
    } else {
        None
    };
    proof {
        reveal_strlit("_");
        reveal_strlit("a");
        reveal_strlit("b");
        reveal_strlit("c");
        reveal_strlit("d");
        reveal_strlit("e");
        reveal_strlit("f");
        reveal_strlit("g");
        reveal_strlit("h");
        reveal_strlit("i");
        reveal_strlit("j");
        reveal_strlit("k");
        reveal_strlit("l");
        reveal_strlit("m");
        reveal_strlit("n");
        reveal_strlit("o");
        reveal_strlit("p");
        reveal_strlit("q");
        reveal_strlit("r");
        reveal_strlit("s");
        reveal_strlit("t");
        reveal_strlit("u");
        reveal_strlit("v");
        reveal_strlit("w");
        reveal_strlit("x");
        reveal_strlit("y");
        reveal_strlit("z");
    }
    r
}

fn file_map(s: &str) -> (r: String)
    ensures
        r@ == spec_file_map(s@),
{
    let n: usize = s.unicode_len();
    let mut r = String::new();
    let mut pos: usize = 0;
    proof {
        assert(s@.skip(0) =~= s@);
        assert(r@ =~= Seq::<char>::empty());
        assert(Seq::<char>::empty() + spec_file_map(s@) =~= spec_file_map(s@));
    }
    while pos < n
        invariant
            pos <= n,
            n == s@.len(),
            spec_file_map(s@) == r@ + spec_file_map(s@.skip(pos as int)),
        decreases n - pos,
    {
        let ghost u = s@.skip(pos as int);
        let ghost pre = r@;
        let c = s.get_char(pos);
        proof {
            assert(u[0] == s@[pos as int]);
            assert(u.drop_first() =~= s@.skip(pos + 1));
        }
        match file_char_str(c) {
            Some(lit) => {
                r.append(lit);
            },
            None => {
                let seg = s.substring_char(pos, pos + 1);
                r.append(seg);
                proof {
                    assert(seg@ =~= seq![u[0]]);
                }
            },
        }
        proof {
            assert(r@ =~= pre + seq![spec_file_char(u[0])]);
            assert(pre + (seq![spec_file_char(u[0])] + spec_file_map(u.drop_first())) =~= (pre
                + seq![spec_file_char(u[0])]) + spec_file_map(u.drop_first()));
        }
        pos = pos + 1;
    }
    proof {
        assert(spec_file_map(s@.skip(n as int)) =~= Seq::<char>::empty());
        assert(r@ =~= r@ + Seq::<char>::empty());
    }
    r
}

/// Derives the conversation's file name from its title.
pub fn filename_from_title(title: &str) -> (r: String)
    ensures
        r@ == spec_filename_of(title@),
{
    let t = trim_spaces(title);
    let mapped = file_map(t.as_str());
    if mapped.as_str().is_empty() {
        String::from_str("conversation.json")
    } else if has_suffix(mapped.as_str(), ".json") {
        mapped
    } else {
        let mut out = mapped;
        out.append(".json");
        out
    }
}

} // verus!
