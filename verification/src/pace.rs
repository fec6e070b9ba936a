//! Snail-print planning: text is emitted one visible character at a time
//! with a delay, while terminal escape sequences pass through atomically and
//! undelayed.

use vstd::prelude::*;

verus! {

/// The escape character that begins a terminal control sequence.
pub open spec fn esc_char() -> char {
    '\u{1b}'
}

/// A byte that ends a control sequence introduced by `ESC [`.
pub open spec fn is_csi_final(c: char) -> bool {
    64 <= c as u32 <= 126
}

fn is_csi_final_exec(c: char) -> (r: bool)
    ensures
        r == is_csi_final(c),
{
    c as u32 >= 64 && c as u32 <= 126
}

/// Length of the run of characters at the start of `s` that end no control
/// sequence.
pub open spec fn spec_nonfinal_len(s: Seq<char>) -> nat
    decreases s.len(),
{
    if s.len() == 0 || is_csi_final(s[0]) {
        0
    } else {
        1 + spec_nonfinal_len(s.drop_first())
    }
}

/// Length of the escape sequence at the start of `s`, whose first character
/// is the escape character: `ESC [`, parameter bytes, and the final byte;
/// a bare escape stands alone, and an unterminated sequence runs to the end.
pub open spec fn spec_esc_len(s: Seq<char>) -> nat {
    if s.len() >= 2 && s[1] == '[' {
        if 2 + spec_nonfinal_len(s.skip(2)) < s.len() {
            2 + spec_nonfinal_len(s.skip(2)) + 1
        } else {
            s.len()
        }
    } else {
        1
    }
}

/// The escape sequence at the start of `s` is non-empty and lies within `s`.
pub proof fn lemma_esc_len_bounds(s: Seq<char>)
    requires
        s.len() > 0,
    ensures
        1 <= spec_esc_len(s) <= s.len(),
{
    if s.len() >= 2 && s[1] == '[' {
        lemma_nonfinal_len_bounds(s.skip(2));
    }
}

proof fn lemma_nonfinal_len_bounds(s: Seq<char>)
    ensures
        spec_nonfinal_len(s) <= s.len(),
    decreases s.len(),
{
    if s.len() > 0 && !is_csi_final(s[0]) {
        lemma_nonfinal_len_bounds(s.drop_first());
    }
}

/// `s` with its escape sequences removed: what actually lands on the screen.
pub open spec fn spec_strip_ansi(s: Seq<char>) -> Seq<char>
    decreases s.len(),
    via spec_strip_ansi_decreases
{
    if s.len() == 0 {
        Seq::empty()
    } else if s[0] == esc_char() {
        spec_strip_ansi(s.skip(spec_esc_len(s) as int))
    } else {
        seq![s[0]] + spec_strip_ansi(s.drop_first())
    }
}

#[via_fn]
proof fn spec_strip_ansi_decreases(s: Seq<char>) {
    if s.len() > 0 {
        lemma_esc_len_bounds(s);
    }
}

/// One unit of paced output: either a single visible character, emitted with
/// the inter-character delay, or a whole escape sequence, emitted undelayed.
pub struct PacedUnit {
    pub text: String,
    pub delay: bool,
}

/// The mathematical image of a paced unit.
pub struct PacedUnitView {
    pub text: Seq<char>,
    pub delay: bool,
}

impl View for PacedUnit {
    type V = PacedUnitView;

    open spec fn view(&self) -> PacedUnitView {
        PacedUnitView { text: self.text@, delay: self.delay }
    }
}

impl DeepView for PacedUnit {
    type V = PacedUnitView;

    open spec fn deep_view(&self) -> PacedUnitView {
        self@
    }
}

/// The paced-output plan for `s`: each escape sequence one undelayed unit,
/// each other character one delayed unit, in order.
pub open spec fn spec_pace_plan(s: Seq<char>) -> Seq<PacedUnitView>
    decreases s.len(),
    via spec_pace_plan_decreases
{
    if s.len() == 0 {
        Seq::empty()
    } else if s[0] == esc_char() {
        seq![PacedUnitView { text: s.take(spec_esc_len(s) as int), delay: false }]
            + spec_pace_plan(s.skip(spec_esc_len(s) as int))
    } else {
        seq![PacedUnitView { text: seq![s[0]], delay: true }] + spec_pace_plan(s.drop_first())
    }
}

#[via_fn]
proof fn spec_pace_plan_decreases(s: Seq<char>) {
    if s.len() > 0 {
        lemma_esc_len_bounds(s);
    }
}

/// The concatenated texts of a sequence of units.
pub open spec fn spec_units_text(us: Seq<PacedUnitView>) -> Seq<char>
    decreases us.len(),
{
    if us.len() == 0 {
        Seq::empty()
    } else {
        us[0].text + spec_units_text(us.drop_first())
    }
}

/// Escape-sequence pacing passthrough: the plan emits exactly the planned
/// text — nothing of `s` is lost, duplicated or reordered by pacing — and
/// its delayed units are single visible characters while escape sequences
/// ride along undelayed.
pub proof fn lemma_pace_plan_emits_all(s: Seq<char>)
    ensures
        spec_units_text(spec_pace_plan(s)) == s,
    decreases s.len(),
{
    if s.len() == 0 {
        assert(spec_units_text(spec_pace_plan(s)) =~= s);
    } else if s[0] == esc_char() {
        lemma_esc_len_bounds(s);
        let k = spec_esc_len(s) as int;
        lemma_pace_plan_emits_all(s.skip(k));
        let plan = spec_pace_plan(s);
        assert(plan.drop_first() =~= spec_pace_plan(s.skip(k)));
        assert(spec_units_text(plan) == s.take(k) + spec_units_text(plan.drop_first()));
        assert(s.take(k) + s.skip(k) =~= s);
    } else {
        lemma_pace_plan_emits_all(s.drop_first());
        let plan = spec_pace_plan(s);
        assert(plan.drop_first() =~= spec_pace_plan(s.drop_first()));
        assert(spec_units_text(plan) == seq![s[0]] + spec_units_text(plan.drop_first()));
        assert(seq![s[0]] + s.drop_first() =~= s);
    }
}

/// Plans the paced emission of `text`: escape sequences become single
/// undelayed units, every other character a delayed unit of its own.
pub fn pace_plan(text: &str) -> (r: Vec<PacedUnit>)
    ensures
        r.deep_view() == spec_pace_plan(text@),
{
    let n: usize = text.unicode_len();
    let mut r: Vec<PacedUnit> = Vec::new();
    let mut pos: usize = 0;
    proof {
        assert(text@.skip(0) =~= text@);
        assert(r.deep_view() =~= Seq::<PacedUnitView>::empty());
        assert(Seq::<PacedUnitView>::empty() + spec_pace_plan(text@) =~= spec_pace_plan(text@));
    }
    while pos < n
        invariant
            pos <= n,
            n == text@.len(),
            spec_pace_plan(text@) == r.deep_view() + spec_pace_plan(text@.skip(pos as int)),
        decreases n - pos,
    {
        let ghost u = text@.skip(pos as int);
        let ghost pre = r.deep_view();
        let c = text.get_char(pos);
        proof {
            assert(u[0] == text@[pos as int]);
        }
        if c == '\u{1b}' {
            let two = pos + 1 < n && text.get_char(pos + 1) == '[';
            let mut e: usize = pos + 1;
            if two {
                e = pos + 2;
                while e < n && !is_csi_final_exec(text.get_char(e))
                    invariant
                        pos + 2 <= e <= n,
                        n == text@.len(),
                        forall|j: int| pos + 2 <= j < e ==> !is_csi_final(text@[j]),
                    decreases n - e,
                {
                    e = e + 1;
                }
            }
            let ghost stop = e as int;
            let endpos: usize = if two && e < n {
                e + 1
            } else {
                e
            };
            let ghost k = spec_esc_len(u);
            proof {
                lemma_esc_len_bounds(u);
                if two {
                    lemma_nonfinal_at(text@, pos + 2, stop);
                    assert(u.skip(2) =~= text@.skip(pos + 2));
                    assert(spec_nonfinal_len(u.skip(2)) == stop - pos - 2);
                }
                assert(k == endpos - pos);
            }
            let seg = String::from_str(text.substring_char(pos, endpos));
            proof {
                assert(seg@ =~= u.take(k as int));
                assert(u.skip(k as int) =~= text@.skip(endpos as int));
            }
            r.push(PacedUnit { text: seg, delay: false });
            proof {
                assert(spec_pace_plan(u) == seq![
                    PacedUnitView { text: u.take(k as int), delay: false },
                ] + spec_pace_plan(u.skip(k as int)));
                assert(r.deep_view() =~= pre.push(
                    PacedUnitView { text: u.take(k as int), delay: false },
                ));
                assert(pre + (seq![PacedUnitView { text: u.take(k as int), delay: false }]
                    + spec_pace_plan(u.skip(k as int))) =~= pre.push(
                    PacedUnitView { text: u.take(k as int), delay: false },
                ) + spec_pace_plan(u.skip(k as int)));
            }
            pos = endpos;
        } else {
            let seg = String::from_str(text.substring_char(pos, pos + 1));
            proof {
                assert(seg@ =~= seq![u[0]]);
                assert(u.drop_first() =~= text@.skip(pos + 1));
            }
            r.push(PacedUnit { text: seg, delay: true });
            proof {
                assert(spec_pace_plan(u) == seq![PacedUnitView { text: seq![u[0]], delay: true }]
                    + spec_pace_plan(u.drop_first()));
                assert(r.deep_view() =~= pre.push(
                    PacedUnitView { text: seq![u[0]], delay: true },
                ));
                assert(pre + (seq![PacedUnitView { text: seq![u[0]], delay: true }]
                    + spec_pace_plan(u.drop_first())) =~= pre.push(
                    PacedUnitView { text: seq![u[0]], delay: true },
                ) + spec_pace_plan(u.drop_first()));
            }
            pos = pos + 1;
        }
    }
    proof {
        assert(spec_pace_plan(text@.skip(n as int)) =~= Seq::<PacedUnitView>::empty());
        assert(r.deep_view() =~= r.deep_view() + Seq::<PacedUnitView>::empty());
    }
    r
}

/// The run of non-final characters starting at `from` runs to `stop`.
proof fn lemma_nonfinal_at(s: Seq<char>, from: int, stop: int)
    requires
        0 <= from <= stop <= s.len(),
        forall|j: int| from <= j < stop ==> !is_csi_final(s[j]),
        stop == s.len() || is_csi_final(s[stop]),
    ensures
        spec_nonfinal_len(s.skip(from)) == stop - from,
    decreases stop - from,
{
    let u = s.skip(from);
    if from == stop {
        if u.len() > 0 {
            assert(u[0] == s[from]);
        }
    } else {
        assert(u[0] == s[from]);
        lemma_nonfinal_at(s, from + 1, stop);
        assert(u.drop_first() =~= s.skip(from + 1));
    }
}

/// `w` holds no escape character.
pub open spec fn has_no_escape(w: Seq<char>) -> bool {
    forall|j: int| 0 <= j < w.len() ==> w[j] != esc_char()
}

/// Stripping changes nothing where no escape stands.
pub(crate) proof fn lemma_strip_id_no_esc(s: Seq<char>)
    requires
        has_no_escape(s),
    ensures
        spec_strip_ansi(s) == s,
    decreases s.len(),
{
    if s.len() > 0 {
        assert(s[0] != esc_char());
        assert forall|j: int| 0 <= j < s.drop_first().len() implies s.drop_first()[j]
            != esc_char() by {
            assert(s.drop_first()[j] == s[j + 1]);
        }
        lemma_strip_id_no_esc(s.drop_first());
        assert(seq![s[0]] + s.drop_first() =~= s);
    }
}

/// Stripping passes an escape-free prefix through.
pub(crate) proof fn lemma_strip_esc_free_prefix(t: Seq<char>, rest: Seq<char>)
    requires
        has_no_escape(t),
    ensures
        spec_strip_ansi(t + rest) == t + spec_strip_ansi(rest),
    decreases t.len(),
{
    if t.len() == 0 {
        assert(t + rest =~= rest);
        assert(t + spec_strip_ansi(rest) =~= spec_strip_ansi(rest));
    } else {
        let u = t + rest;
        assert(u[0] == t[0]);
        assert(u[0] != esc_char());
        assert(u.drop_first() =~= t.drop_first() + rest);
        assert forall|j: int| 0 <= j < t.drop_first().len() implies t.drop_first()[j]
            != esc_char() by {
            assert(t.drop_first()[j] == t[j + 1]);
        }
        lemma_strip_esc_free_prefix(t.drop_first(), rest);
        assert(seq![t[0]] + (t.drop_first() + spec_strip_ansi(rest)) =~= t + spec_strip_ansi(
            rest,
        ));
    }
}

/// Stripping consumes one whole control sequence: `p` runs from its escape
/// and bracket through its final byte.
pub(crate) proof fn lemma_strip_skips_csi(p: Seq<char>, rest: Seq<char>)
    requires
        p.len() >= 3,
        p[0] == esc_char(),
        p[1] == '[',
        forall|j: int| 2 <= j < p.len() - 1 ==> !is_csi_final(p[j]),
        is_csi_final(p[p.len() - 1]),
    ensures
        spec_strip_ansi(p + rest) == spec_strip_ansi(rest),
{
    let u = p + rest;
    assert(u[0] == esc_char());
    assert(u[1] == '[');
    assert forall|j: int| 2 <= j < p.len() - 1 implies !is_csi_final(u[j]) by {
        assert(u[j] == p[j]);
    }
    assert(u[p.len() - 1] == p[p.len() - 1]);
    lemma_nonfinal_at(u, 2, p.len() - 1);
    assert(spec_nonfinal_len(u.skip(2)) == p.len() - 3);
    assert(spec_esc_len(u) == p.len());
    assert(u.skip(p.len() as int) =~= rest);
}

/// The screen content of `s`: its characters outside escape sequences.
pub fn strip_ansi(text: &str) -> (r: String)
    ensures
        r@ == spec_strip_ansi(text@),
{
    let n: usize = text.unicode_len();
    let mut r = String::new();
    let mut pos: usize = 0;
    proof {
        assert(text@.skip(0) =~= text@);
        assert(r@ =~= Seq::<char>::empty());
        assert(Seq::<char>::empty() + spec_strip_ansi(text@) =~= spec_strip_ansi(text@));
    }
    while pos < n
        invariant
            pos <= n,
            n == text@.len(),
            spec_strip_ansi(text@) == r@ + spec_strip_ansi(text@.skip(pos as int)),
        decreases n - pos,
    {
        let ghost u = text@.skip(pos as int);
        let ghost pre = r@;
        let c = text.get_char(pos);
        proof {
            assert(u[0] == text@[pos as int]);
        }
        if c == '\u{1b}' {
            let two = pos + 1 < n && text.get_char(pos + 1) == '[';
            let mut e: usize = pos + 1;
            if two {
                e = pos + 2;
                while e < n && !is_csi_final_exec(text.get_char(e))
                    invariant
                        pos + 2 <= e <= n,
                        n == text@.len(),
                        forall|j: int| pos + 2 <= j < e ==> !is_csi_final(text@[j]),
                    decreases n - e,
                {
                    e = e + 1;
                }
            }
            let ghost stop = e as int;
            let endpos: usize = if two && e < n {
                e + 1
            } else {
                e
            };
            let ghost k = spec_esc_len(u);
            proof {
                lemma_esc_len_bounds(u);
                if two {
                    lemma_nonfinal_at(text@, pos + 2, stop);
                    assert(u.skip(2) =~= text@.skip(pos + 2));
                    assert(spec_nonfinal_len(u.skip(2)) == stop - pos - 2);
                }
                assert(k == endpos - pos);
                assert(u.skip(k as int) =~= text@.skip(endpos as int));
                assert(spec_strip_ansi(u) == spec_strip_ansi(u.skip(k as int)));
            }
            pos = endpos;
        } else {
            let seg = text.substring_char(pos, pos + 1);
            r.append(seg);
            proof {
                assert(seg@ =~= seq![u[0]]);
                assert(u.drop_first() =~= text@.skip(pos + 1));
                assert(spec_strip_ansi(u) == seq![u[0]] + spec_strip_ansi(u.drop_first()));
                assert(pre + (seq![u[0]] + spec_strip_ansi(u.drop_first())) =~= (pre + seq![u[0]])
                    + spec_strip_ansi(u.drop_first()));
            }
            pos = pos + 1;
        }
    }
    proof {
        assert(spec_strip_ansi(text@.skip(n as int)) =~= Seq::<char>::empty());
        assert(r@ =~= r@ + Seq::<char>::empty());
    }
    r
}

} // verus!
