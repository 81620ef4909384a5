//! Terminal text measurement: escape stripping, sanitising, cell widths and
//! truncation to a cell budget.

use vstd::prelude::*;
use crate::text::{
    chars_of, is_ascii_alpha, is_ascii_alpha_char, is_control, is_control_char, slice_chars,
    string_from_chars,
};

verus! {

pub const ESC: char = '\u{1b}';
pub const BEL: char = '\u{7}';
pub const ELLIPSIS: char = '\u{2026}';

/// Where the escape scanner stands between two characters.
#[derive(Clone, Copy, PartialEq, Eq, Structural)]
pub enum Scan {
    /// Plain text: characters are kept.
    Text,
    /// Just after an ESC.
    Escape,
    /// Inside a CSI sequence (`ESC [`), up to a final letter or `~`.
    Csi,
    /// Inside an OSC sequence (`ESC ]`), up to BEL or `ESC \`.
    Osc,
    /// Inside an OSC sequence, just after an ESC.
    OscEscape,
}

/// The scanner's next state after `c`.
pub open spec fn scan_next(st: Scan, c: char) -> Scan {
    match st {
        Scan::Text => if c == ESC { Scan::Escape } else { Scan::Text },
        Scan::Escape => if c == '[' { Scan::Csi } else if c == ']' { Scan::Osc } else { Scan::Text },
        Scan::Csi => if is_ascii_alpha_char(c) || c == '~' { Scan::Text } else { Scan::Csi },
        Scan::Osc => if c == BEL { Scan::Text } else if c == ESC { Scan::OscEscape } else { Scan::Osc },
        Scan::OscEscape => if c == '\\' || c == BEL {
            Scan::Text
        } else if c == ESC {
            Scan::OscEscape
        } else {
            Scan::Osc
        },
    }
}

/// Whether `c`, read in state `st`, is kept in the output.
pub open spec fn scan_keeps(st: Scan, c: char) -> bool {
    st == Scan::Text && c != ESC
}

/// What the scanner keeps of `s`, starting in state `st`.
pub open spec fn strip_from(s: Seq<char>, st: Scan) -> Seq<char>
    decreases s.len(),
{
    if s.len() == 0 {
        Seq::empty()
    } else {
        let rest = strip_from(s.drop_first(), scan_next(st, s[0]));
        if scan_keeps(st, s[0]) {
            seq![s[0]] + rest
        } else {
            rest
        }
    }
}

/// The state the scanner ends in after `s`, starting in `st`.
pub open spec fn scan_end(s: Seq<char>, st: Scan) -> Scan
    decreases s.len(),
{
    if s.len() == 0 {
        st
    } else {
        scan_end(s.drop_first(), scan_next(st, s[0]))
    }
}

/// `s` without ANSI escape sequences: CSI sequences run to their final
/// letter or `~`, OSC sequences to BEL or `ESC \`, and any other ESC takes
/// the character after it.
pub open spec fn strip_ansi_spec(s: Seq<char>) -> Seq<char> {
    strip_from(s, Scan::Text)
}

/// `s` without control characters.
pub open spec fn drop_controls(s: Seq<char>) -> Seq<char>
    decreases s.len(),
{
    if s.len() == 0 {
        Seq::empty()
    } else if is_control_char(s.last()) {
        drop_controls(s.drop_last())
    } else {
        drop_controls(s.drop_last()).push(s.last())
    }
}

/// `s` made safe to print: escape sequences and control characters removed.
pub open spec fn sanitize_spec(s: Seq<char>) -> Seq<char> {
    drop_controls(strip_ansi_spec(s))
}

/// A string with no control character (and so no ESC, newline or CR).
pub open spec fn is_clean(s: Seq<char>) -> bool {
    forall|i: int| 0 <= i < s.len() ==> !is_control_char(#[trigger] s[i])
}

// ---------------------------------------------------------------------------
// Cell widths
// ---------------------------------------------------------------------------

pub open spec fn is_wide_char(c: char) -> bool {
    let v = c as u32;
    ||| 0x1100 <= v && v <= 0x115f
    ||| v == 0x2329
    ||| v == 0x232a
    ||| 0x2e80 <= v && v <= 0xa4cf
    ||| 0xac00 <= v && v <= 0xd7a3
    ||| 0xf900 <= v && v <= 0xfaff
    ||| 0xfe10 <= v && v <= 0xfe19
    ||| 0xfe30 <= v && v <= 0xfe6f
    ||| 0xff00 <= v && v <= 0xff60
    ||| 0xffe0 <= v && v <= 0xffe6
    ||| 0x1f300 <= v && v <= 0x1f64f
    ||| 0x1f900 <= v && v <= 0x1f9ff
}

/// Terminal cells taken by `c`: none for control characters, two for wide
/// (East Asian and emoji) characters, one otherwise.
pub open spec fn char_width_spec(c: char) -> nat {
    if c == '\0' || is_control_char(c) {
        0
    } else if is_wide_char(c) {
        2
    } else {
        1
    }
}

/// Terminal cells taken by `s`.
pub open spec fn width_spec(s: Seq<char>) -> nat
    decreases s.len(),
{
    if s.len() == 0 {
        0
    } else {
        width_spec(s.drop_last()) + char_width_spec(s.last())
    }
}

/// A length for which every width sum in this crate fits a `usize`.
pub open spec fn measurable(s: Seq<char>) -> bool {
    s.len() <= usize::MAX / 2
}

pub fn is_wide(c: char) -> (b: bool)
    ensures
        b == is_wide_char(c),
{
    let v = c as u32;
    (0x1100 <= v && v <= 0x115f) || v == 0x2329 || v == 0x232a || (0x2e80 <= v && v <= 0xa4cf)
        || (0xac00 <= v && v <= 0xd7a3) || (0xf900 <= v && v <= 0xfaff) || (0xfe10 <= v && v
        <= 0xfe19) || (0xfe30 <= v && v <= 0xfe6f) || (0xff00 <= v && v <= 0xff60) || (0xffe0
        <= v && v <= 0xffe6) || (0x1f300 <= v && v <= 0x1f64f) || (0x1f900 <= v && v <= 0x1f9ff)
}

pub fn char_width(c: char) -> (w: usize)
    ensures
        w == char_width_spec(c),
{
    if c == '\0' || is_control(c) {
        0
    } else if is_wide(c) {
        2
    } else {
        1
    }
}

pub proof fn lemma_width_bound(s: Seq<char>)
    ensures
        width_spec(s) <= 2 * s.len(),
    decreases s.len(),
{
    if s.len() > 0 {
        lemma_width_bound(s.drop_last());
    }
}

pub proof fn lemma_width_concat(a: Seq<char>, b: Seq<char>)
    ensures
        width_spec(a + b) == width_spec(a) + width_spec(b),
    decreases b.len(),
{
    if b.len() == 0 {
        assert(a + b =~= a);
    } else {
        lemma_width_concat(a, b.drop_last());
        assert((a + b).drop_last() =~= a + b.drop_last());
        assert((a + b).last() == b.last());
    }
}

pub proof fn lemma_width_prefix(s: Seq<char>, k: int)
    requires
        0 <= k <= s.len(),
    ensures
        width_spec(s.take(k)) <= width_spec(s),
    decreases s.len() - k,
{
    if k < s.len() {
        lemma_width_prefix(s.drop_last(), k);
        assert(s.drop_last().take(k) =~= s.take(k));
    } else {
        assert(s.take(k) =~= s);
    }
}

pub proof fn lemma_width_single(c: char)
    ensures
        width_spec(seq![c]) == char_width_spec(c),
{
    assert(seq![c].drop_last() =~= Seq::<char>::empty());
    assert(seq![c].last() == c);
    assert(width_spec(Seq::<char>::empty()) == 0);
}

/// Widths add up over concatenation, the empty string takes no cells, and
/// every single character takes none (control), one or two (wide) cells.
/// This holds of every string, whatever its length.
pub proof fn law_width_adds(a: Seq<char>, b: Seq<char>)
    ensures
        width_spec(a + b) == width_spec(a) + width_spec(b),
        width_spec(Seq::<char>::empty()) == 0,
        forall|c: char| #[trigger] width_spec(seq![c]) <= 2,
        forall|c: char|
            #[trigger] width_spec(seq![c]) == 0 <==> (c == '\0' || is_control_char(c)),
        forall|c: char|
            #[trigger] width_spec(seq![c]) == 2 <==> (!(c == '\0' || is_control_char(c))
                && is_wide_char(c)),
{
    lemma_width_concat(a, b);
    assert forall|c: char| #[trigger] width_spec(seq![c]) == char_width_spec(c) by {
        lemma_width_single(c);
    }
}

/// `display_width`: the terminal cells taken by `s`.
pub fn chars_width(s: &[char]) -> (w: usize)
    requires
        measurable(s@),
    ensures
        w == width_spec(s@),
{
    let mut w: usize = 0;
    let mut i: usize = 0;
    while i < s.len()
        invariant
            i <= s@.len(),
            measurable(s@),
            w == width_spec(s@.take(i as int)),
        decreases s@.len() - i,
    {
        proof {
            assert(s@.take(i + 1).drop_last() =~= s@.take(i as int));
            lemma_width_bound(s@.take(i as int));
        }
        w = w + char_width(s[i]);
        i = i + 1;
    }
    assert(s@.take(s@.len() as int) =~= s@);
    w
}

/// The width of `s` when it is at most `cap` cells; `None` when wider.
pub fn bounded_width(s: &[char], cap: usize) -> (r: Option<usize>)
    ensures
        match r {
            Some(w) => w == width_spec(s@) && w <= cap,
            None => width_spec(s@) > cap,
        },
{
    let mut w: usize = 0;
    let mut i: usize = 0;
    while i < s.len()
        invariant
            i <= s@.len(),
            w == width_spec(s@.take(i as int)),
            w <= cap,
        decreases s@.len() - i,
    {
        proof {
            assert(s@.take(i + 1).drop_last() =~= s@.take(i as int));
        }
        let cw = char_width(s[i]);
        if cw > cap - w {
            proof {
                lemma_width_prefix(s@, i + 1);
            }
            return None;
        }
        w = w + cw;
        i = i + 1;
    }
    assert(s@.take(s@.len() as int) =~= s@);
    Some(w)
}

/// Whether `s` fits in `cap` cells.
pub fn fits_width(s: &[char], cap: usize) -> (b: bool)
    ensures
        b == (width_spec(s@) <= cap),
{
    match bounded_width(s, cap) {
        Some(_) => true,
        None => false,
    }
}

/// Terminal cells taken by `s`.
pub fn display_width(s: &str) -> (w: usize)
    requires
        measurable(s@),
    ensures
        w == width_spec(s@),
{
    let v = chars_of(s);
    chars_width(&v)
}

// ---------------------------------------------------------------------------
// Truncation to a cell budget
// ---------------------------------------------------------------------------

/// How many leading characters of `s` fit in `budget` cells.
pub open spec fn fit_len(s: Seq<char>, budget: nat) -> nat
    decreases s.len(),
{
    if s.len() == 0 || char_width_spec(s[0]) > budget {
        0
    } else {
        1 + fit_len(s.drop_first(), (budget - char_width_spec(s[0])) as nat)
    }
}

/// `s` cut to at most `max` cells; a cut string ends in `…`.
pub open spec fn truncate_spec(s: Seq<char>, max: nat) -> Seq<char> {
    if max == 0 {
        Seq::empty()
    } else if width_spec(s) <= max {
        s
    } else if max == 1 {
        seq![ELLIPSIS]
    } else {
        s.take(fit_len(s, (max - 1) as nat) as int).push(ELLIPSIS)
    }
}

pub proof fn lemma_fit_len(s: Seq<char>, budget: nat)
    ensures
        fit_len(s, budget) <= s.len(),
        width_spec(s.take(fit_len(s, budget) as int)) <= budget,
    decreases s.len(),
{
    if s.len() > 0 && char_width_spec(s[0]) <= budget {
        let b2 = (budget - char_width_spec(s[0])) as nat;
        lemma_fit_len(s.drop_first(), b2);
        let k = fit_len(s.drop_first(), b2);
        assert(s.take(k + 1int) =~= seq![s[0]] + s.drop_first().take(k as int));
        lemma_width_concat(seq![s[0]], s.drop_first().take(k as int));
        lemma_width_single(s[0]);
    } else {
        assert(s.take(0) =~= Seq::<char>::empty());
    }
}

proof fn lemma_fit_stop(s: Seq<char>, budget: nat, i: int)
    requires
        0 <= i < s.len(),
        width_spec(s.take(i)) <= budget,
        width_spec(s.take(i)) + char_width_spec(s[i]) > budget,
        forall|j: int| 0 <= j < i ==> width_spec(s.take(j)) + char_width_spec(s[j]) <= budget,
    ensures
        fit_len(s, budget) == i,
    decreases i,
{
    if i == 0 {
        assert(s.take(0) =~= Seq::<char>::empty());
    } else {
        let b2 = (budget - char_width_spec(s[0])) as nat;
        assert(s.take(1) =~= seq![s[0]]);
        lemma_width_single(s[0]);
        assert(width_spec(s.take(0)) == 0) by {
            assert(s.take(0) =~= Seq::<char>::empty());
        }
        assert(char_width_spec(s[0]) <= budget);
        let t = s.drop_first();
        assert forall|j: int| 0 <= j < i - 1 implies width_spec(t.take(j)) + char_width_spec(t[j])
            <= b2 by {
            assert(s.take(j + 1) =~= seq![s[0]] + t.take(j));
            lemma_width_concat(seq![s[0]], t.take(j));
            assert(t[j] == s[j + 1]);
        }
        assert(s.take(i) =~= seq![s[0]] + t.take(i - 1));
        lemma_width_concat(seq![s[0]], t.take(i - 1));
        lemma_fit_stop(t, b2, i - 1);
    }
}

proof fn lemma_fit_all(s: Seq<char>, budget: nat)
    requires
        width_spec(s) <= budget,
    ensures
        fit_len(s, budget) == s.len(),
    decreases s.len(),
{
    if s.len() > 0 {
        let t = s.drop_first();
        assert(s =~= seq![s[0]] + t);
        lemma_width_concat(seq![s[0]], t);
        lemma_width_single(s[0]);
        lemma_fit_all(t, (budget - char_width_spec(s[0])) as nat);
    }
}

/// `truncate_cells`: `s` cut to at most `max` cells, ending in `…` when cut.
pub fn truncate_chars(s: &[char], max: usize) -> (out: Vec<char>)
    ensures
        out@ == truncate_spec(s@, max as nat),
{
    if max == 0 {
        return Vec::new();
    }
    if fits_width(s, max) {
        return slice_chars(s, 0, s.len());
    }
    if max == 1 {
        let mut out: Vec<char> = Vec::new();
        out.push(ELLIPSIS);
        return out;
    }
    let budget = max - 1;
    let mut out: Vec<char> = Vec::new();
    let mut w: usize = 0;
    let mut i: usize = 0;
    let ghost fit = fit_len(s@, budget as nat);
    proof {
        lemma_fit_len(s@, budget as nat);
    }
    loop
        invariant_except_break
            i <= s@.len(),
            w == width_spec(s@.take(i as int)),
            w <= budget,
            out@ == s@.take(i as int),
            budget == max - 1,
            forall|j: int| 0 <= j < i ==> width_spec(s@.take(j)) + char_width_spec(s@[j]) <= budget,
        ensures
            out@ == s@.take(fit_len(s@, budget as nat) as int),
        decreases s@.len() - i,
    {
        if i == s.len() {
            proof {
                assert(s@.take(i as int) =~= s@);
                lemma_fit_all(s@, budget as nat);
            }
            break;
        }
        let cw = char_width(s[i]);
        if cw > budget - w {
            proof {
                lemma_fit_stop(s@, budget as nat, i as int);
            }
            break;
        }
        proof {
            assert(s@.take(i + 1).drop_last() =~= s@.take(i as int));
        }
        out.push(s[i]);
        w = w + cw;
        i = i + 1;
        assert(out@ =~= s@.take(i as int));
    }
    out.push(ELLIPSIS);
    out
}

/// `s` cut to at most `max` cells, ending in `…` when cut.
pub fn truncate_cells(s: &str, max: usize) -> (out: String)
    ensures
        out@ == truncate_spec(s@, max as nat),
{
    let v = chars_of(s);
    let t = truncate_chars(&v, max);
    string_from_chars(&t)
}

/// A truncated string never takes more than `max` cells.
pub proof fn law_truncate_fits(s: Seq<char>, max: nat)
    ensures
        width_spec(truncate_spec(s, max)) <= max,
{
    if max == 0 {
    } else if width_spec(s) <= max {
    } else if max == 1 {
        lemma_width_single(ELLIPSIS);
    } else {
        let b = (max - 1) as nat;
        lemma_fit_len(s, b);
        let p = s.take(fit_len(s, b) as int);
        assert(p.push(ELLIPSIS) =~= p + seq![ELLIPSIS]);
        lemma_width_concat(p, seq![ELLIPSIS]);
        lemma_width_single(ELLIPSIS);
    }
}

// ---------------------------------------------------------------------------
// Escape stripping and sanitising
// ---------------------------------------------------------------------------

fn scan_step(st: Scan, c: char) -> (r: (Scan, bool))
    ensures
        r.0 == scan_next(st, c),
        r.1 == scan_keeps(st, c),
{
    let next = match st {
        Scan::Text => if c == ESC { Scan::Escape } else { Scan::Text },
        Scan::Escape => if c == '[' { Scan::Csi } else if c == ']' { Scan::Osc } else { Scan::Text },
        Scan::Csi => if is_ascii_alpha(c) || c == '~' { Scan::Text } else { Scan::Csi },
        Scan::Osc => if c == BEL { Scan::Text } else if c == ESC { Scan::OscEscape } else { Scan::Osc },
        Scan::OscEscape => if c == '\\' || c == BEL {
            Scan::Text
        } else if c == ESC {
            Scan::OscEscape
        } else {
            Scan::Osc
        },
    };
    (next, st == Scan::Text && c != ESC)
}

/// `strip_ansi` on characters.
pub fn strip_ansi_chars(s: &[char]) -> (out: Vec<char>)
    ensures
        out@ == strip_ansi_spec(s@),
{
    let mut out: Vec<char> = Vec::new();
    let mut st = Scan::Text;
    let mut i: usize = 0;
    assert(s@.skip(0) =~= s@);
    assert(out@ + strip_from(s@, st) =~= strip_from(s@, st));
    while i < s.len()
        invariant
            i <= s@.len(),
            out@ + strip_from(s@.skip(i as int), st) == strip_ansi_spec(s@),
        decreases s@.len() - i,
    {
        let ghost rest = s@.skip(i as int);
        assert(rest.drop_first() =~= s@.skip(i + 1));
        let (next, keep) = scan_step(st, s[i]);
        if keep {
            out.push(s[i]);
        }
        st = next;
        i = i + 1;
        assert(out@ + strip_from(s@.skip(i as int), st) =~= strip_ansi_spec(s@));
    }
    assert(s@.skip(s@.len() as int) =~= Seq::<char>::empty());
    assert(out@ + Seq::<char>::empty() =~= out@);
    out
}

/// `s` without ANSI escape sequences.
pub fn strip_ansi(s: &str) -> (out: String)
    ensures
        out@ == strip_ansi_spec(s@),
{
    let v = chars_of(s);
    let t = strip_ansi_chars(&v);
    string_from_chars(&t)
}

/// `s` without control characters.
pub fn drop_control_chars(s: &[char]) -> (out: Vec<char>)
    ensures
        out@ == drop_controls(s@),
{
    let mut out: Vec<char> = Vec::new();
    let mut i: usize = 0;
    while i < s.len()
        invariant
            i <= s@.len(),
            out@ == drop_controls(s@.take(i as int)),
        decreases s@.len() - i,
    {
        assert(s@.take(i + 1).drop_last() =~= s@.take(i as int));
        if !is_control(s[i]) {
            out.push(s[i]);
        }
        i = i + 1;
    }
    assert(s@.take(s@.len() as int) =~= s@);
    out
}

/// `sanitize` on characters.
pub fn sanitize_chars(s: &[char]) -> (out: Vec<char>)
    ensures
        out@ == sanitize_spec(s@),
{
    let t = strip_ansi_chars(s);
    drop_control_chars(&t)
}

/// `s` without escape sequences and control characters.
pub fn sanitize(s: &str) -> (out: String)
    ensures
        out@ == sanitize_spec(s@),
{
    let v = chars_of(s);
    let t = sanitize_chars(&v);
    string_from_chars(&t)
}

// ---------------------------------------------------------------------------
// Laws
// ---------------------------------------------------------------------------

pub proof fn lemma_drop_controls_clean(s: Seq<char>)
    ensures
        is_clean(drop_controls(s)),
        drop_controls(s).len() <= s.len(),
    decreases s.len(),
{
    if s.len() > 0 {
        lemma_drop_controls_clean(s.drop_last());
    }
}

pub proof fn lemma_drop_controls_of_clean(s: Seq<char>)
    requires
        is_clean(s),
    ensures
        drop_controls(s) == s,
    decreases s.len(),
{
    if s.len() > 0 {
        assert(!is_control_char(s[s.len() - 1]));
        lemma_drop_controls_of_clean(s.drop_last());
        assert(s.drop_last().push(s.last()) =~= s);
    }
}

pub proof fn lemma_strip_len(s: Seq<char>, st: Scan)
    ensures
        strip_from(s, st).len() <= s.len(),
    decreases s.len(),
{
    if s.len() > 0 {
        lemma_strip_len(s.drop_first(), scan_next(st, s[0]));
    }
}

/// Text without ESC passes the scanner unchanged, in the text state.
pub proof fn lemma_strip_plain(s: Seq<char>)
    requires
        !s.contains(ESC),
    ensures
        strip_from(s, Scan::Text) == s,
        scan_end(s, Scan::Text) == Scan::Text,
    decreases s.len(),
{
    if s.len() > 0 {
        assert(s[0] != ESC) by {
            assert(s.contains(s[0]) ==> s[0] != ESC);
        }
        let t = s.drop_first();
        assert(!t.contains(ESC)) by {
            if t.contains(ESC) {
                let k = choose|k: int| 0 <= k < t.len() && t[k] == ESC;
                assert(s[k + 1] == ESC);
            }
        }
        lemma_strip_plain(t);
        assert(seq![s[0]] + t =~= s);
    }
}

/// The scanner runs over a concatenation piece by piece.
pub proof fn lemma_strip_concat(a: Seq<char>, b: Seq<char>, st: Scan)
    ensures
        strip_from(a + b, st) == strip_from(a, st) + strip_from(b, scan_end(a, st)),
        scan_end(a + b, st) == scan_end(b, scan_end(a, st)),
    decreases a.len(),
{
    if a.len() == 0 {
        assert(a + b =~= b);
        assert(strip_from(a, st) + strip_from(b, st) =~= strip_from(b, st));
    } else {
        assert((a + b).drop_first() =~= a.drop_first() + b);
        assert((a + b)[0] == a[0]);
        lemma_strip_concat(a.drop_first(), b, scan_next(st, a[0]));
        let r = strip_from(a.drop_first(), scan_next(st, a[0]));
        let q = strip_from(b, scan_end(a, st));
        assert(seq![a[0]] + (r + q) =~= (seq![a[0]] + r) + q);
    }
}

/// A clean string has no escape sequence either.
pub proof fn lemma_clean_no_esc(s: Seq<char>)
    requires
        is_clean(s),
    ensures
        !s.contains(ESC),
{
    if s.contains(ESC) {
        let k = choose|k: int| 0 <= k < s.len() && s[k] == ESC;
        assert(is_control_char(s[k]));
    }
}

/// Sanitised text is clean, no longer than its input, and sanitising it
/// again changes nothing.
pub proof fn law_sanitize_idempotent(s: Seq<char>)
    ensures
        is_clean(sanitize_spec(s)),
        sanitize_spec(s).len() <= s.len(),
        sanitize_spec(sanitize_spec(s)) == sanitize_spec(s),
{
    let t = sanitize_spec(s);
    lemma_strip_len(s, Scan::Text);
    lemma_drop_controls_clean(strip_ansi_spec(s));
    lemma_clean_no_esc(t);
    lemma_strip_plain(t);
    lemma_drop_controls_of_clean(t);
}

} // verus!
