//! What holds of every status line: colour is only decoration (stripping
//! the escape sequences from a coloured line gives the plain line, which
//! holds no escape), and the lines that are fitted to the terminal stay
//! within its width.

use vstd::prelude::*;
use crate::ansi::{
    char_width_spec, is_clean, lemma_clean_no_esc, lemma_drop_controls_clean, lemma_fit_len,
    lemma_strip_concat, lemma_strip_plain, lemma_width_concat, lemma_width_single,
    law_truncate_fits, sanitize_spec, scan_end, strip_ansi_spec, strip_from,
    truncate_spec, width_spec, Scan, ELLIPSIS, ESC,
};
use crate::text::{decimal, digit_char, is_ascii_alpha_char, is_control_char};
use crate::ui::{
    crossing_spec, fatal_spec, kind_label, layer_end_spec, layer_fail_spec, leftover_spec,
    live_line_spec, live_tail_spec, max_nat, paint_spec, rebuild_spec, render_crossing_spec,
    resources_spec, setup_spec, sep_spec, sgr, spin_mark_spec, stop_failed_spec, CrossingKind,
    LayerEnd, ARROW, BULLET, CROSS, MIDDOT, MIN_WIDTH,
};

verus! {

/// `c` shows as `p`: stripping its escape sequences gives `p`, the scanner
/// ends outside any sequence, and `p` holds no escape.
pub open spec fn shows_as(c: Seq<char>, p: Seq<char>) -> bool {
    &&& strip_ansi_spec(c) == p
    &&& scan_end(c, Scan::Text) == Scan::Text
    &&& !p.contains(ESC)
}

pub proof fn lemma_shows_plain(t: Seq<char>)
    requires
        !t.contains(ESC),
    ensures
        shows_as(t, t),
{
    lemma_strip_plain(t);
}

pub proof fn lemma_no_esc_concat(a: Seq<char>, b: Seq<char>)
    requires
        !a.contains(ESC),
        !b.contains(ESC),
    ensures
        !(a + b).contains(ESC),
{
    if (a + b).contains(ESC) {
        let k = choose|k: int| 0 <= k < (a + b).len() && (a + b)[k] == ESC;
        if k < a.len() {
            assert(a[k] == ESC);
        } else {
            assert(b[k - a.len()] == ESC);
        }
    }
}

pub proof fn lemma_shows_concat(c1: Seq<char>, p1: Seq<char>, c2: Seq<char>, p2: Seq<char>)
    requires
        shows_as(c1, p1),
        shows_as(c2, p2),
    ensures
        shows_as(c1 + c2, p1 + p2),
{
    lemma_strip_concat(c1, c2, Scan::Text);
    lemma_no_esc_concat(p1, p2);
}

/// Inside a CSI sequence, characters that are neither letters nor `~` are
/// dropped and keep the sequence open.
proof fn lemma_csi_body(s: Seq<char>)
    requires
        forall|i: int| 0 <= i < s.len() ==> !is_ascii_alpha_char(#[trigger] s[i]) && s[i] != '~',
    ensures
        strip_from(s, Scan::Csi) == Seq::<char>::empty(),
        scan_end(s, Scan::Csi) == Scan::Csi,
    decreases s.len(),
{
    if s.len() > 0 {
        assert(!is_ascii_alpha_char(s[0]) && s[0] != '~');
        lemma_csi_body(s.drop_first());
    }
}

proof fn lemma_decimal_digits(n: nat)
    ensures
        forall|i: int|
            0 <= i < decimal(n).len() ==> '0' <= #[trigger] decimal(n)[i] && decimal(n)[i] <= '9',
    decreases n,
{
    if n >= 10 {
        lemma_decimal_digits(n / 10);
        assert forall|i: int| 0 <= i < decimal(n).len() implies '0' <= #[trigger] decimal(n)[i]
            && decimal(n)[i] <= '9' by {
            if i < decimal(n / 10).len() {
                assert(decimal(n)[i] == decimal(n / 10)[i]);
            } else {
                assert(decimal(n)[i] == digit_char(n % 10));
            }
        }
    } else {
        assert(decimal(n) == seq![digit_char(n)]);
    }
}

/// A colour escape shows as nothing.
proof fn lemma_sgr(hex: u32)
    ensures
        shows_as(sgr(hex), Seq::<char>::empty()),
{
    reveal_strlit("\x1b[38;2;");
    reveal_strlit(";");
    reveal_strlit("m");
    let d1 = decimal(((hex >> 16u32) & 0xffu32) as nat);
    let d2 = decimal(((hex >> 8u32) & 0xffu32) as nat);
    let d3 = decimal((hex & 0xffu32) as nat);
    lemma_decimal_digits(((hex >> 16u32) & 0xffu32) as nat);
    lemma_decimal_digits(((hex >> 8u32) & 0xffu32) as nat);
    lemma_decimal_digits((hex & 0xffu32) as nat);
    let body = "38;2;"@ + d1 + ";"@ + d2 + ";"@ + d3;
    reveal_strlit("38;2;");
    assert(sgr(hex) =~= seq![ESC, '['] + body + seq!['m']);
    assert forall|i: int| 0 <= i < body.len() implies !is_ascii_alpha_char(#[trigger] body[i])
        && body[i] != '~' by {
        let a = "38;2;"@;
        if i < a.len() {
        } else if i < a.len() + d1.len() {
            assert(body[i] == d1[i - a.len()]);
        } else if i < a.len() + d1.len() + 1 {
        } else if i < a.len() + d1.len() + 1 + d2.len() {
            assert(body[i] == d2[i - a.len() - d1.len() - 1]);
        } else if i < a.len() + d1.len() + 2 + d2.len() {
        } else {
            assert(body[i] == d3[i - a.len() - d1.len() - 2 - d2.len()]);
        }
    }
    lemma_csi_body(body);
    let open = seq![ESC, '['];
    assert(strip_from(open, Scan::Text) =~= Seq::<char>::empty()) by {
        reveal_with_fuel(strip_from, 3);
    }
    assert(scan_end(open, Scan::Text) == Scan::Csi) by {
        reveal_with_fuel(scan_end, 3);
    }
    lemma_strip_concat(open, body, Scan::Text);
    lemma_strip_concat(open + body, seq!['m'], Scan::Text);
    assert(strip_from(seq!['m'], Scan::Csi) =~= Seq::<char>::empty()) by {
        reveal_with_fuel(strip_from, 2);
    }
    assert(scan_end(seq!['m'], Scan::Csi) == Scan::Text) by {
        reveal_with_fuel(scan_end, 2);
    }
}

/// The reset escape shows as nothing.
proof fn lemma_reset_sgr()
    ensures
        shows_as("\x1b[0m"@, Seq::<char>::empty()),
{
    reveal_strlit("\x1b[0m");
    let open = seq![ESC, '['];
    assert("\x1b[0m"@ =~= open + seq!['0'] + seq!['m']);
    assert(strip_from(open, Scan::Text) =~= Seq::<char>::empty()) by {
        reveal_with_fuel(strip_from, 3);
    }
    assert(scan_end(open, Scan::Text) == Scan::Csi) by {
        reveal_with_fuel(scan_end, 3);
    }
    assert(strip_from(seq!['0'], Scan::Csi) =~= Seq::<char>::empty()) by {
        reveal_with_fuel(strip_from, 2);
    }
    assert(scan_end(seq!['0'], Scan::Csi) == Scan::Csi) by {
        reveal_with_fuel(scan_end, 2);
    }
    assert(strip_from(seq!['m'], Scan::Csi) =~= Seq::<char>::empty()) by {
        reveal_with_fuel(strip_from, 2);
    }
    assert(scan_end(seq!['m'], Scan::Csi) == Scan::Text) by {
        reveal_with_fuel(scan_end, 2);
    }
    lemma_strip_concat(open, seq!['0'], Scan::Text);
    lemma_strip_concat(open + seq!['0'], seq!['m'], Scan::Text);
}

/// Painted text shows as the text, whether or not colour is on.
pub proof fn lemma_paint_shows(color: bool, hex: u32, t: Seq<char>)
    requires
        !t.contains(ESC),
    ensures
        shows_as(paint_spec(color, hex, t), t),
        shows_as(paint_spec(false, hex, t), t),
{
    lemma_shows_plain(t);
    if color && t.len() > 0 {
        lemma_sgr(hex);
        lemma_reset_sgr();
        lemma_shows_concat(sgr(hex), Seq::empty(), t, t);
        lemma_shows_concat(sgr(hex) + t, Seq::<char>::empty() + t, "\x1b[0m"@, Seq::empty());
        assert(Seq::<char>::empty() + t + Seq::<char>::empty() =~= t);
    }
}

/// Sanitised text holds no escape.
pub proof fn lemma_sanitized_no_esc(s: Seq<char>)
    ensures
        !sanitize_spec(s).contains(ESC),
        is_clean(sanitize_spec(s)),
{
    lemma_drop_controls_clean(strip_ansi_spec(s));
    lemma_clean_no_esc(sanitize_spec(s));
}

/// Truncating clean text keeps it clean.
pub proof fn lemma_truncate_clean(s: Seq<char>, max: nat)
    requires
        is_clean(s),
    ensures
        is_clean(truncate_spec(s, max)),
        !truncate_spec(s, max).contains(ESC),
{
    let t = truncate_spec(s, max);
    if max >= 2 && width_spec(s) > max {
        lemma_fit_len(s, (max - 1) as nat);
        assert forall|i: int| 0 <= i < t.len() implies !is_control_char(#[trigger] t[i]) by {
            if i < t.len() - 1 {
                assert(t[i] == s[i]);
            } else {
                assert(t[i] == ELLIPSIS);
            }
        }
    } else if max == 1 && width_spec(s) > max {
        assert(t[0] == ELLIPSIS);
    }
    lemma_clean_no_esc(t);
}

pub proof fn lemma_literal_no_esc(s: Seq<char>)
    requires
        forall|i: int| 0 <= i < s.len() ==> #[trigger] s[i] != ESC,
    ensures
        !s.contains(ESC),
{
}

proof fn lemma_sep_shows()
    ensures
        shows_as(sep_spec(true), sep_spec(false)),
        shows_as(sep_spec(false), sep_spec(false)),
{
    reveal_strlit("  ");
    lemma_literal_no_esc("  "@);
    lemma_literal_no_esc(seq![MIDDOT]);
    lemma_shows_plain("  "@);
    lemma_paint_shows(true, crate::ui::MUTED, seq![MIDDOT]);
    lemma_shows_concat("  "@, "  "@, paint_spec(true, crate::ui::MUTED, seq![MIDDOT]), seq![MIDDOT]);
    lemma_shows_concat("  "@ + paint_spec(true, crate::ui::MUTED, seq![MIDDOT]), "  "@ + seq![MIDDOT], "  "@, "  "@);
    lemma_shows_concat("  "@, "  "@, paint_spec(false, crate::ui::MUTED, seq![MIDDOT]), seq![MIDDOT]);
    lemma_shows_concat("  "@ + paint_spec(false, crate::ui::MUTED, seq![MIDDOT]), "  "@ + seq![MIDDOT], "  "@, "  "@);
}

/// Colour is decoration on the layer lines: a coloured line, stripped of
/// its escape sequences, is the plain line, and the plain line holds no
/// escape.
pub proof fn law_layer_lines_color_is_decoration(
    id: Seq<char>,
    detail: Seq<char>,
    end: LayerEnd,
)
    ensures
        shows_as(layer_end_spec(true, id, end), layer_end_spec(false, id, end)),
        shows_as(layer_fail_spec(true, id, detail), layer_fail_spec(false, id, detail)),
{
    reveal_strlit("  ");
    let sid = sanitize_spec(id);
    let sd = sanitize_spec(detail);
    lemma_sanitized_no_esc(id);
    lemma_sanitized_no_esc(detail);
    lemma_literal_no_esc("  "@);
    lemma_literal_no_esc(seq![MIDDOT]);
    lemma_literal_no_esc(seq![BULLET]);
    lemma_literal_no_esc(seq![CROSS]);
    lemma_shows_plain("  "@);
    lemma_sep_shows();
    let m = crate::ui::MUTED;
    let o = crate::ui::OK;
    let p = crate::ui::PRIMARY;
    let d = crate::ui::DANGER;
    match end {
        LayerEnd::Reused => {
            lemma_paint_shows(true, m, seq![MIDDOT]);
            lemma_paint_shows(true, m, sid);
            lemma_shows_concat("  "@, "  "@, paint_spec(true, m, seq![MIDDOT]), seq![MIDDOT]);
            lemma_shows_concat("  "@ + paint_spec(true, m, seq![MIDDOT]), "  "@ + seq![MIDDOT], "  "@, "  "@);
            lemma_shows_concat(
                "  "@ + paint_spec(true, m, seq![MIDDOT]) + "  "@,
                "  "@ + seq![MIDDOT] + "  "@,
                paint_spec(true, m, sid),
                sid,
            );
        },
        LayerEnd::Snapped => {
            lemma_paint_shows(true, o, seq![BULLET]);
            lemma_paint_shows(true, p, sid);
            lemma_shows_concat("  "@, "  "@, paint_spec(true, o, seq![BULLET]), seq![BULLET]);
            lemma_shows_concat("  "@ + paint_spec(true, o, seq![BULLET]), "  "@ + seq![BULLET], "  "@, "  "@);
            lemma_shows_concat(
                "  "@ + paint_spec(true, o, seq![BULLET]) + "  "@,
                "  "@ + seq![BULLET] + "  "@,
                paint_spec(true, p, sid),
                sid,
            );
        },
    }
    lemma_paint_shows(true, d, seq![CROSS]);
    lemma_paint_shows(true, p, sid);
    lemma_paint_shows(true, d, sd);
    let c1 = "  "@ + paint_spec(true, d, seq![CROSS]);
    let p1 = "  "@ + seq![CROSS];
    lemma_shows_concat("  "@, "  "@, paint_spec(true, d, seq![CROSS]), seq![CROSS]);
    lemma_shows_concat(c1, p1, "  "@, "  "@);
    lemma_shows_concat(c1 + "  "@, p1 + "  "@, paint_spec(true, p, sid), sid);
    lemma_shows_concat(c1 + "  "@ + paint_spec(true, p, sid), p1 + "  "@ + sid, sep_spec(true), sep_spec(false));
    lemma_shows_concat(
        c1 + "  "@ + paint_spec(true, p, sid) + sep_spec(true),
        p1 + "  "@ + sid + sep_spec(false),
        paint_spec(true, d, sd),
        sd,
    );
}

/// Colour is decoration on the status lines: setting up, rebuild,
/// leftover, stop failed and fatal.
pub proof fn law_status_lines_color_is_decoration(
    target: Seq<char>,
    layers: nat,
    name: Seq<char>,
    err: Seq<char>,
)
    ensures
        shows_as(setup_spec(true, target), setup_spec(false, target)),
        shows_as(rebuild_spec(true, layers), rebuild_spec(false, layers)),
        shows_as(leftover_spec(true, name, err), leftover_spec(false, name, err)),
        shows_as(stop_failed_spec(true, err), stop_failed_spec(false, err)),
        shows_as(fatal_spec(true, err), fatal_spec(false, err)),
{
    reveal_strlit("  ");
    reveal_strlit("setting up ");
    reveal_strlit(" vm");
    reveal_strlit("rebuild");
    reveal_strlit(" layers");
    reveal_strlit("leftover");
    reveal_strlit("stop failed");
    reveal_strlit("wrap");
    let m = crate::ui::MUTED;
    let p = crate::ui::PRIMARY;
    let d = crate::ui::DANGER;
    let w = crate::ui::WARN;
    let st = sanitize_spec(target);
    let sn = sanitize_spec(name);
    let se = sanitize_spec(err);
    lemma_sanitized_no_esc(target);
    lemma_sanitized_no_esc(name);
    lemma_sanitized_no_esc(err);
    lemma_literal_no_esc("  "@);
    lemma_literal_no_esc("setting up "@);
    lemma_literal_no_esc(" vm"@);
    lemma_literal_no_esc("rebuild"@);
    lemma_literal_no_esc(" layers"@);
    lemma_literal_no_esc("leftover"@);
    lemma_literal_no_esc("stop failed"@);
    lemma_literal_no_esc("wrap"@);
    lemma_decimal_digits(layers);
    lemma_literal_no_esc(decimal(layers));
    lemma_shows_plain("  "@);
    lemma_sep_shows();
    // setting up
    lemma_no_esc_concat("setting up "@, st);
    lemma_no_esc_concat("setting up "@ + st, " vm"@);
    lemma_paint_shows(true, p, "setting up "@ + st + " vm"@);
    // rebuild
    lemma_no_esc_concat(decimal(layers), " layers"@);
    lemma_paint_shows(true, w, "rebuild"@);
    lemma_paint_shows(true, m, decimal(layers) + " layers"@);
    lemma_shows_concat("  "@, "  "@, paint_spec(true, w, "rebuild"@), "rebuild"@);
    lemma_shows_concat("  "@ + paint_spec(true, w, "rebuild"@), "  "@ + "rebuild"@, "  "@, "  "@);
    lemma_shows_concat(
        "  "@ + paint_spec(true, w, "rebuild"@) + "  "@,
        "  "@ + "rebuild"@ + "  "@,
        paint_spec(true, m, decimal(layers) + " layers"@),
        decimal(layers) + " layers"@,
    );
    // leftover
    lemma_paint_shows(true, m, "leftover"@);
    lemma_paint_shows(true, p, sn);
    lemma_paint_shows(true, m, se);
    let l1 = "  "@ + paint_spec(true, m, "leftover"@);
    let q1 = "  "@ + "leftover"@;
    lemma_shows_concat("  "@, "  "@, paint_spec(true, m, "leftover"@), "leftover"@);
    lemma_shows_concat(l1, q1, "  "@, "  "@);
    lemma_shows_concat(l1 + "  "@, q1 + "  "@, paint_spec(true, p, sn), sn);
    lemma_shows_concat(l1 + "  "@ + paint_spec(true, p, sn), q1 + "  "@ + sn, sep_spec(true), sep_spec(false));
    lemma_shows_concat(
        l1 + "  "@ + paint_spec(true, p, sn) + sep_spec(true),
        q1 + "  "@ + sn + sep_spec(false),
        paint_spec(true, m, se),
        se,
    );
    // stop failed
    lemma_paint_shows(true, d, "stop failed"@);
    let s1 = "  "@ + paint_spec(true, d, "stop failed"@);
    let r1 = "  "@ + "stop failed"@;
    lemma_shows_concat("  "@, "  "@, paint_spec(true, d, "stop failed"@), "stop failed"@);
    lemma_shows_concat(s1, r1, sep_spec(true), sep_spec(false));
    lemma_shows_concat(s1 + sep_spec(true), r1 + sep_spec(false), paint_spec(true, m, se), se);
    // fatal
    lemma_paint_shows(true, d, "wrap"@);
    lemma_paint_shows(true, p, se);
    lemma_shows_concat(paint_spec(true, d, "wrap"@), "wrap"@, "  "@, "  "@);
    lemma_shows_concat(paint_spec(true, d, "wrap"@) + "  "@, "wrap"@ + "  "@, paint_spec(true, p, se), se);
}

proof fn lemma_resources_no_esc(cpus: u8, memory: u32, memory_max: u32)
    ensures
        !resources_spec(cpus, memory, memory_max).contains(ESC),
{
    reveal_strlit(" CPU ");
    reveal_strlit(" ");
    reveal_strlit(" GiB");
    reveal_strlit(" MiB");
    let r = resources_spec(cpus, memory, memory_max);
    lemma_decimal_digits(cpus as nat);
    lemma_decimal_digits(memory as nat);
    lemma_decimal_digits(memory_max as nat);
    lemma_decimal_digits((memory / 1024) as nat);
    lemma_decimal_digits((memory_max / 1024) as nat);
    assert forall|i: int| 0 <= i < r.len() implies #[trigger] r[i] != ESC by {
        if r[i] == ESC {
            assert(r.contains(ESC));
        }
    }
    if r.contains(ESC) {
        let k = choose|k: int| 0 <= k < r.len() && r[k] == ESC;
        let d = decimal(cpus as nat) + " CPU "@ + seq![MIDDOT] + " "@;
        if k < decimal(cpus as nat).len() {
            assert(r[k] == decimal(cpus as nat)[k]);
        } else if k < d.len() {
            assert(r[k] == d[k]);
        } else {
            let mem = r.skip(d.len() as int);
            assert(r =~= d + mem);
            assert(r[k] == mem[k - d.len()]);
            let j = k - d.len();
            if memory == memory_max {
                if memory % 1024 == 0 {
                    let a = decimal((memory / 1024) as nat);
                    if j < a.len() {
                        assert(mem[j] == a[j]);
                    }
                } else {
                    let a = decimal(memory as nat);
                    if j < a.len() {
                        assert(mem[j] == a[j]);
                    }
                }
            } else if memory % 1024 == 0 && memory_max % 1024 == 0 {
                let a = decimal((memory / 1024) as nat);
                let b = decimal((memory_max / 1024) as nat);
                if j < a.len() {
                    assert(mem[j] == a[j]);
                } else if j == a.len() {
                } else if j < a.len() + 1 + b.len() {
                    assert(mem[j] == b[j - a.len() - 1]);
                }
            } else {
                let a = decimal(memory as nat);
                let b = decimal(memory_max as nat);
                if j < a.len() {
                    assert(mem[j] == a[j]);
                } else if j == a.len() {
                } else if j < a.len() + 1 + b.len() {
                    assert(mem[j] == b[j - a.len() - 1]);
                }
            }
        }
    }
}

proof fn lemma_render_shows(
    h: Seq<char>,
    w: Seq<char>,
    k: Option<Seq<char>>,
    r: Option<Seq<char>>,
)
    requires
        !h.contains(ESC),
        !w.contains(ESC),
        k matches Some(x) ==> !x.contains(ESC),
        r matches Some(x) ==> !x.contains(ESC),
    ensures
        shows_as(render_crossing_spec(true, h, w, k, r), render_crossing_spec(false, h, w, k, r)),
{
    reveal_strlit(" ");
    reveal_strlit("vm:");
    let m = crate::ui::MUTED;
    let p = crate::ui::PRIMARY;
    let a = crate::ui::ACCENT;
    let v = crate::ui::VM;
    lemma_literal_no_esc(" "@);
    lemma_literal_no_esc("vm:"@);
    lemma_literal_no_esc(seq![ARROW]);
    lemma_shows_plain(" "@);
    lemma_sep_shows();
    lemma_paint_shows(true, a, h);
    lemma_paint_shows(true, m, seq![ARROW]);
    lemma_paint_shows(true, v, "vm:"@);
    lemma_paint_shows(true, p, w);
    let c1 = paint_spec(true, a, h) + " "@;
    let p1 = h + " "@;
    lemma_shows_concat(paint_spec(true, a, h), h, " "@, " "@);
    lemma_shows_concat(c1, p1, paint_spec(true, m, seq![ARROW]), seq![ARROW]);
    let c2 = c1 + paint_spec(true, m, seq![ARROW]) + " "@;
    let p2 = p1 + seq![ARROW] + " "@;
    lemma_shows_concat(c1 + paint_spec(true, m, seq![ARROW]), p1 + seq![ARROW], " "@, " "@);
    lemma_shows_concat(c2, p2, paint_spec(true, v, "vm:"@), "vm:"@);
    let c3 = c2 + paint_spec(true, v, "vm:"@) + paint_spec(true, p, w);
    let p3 = p2 + "vm:"@ + w;
    lemma_shows_concat(c2 + paint_spec(true, v, "vm:"@), p2 + "vm:"@, paint_spec(true, p, w), w);
    let (c4, p4) = match k {
        Some(x) => {
            lemma_paint_shows(true, m, x);
            lemma_shows_concat(c3, p3, sep_spec(true), sep_spec(false));
            lemma_shows_concat(c3 + sep_spec(true), p3 + sep_spec(false), paint_spec(true, m, x), x);
            (c3 + sep_spec(true) + paint_spec(true, m, x), p3 + sep_spec(false) + x)
        },
        None => (c3, p3),
    };
    match r {
        Some(x) => {
            lemma_paint_shows(true, p, x);
            lemma_shows_concat(c4, p4, sep_spec(true), sep_spec(false));
            lemma_shows_concat(c4 + sep_spec(true), p4 + sep_spec(false), paint_spec(true, p, x), x);
        },
        None => {},
    }
}

/// Colour is decoration on the crossing line, whatever the width.
pub proof fn law_crossing_color_is_decoration(
    width: nat,
    host: Seq<char>,
    workspace: Seq<char>,
    kind: CrossingKind,
    cpus: u8,
    memory: u32,
    memory_max: u32,
)
    ensures
        shows_as(
            crossing_spec(true, width, host, workspace, kind, cpus, memory, memory_max),
            crossing_spec(false, width, host, workspace, kind, cpus, memory, memory_max),
        ),
{
    reveal_strlit("new");
    reveal_strlit("reused");
    reveal_strlit("reset");
    let h = sanitize_spec(host);
    let w = sanitize_spec(workspace);
    lemma_sanitized_no_esc(host);
    lemma_sanitized_no_esc(workspace);
    let k = kind_label(kind);
    lemma_literal_no_esc(k);
    let r = resources_spec(cpus, memory, memory_max);
    lemma_resources_no_esc(cpus, memory, memory_max);
    let wd = max_nat(width, MIN_WIDTH as nat);
    let base = width_spec(h) + 6 + width_spec(w);
    if base <= wd {
        lemma_render_shows(h, w, Some(k), Some(r));
        lemma_render_shows(h, w, None, Some(r));
        lemma_render_shows(h, w, Some(k), None);
        lemma_render_shows(h, w, None, None);
    } else {
        let budget = (wd - 6) as nat;
        let hb = max_nat(budget / 3, 2);
        let wb = max_nat(
            if budget >= hb {
                (budget - hb) as nat
            } else {
                0
            },
            2,
        );
        lemma_truncate_clean(h, hb);
        lemma_truncate_clean(w, wb);
        lemma_render_shows(truncate_spec(h, hb), truncate_spec(w, wb), None, None);
    }
}

proof fn lemma_literal_width(s: Seq<char>)
    requires
        forall|i: int| 0 <= i < s.len() ==> #[trigger] char_width_spec(s[i]) == 1,
    ensures
        width_spec(s) == s.len(),
    decreases s.len(),
{
    if s.len() > 0 {
        assert(char_width_spec(s[s.len() - 1]) == 1);
        lemma_literal_width(s.drop_last());
    }
}

proof fn lemma_render_width(
    h: Seq<char>,
    w: Seq<char>,
    k: Option<Seq<char>>,
    r: Option<Seq<char>>,
)
    ensures
        width_spec(render_crossing_spec(false, h, w, k, r)) == width_spec(h) + 6 + width_spec(w)
            + (match k {
            Some(x) => 5 + width_spec(x),
            None => 0,
        }) + (match r {
            Some(x) => 5 + width_spec(x),
            None => 0,
        }),
{
    reveal_strlit(" ");
    reveal_strlit("vm:");
    reveal_strlit("  ");
    let mid = " "@ + seq![ARROW] + " "@ + "vm:"@;
    assert(char_width_spec(ARROW) == 1);
    assert(char_width_spec(MIDDOT) == 1);
    assert(mid.len() == 6);
    lemma_literal_width(mid);
    let sep = "  "@ + seq![MIDDOT] + "  "@;
    assert(sep =~= sep_spec(false));
    lemma_literal_width(sep);
    let base = h + " "@ + seq![ARROW] + " "@ + "vm:"@ + w;
    assert(base =~= h + mid + w);
    lemma_width_concat(h, mid);
    lemma_width_concat(h + mid, w);
    let with_k = match k {
        Some(x) => {
            lemma_width_concat(base, sep);
            lemma_width_concat(base + sep, x);
            base + sep_spec(false) + x
        },
        None => base,
    };
    match r {
        Some(x) => {
            lemma_width_concat(with_k, sep);
            lemma_width_concat(with_k + sep, x);
        },
        None => {},
    }
}

/// The plain crossing line fits the terminal: never wider than `width`
/// cells, or 20 where the terminal is narrower.
pub proof fn law_crossing_fits(
    width: nat,
    host: Seq<char>,
    workspace: Seq<char>,
    kind: CrossingKind,
    cpus: u8,
    memory: u32,
    memory_max: u32,
)
    ensures
        width_spec(crossing_spec(false, width, host, workspace, kind, cpus, memory, memory_max))
            <= max_nat(width, MIN_WIDTH as nat),
{
    let h = sanitize_spec(host);
    let w = sanitize_spec(workspace);
    let k = kind_label(kind);
    let r = resources_spec(cpus, memory, memory_max);
    let wd = max_nat(width, MIN_WIDTH as nat);
    let base = width_spec(h) + 6 + width_spec(w);
    if base <= wd {
        lemma_render_width(h, w, Some(k), Some(r));
        lemma_render_width(h, w, None, Some(r));
        lemma_render_width(h, w, Some(k), None);
        lemma_render_width(h, w, None, None);
    } else {
        let budget = (wd - 6) as nat;
        let hb = max_nat(budget / 3, 2);
        let wb = max_nat(
            if budget >= hb {
                (budget - hb) as nat
            } else {
                0
            },
            2,
        );
        law_truncate_fits(h, hb);
        law_truncate_fits(w, wb);
        lemma_render_width(truncate_spec(h, hb), truncate_spec(w, wb), None, None);
    }
}

/// Colour is decoration on the live line, for any spinner character but
/// ESC.
pub proof fn law_live_line_color_is_decoration(
    width: nat,
    id: Seq<char>,
    spin: char,
    phase: Seq<char>,
)
    requires
        spin != ESC,
    ensures
        shows_as(live_line_spec(true, width, id, spin, phase), live_line_spec(false, width, id, spin, phase)),
{
    reveal_strlit("  ");
    reveal_strlit(" ");
    let m = crate::ui::MUTED;
    let p = crate::ui::PRIMARY;
    let v = crate::ui::VM;
    let sid = sanitize_spec(id);
    let sph = sanitize_spec(phase);
    lemma_sanitized_no_esc(id);
    lemma_sanitized_no_esc(phase);
    lemma_literal_no_esc("  "@);
    lemma_literal_no_esc(" "@);
    lemma_literal_no_esc(seq![spin]);
    lemma_shows_plain("  "@);
    lemma_shows_plain(" "@);
    lemma_paint_shows(true, m, seq![spin]);
    lemma_paint_shows(true, v, seq![spin]);
    assert(shows_as(spin_mark_spec(true, spin), spin_mark_spec(false, spin)));
    let hc = "  "@ + spin_mark_spec(true, spin) + " "@;
    let hp = "  "@ + spin_mark_spec(false, spin) + " "@;
    lemma_shows_concat("  "@, "  "@, spin_mark_spec(true, spin), spin_mark_spec(false, spin));
    lemma_shows_concat("  "@ + spin_mark_spec(true, spin), "  "@ + spin_mark_spec(false, spin), " "@, " "@);
    let wd = max_nat(width, MIN_WIDTH as nat);
    lemma_truncate_clean(sid, (wd - 4) as nat);
    lemma_paint_shows(true, p, truncate_spec(sid, (wd - 4) as nat));
    lemma_shows_concat(hc, hp, paint_spec(true, p, truncate_spec(sid, (wd - 4) as nat)), truncate_spec(sid, (wd - 4) as nat));
    lemma_paint_shows(true, p, sid);
    lemma_shows_concat(hc, hp, paint_spec(true, p, sid), sid);
    let prefix_w = width_spec("  "@ + seq![spin] + " "@ + sid);
    if prefix_w < wd && sph.len() > 0 && wd >= prefix_w + 2 + 2 {
        let t = truncate_spec(sph, (wd - (prefix_w + 2)) as nat);
        lemma_truncate_clean(sph, (wd - (prefix_w + 2)) as nat);
        lemma_paint_shows(true, m, t);
        lemma_shows_concat(hc + paint_spec(true, p, sid), hp + sid, "  "@, "  "@);
        lemma_shows_concat(hc + paint_spec(true, p, sid) + "  "@, hp + sid + "  "@, paint_spec(true, m, t), t);
    }
}

/// The plain live line fits the terminal when the spinner takes at most
/// one cell.
pub proof fn law_live_line_fits(width: nat, id: Seq<char>, spin: char, phase: Seq<char>)
    requires
        char_width_spec(spin) <= 1,
    ensures
        width_spec(live_line_spec(false, width, id, spin, phase)) <= max_nat(width, MIN_WIDTH as nat),
{
    reveal_strlit("  ");
    reveal_strlit(" ");
    let sid = sanitize_spec(id);
    let sph = sanitize_spec(phase);
    let wd = max_nat(width, MIN_WIDTH as nat);
    let head = "  "@ + seq![spin] + " "@;
    assert(spin_mark_spec(false, spin) == seq![spin]);
    assert(head =~= "  "@ + spin_mark_spec(false, spin) + " "@);
    lemma_literal_width("  "@);
    lemma_literal_width(" "@);
    lemma_width_single(spin);
    lemma_width_concat("  "@, seq![spin]);
    lemma_width_concat("  "@ + seq![spin], " "@);
    lemma_width_concat(head, sid);
    let prefix_w = width_spec(head + sid);
    if prefix_w >= wd {
        let t = truncate_spec(sid, (wd - 4) as nat);
        law_truncate_fits(sid, (wd - 4) as nat);
        lemma_width_concat(head, t);
    } else if sph.len() > 0 && wd >= prefix_w + 2 + 2 {
        let t = truncate_spec(sph, (wd - (prefix_w + 2)) as nat);
        law_truncate_fits(sph, (wd - (prefix_w + 2)) as nat);
        lemma_width_concat(head + sid, "  "@);
        lemma_width_concat(head + sid + "  "@, t);
    }
}

/// A tail row of the live region shows as its plain form and fits the
/// terminal.
pub proof fn law_live_tail(width: nat, line: Seq<char>)
    requires
        is_clean(line),
    ensures
        shows_as(live_tail_spec(true, width, line), live_tail_spec(false, width, line)),
        width_spec(live_tail_spec(false, width, line)) <= max_nat(width, MIN_WIDTH as nat),
{
    reveal_strlit("    ");
    let wd = max_nat(width, MIN_WIDTH as nat);
    let t = truncate_spec(line, (wd - 4) as nat);
    lemma_truncate_clean(line, (wd - 4) as nat);
    lemma_literal_no_esc("    "@);
    lemma_shows_plain("    "@);
    lemma_paint_shows(true, crate::ui::MUTED, t);
    lemma_shows_concat("    "@, "    "@, paint_spec(true, crate::ui::MUTED, t), t);
    law_truncate_fits(line, (wd - 4) as nat);
    lemma_literal_width("    "@);
    lemma_width_concat("    "@, t);
}

} // verus!
