//! The pre-entry surface: themed status lines, the host → vm crossing line
//! and the live region shown while a layer builds.
//!
//! Everything here computes text; the caller writes it to the terminal.

use vstd::prelude::*;
use crate::ansi::{
    bounded_width, chars_width, is_clean, lemma_width_bound, sanitize_chars,
    sanitize_spec, truncate_chars, truncate_spec, width_spec, law_sanitize_idempotent,
};
use crate::text::{
    chars_of, decimal, push_chars, push_decimal, push_str, string_from_chars,
};

verus! {

pub const PRIMARY: u32 = 0xeceff1;
pub const MUTED: u32 = 0x78909c;
pub const ACCENT: u32 = 0x4fc3f7;
pub const VM: u32 = 0xc4a7e7;
pub const OK: u32 = 0x81c784;
pub const WARN: u32 = 0xf78c6c;
pub const DANGER: u32 = 0xef5350;

pub const MIN_WIDTH: usize = 20;
pub const DEFAULT_WIDTH: usize = 80;
pub const HISTORY_CAP: usize = 48;
pub const LIVE_TAIL_ROWS: usize = 4;
pub const LIVE_ROWS: usize = 5;
/// Milliseconds before the spinner starts turning.
pub const SPIN_DELAY_MS: u64 = 150;
/// Milliseconds between two spinner frames.
pub const SPIN_EVERY_MS: u64 = 90;

pub const MIDDOT: char = '\u{b7}';
pub const ARROW: char = '\u{2192}';
pub const EN_DASH: char = '\u{2013}';
pub const BULLET: char = '\u{25cf}';
pub const CROSS: char = '\u{d7}';

/// Colour on or off; every token paints with a fixed 24-bit colour.
#[derive(Clone, Copy, Debug)]
pub struct Theme {
    pub color: bool,
}

/// What the environment says about colour on stderr.
#[derive(Clone, Debug)]
pub struct ColorEnv {
    /// `NO_COLOR` is set to a non-empty value.
    pub no_color: bool,
    /// The value of `CLICOLOR`, when set and valid Unicode.
    pub clicolor: Option<String>,
    /// The value of `CLICOLOR_FORCE`, when set and valid Unicode.
    pub clicolor_force: Option<String>,
    /// stderr is a terminal.
    pub stderr_terminal: bool,
}

pub open spec fn color_enabled_spec(env: ColorEnv) -> bool {
    if env.no_color || (env.clicolor matches Some(v) && v@ == "0"@) {
        false
    } else if env.clicolor_force matches Some(v) && v@ == "1"@ {
        true
    } else {
        env.stderr_terminal
    }
}

fn option_is(v: &Option<String>, want: &str) -> (r: bool)
    ensures
        r == (v matches Some(s) && s@ == want@),
{
    match v {
        Some(s) => crate::text::text_eq(s.as_str(), want),
        None => false,
    }
}

/// Colour is off under `NO_COLOR` or `CLICOLOR=0`, forced on by
/// `CLICOLOR_FORCE=1`, and otherwise on exactly when stderr is a terminal.
pub fn color_enabled(env: &ColorEnv) -> (b: bool)
    ensures
        b == color_enabled_spec(*env),
{
    if env.no_color || option_is(&env.clicolor, "0") {
        return false;
    }
    if option_is(&env.clicolor_force, "1") {
        return true;
    }
    env.stderr_terminal
}

// ---------------------------------------------------------------------------
// Painting
// ---------------------------------------------------------------------------

/// The SGR sequence that selects the 24-bit foreground colour `hex`.
pub open spec fn sgr(hex: u32) -> Seq<char> {
    "\x1b[38;2;"@ + decimal(((hex >> 16u32) & 0xffu32) as nat) + ";"@ + decimal(
        ((hex >> 8u32) & 0xffu32) as nat,
    ) + ";"@ + decimal((hex & 0xffu32) as nat) + "m"@
}

/// `text` in colour `hex`, or `text` itself without colour or when empty.
pub open spec fn paint_spec(color: bool, hex: u32, text: Seq<char>) -> Seq<char> {
    if !color || text.len() == 0 {
        text
    } else {
        sgr(hex) + text + "\x1b[0m"@
    }
}

fn push_paint(out: &mut Vec<char>, color: bool, hex: u32, text: &[char])
    ensures
        final(out)@ == old(out)@ + paint_spec(color, hex, text@),
{
    if !color || text.len() == 0 {
        push_chars(out, text);
        return;
    }
    let ghost start = out@;
    push_str(out, "\x1b[38;2;");
    push_decimal(out, ((hex >> 16u32) & 0xffu32) as u64);
    push_str(out, ";");
    push_decimal(out, ((hex >> 8u32) & 0xffu32) as u64);
    push_str(out, ";");
    push_decimal(out, (hex & 0xffu32) as u64);
    push_str(out, "m");
    push_chars(out, text);
    push_str(out, "\x1b[0m");
    assert(out@ =~= start + paint_spec(color, hex, text@));
}

fn push_paint_char(out: &mut Vec<char>, color: bool, hex: u32, c: char)
    ensures
        final(out)@ == old(out)@ + paint_spec(color, hex, seq![c]),
{
    let mut one: Vec<char> = Vec::new();
    one.push(c);
    assert(one@ =~= seq![c]);
    push_paint(out, color, hex, &one);
}

fn push_paint_str(out: &mut Vec<char>, color: bool, hex: u32, text: &str)
    ensures
        final(out)@ == old(out)@ + paint_spec(color, hex, text@),
{
    let v = chars_of(text);
    push_paint(out, color, hex, &v);
}

/// Text in one of the palette's colours.
fn painted(color: bool, hex: u32, text: &str) -> (s: String)
    ensures
        s@ == paint_spec(color, hex, text@),
{
    let mut out: Vec<char> = Vec::new();
    push_paint_str(&mut out, color, hex, text);
    assert(out@ =~= paint_spec(color, hex, text@));
    string_from_chars(&out)
}

impl Theme {
    /// The theme that the environment asks for.
    pub fn detect(env: &ColorEnv) -> (t: Theme)
        ensures
            t.color == color_enabled_spec(*env),
    {
        Theme { color: color_enabled(env) }
    }

    /// `text` wrapped in the 24-bit colour `hex` and a reset; unchanged
    /// without colour or when empty.
    pub fn paint(self, hex: u32, text: &str) -> (s: String)
        ensures
            s@ == paint_spec(self.color, hex, text@),
    {
        painted(self.color, hex, text)
    }

    pub fn primary(self, text: &str) -> (s: String)
        ensures
            s@ == paint_spec(self.color, PRIMARY, text@),
    {
        painted(self.color, PRIMARY, text)
    }

    pub fn muted(self, text: &str) -> (s: String)
        ensures
            s@ == paint_spec(self.color, MUTED, text@),
    {
        painted(self.color, MUTED, text)
    }

    pub fn accent(self, text: &str) -> (s: String)
        ensures
            s@ == paint_spec(self.color, ACCENT, text@),
    {
        painted(self.color, ACCENT, text)
    }

    pub fn vm(self, text: &str) -> (s: String)
        ensures
            s@ == paint_spec(self.color, VM, text@),
    {
        painted(self.color, VM, text)
    }

    pub fn ok(self, text: &str) -> (s: String)
        ensures
            s@ == paint_spec(self.color, OK, text@),
    {
        painted(self.color, OK, text)
    }

    pub fn warn(self, text: &str) -> (s: String)
        ensures
            s@ == paint_spec(self.color, WARN, text@),
    {
        painted(self.color, WARN, text)
    }

    pub fn danger(self, text: &str) -> (s: String)
        ensures
            s@ == paint_spec(self.color, DANGER, text@),
    {
        painted(self.color, DANGER, text)
    }
}

// ---------------------------------------------------------------------------
// Session kinds and layer ends
// ---------------------------------------------------------------------------

#[derive(Clone, Copy, Debug, PartialEq, Eq, Structural)]
pub enum CrossingKind {
    New,
    Reused,
    Reset,
}

pub open spec fn kind_label(kind: CrossingKind) -> Seq<char> {
    match kind {
        CrossingKind::New => "new"@,
        CrossingKind::Reused => "reused"@,
        CrossingKind::Reset => "reset"@,
    }
}

impl CrossingKind {
    pub fn label(self) -> (s: &'static str)
        ensures
            s@ == kind_label(self),
    {
        match self {
            CrossingKind::New => "new",
            CrossingKind::Reused => "reused",
            CrossingKind::Reset => "reset",
        }
    }
}

#[derive(Clone, Copy, Debug, PartialEq, Eq, Structural)]
pub enum LayerEnd {
    Reused,
    Snapped,
}

// ---------------------------------------------------------------------------
// Status lines
// ---------------------------------------------------------------------------

pub open spec fn sep_spec(color: bool) -> Seq<char> {
    "  "@ + paint_spec(color, MUTED, seq![MIDDOT]) + "  "@
}

fn push_sep(out: &mut Vec<char>, color: bool)
    ensures
        final(out)@ == old(out)@ + sep_spec(color),
{
    let ghost start = out@;
    push_str(out, "  ");
    push_paint_char(out, color, MUTED, MIDDOT);
    push_str(out, "  ");
    assert(out@ =~= start + sep_spec(color));
}

pub open spec fn layer_end_spec(color: bool, id: Seq<char>, end: LayerEnd) -> Seq<char> {
    let id = sanitize_spec(id);
    match end {
        LayerEnd::Reused => "  "@ + paint_spec(color, MUTED, seq![MIDDOT]) + "  "@ + paint_spec(
            color,
            MUTED,
            id,
        ),
        LayerEnd::Snapped => "  "@ + paint_spec(color, OK, seq![BULLET]) + "  "@ + paint_spec(
            color,
            PRIMARY,
            id,
        ),
    }
}

/// `  ·  id` for a reused layer, `  ●  id` for a freshly snapshotted one.
pub fn format_layer_end(theme: Theme, id: &str, end: LayerEnd) -> (s: String)
    ensures
        s@ == layer_end_spec(theme.color, id@, end),
{
    let raw = chars_of(id);
    let id = sanitize_chars(&raw);
    let mut out: Vec<char> = Vec::new();
    push_str(&mut out, "  ");
    match end {
        LayerEnd::Reused => {
            push_paint_char(&mut out, theme.color, MUTED, MIDDOT);
            push_str(&mut out, "  ");
            push_paint(&mut out, theme.color, MUTED, &id);
        },
        LayerEnd::Snapped => {
            push_paint_char(&mut out, theme.color, OK, BULLET);
            push_str(&mut out, "  ");
            push_paint(&mut out, theme.color, PRIMARY, &id);
        },
    }
    assert(out@ =~= layer_end_spec(theme.color, raw@, end));
    string_from_chars(&out)
}

pub open spec fn layer_fail_spec(color: bool, id: Seq<char>, detail: Seq<char>) -> Seq<char> {
    "  "@ + paint_spec(color, DANGER, seq![CROSS]) + "  "@ + paint_spec(
        color,
        PRIMARY,
        sanitize_spec(id),
    ) + sep_spec(color) + paint_spec(color, DANGER, sanitize_spec(detail))
}

/// `  ×  id  ·  detail`.
pub fn format_layer_fail(theme: Theme, id: &str, detail: &str) -> (s: String)
    ensures
        s@ == layer_fail_spec(theme.color, id@, detail@),
{
    let raw_id = chars_of(id);
    let raw_detail = chars_of(detail);
    let id = sanitize_chars(&raw_id);
    let detail = sanitize_chars(&raw_detail);
    let mut out: Vec<char> = Vec::new();
    push_str(&mut out, "  ");
    push_paint_char(&mut out, theme.color, DANGER, CROSS);
    push_str(&mut out, "  ");
    push_paint(&mut out, theme.color, PRIMARY, &id);
    push_sep(&mut out, theme.color);
    push_paint(&mut out, theme.color, DANGER, &detail);
    assert(out@ =~= layer_fail_spec(theme.color, raw_id@, raw_detail@));
    string_from_chars(&out)
}

pub open spec fn setup_spec(color: bool, target: Seq<char>) -> Seq<char> {
    paint_spec(color, PRIMARY, "setting up "@ + sanitize_spec(target) + " vm"@)
}

/// `setting up <target> vm`.
pub fn format_setup(theme: Theme, target: &str) -> (s: String)
    ensures
        s@ == setup_spec(theme.color, target@),
{
    let raw = chars_of(target);
    let clean = sanitize_chars(&raw);
    let mut text: Vec<char> = Vec::new();
    push_str(&mut text, "setting up ");
    push_chars(&mut text, &clean);
    push_str(&mut text, " vm");
    let mut out: Vec<char> = Vec::new();
    push_paint(&mut out, theme.color, PRIMARY, &text);
    assert(out@ =~= setup_spec(theme.color, target@));
    string_from_chars(&out)
}

pub open spec fn rebuild_spec(color: bool, layers: nat) -> Seq<char> {
    "  "@ + paint_spec(color, WARN, "rebuild"@) + "  "@ + paint_spec(
        color,
        MUTED,
        decimal(layers) + " layers"@,
    )
}

/// `  rebuild  N layers`.
pub fn format_rebuild(theme: Theme, layers: usize) -> (s: String)
    ensures
        s@ == rebuild_spec(theme.color, layers as nat),
{
    let mut out: Vec<char> = Vec::new();
    push_str(&mut out, "  ");
    push_paint_str(&mut out, theme.color, WARN, "rebuild");
    push_str(&mut out, "  ");
    let mut text: Vec<char> = Vec::new();
    push_decimal(&mut text, layers as u64);
    push_str(&mut text, " layers");
    push_paint(&mut out, theme.color, MUTED, &text);
    assert(out@ =~= rebuild_spec(theme.color, layers as nat));
    string_from_chars(&out)
}

pub open spec fn leftover_spec(color: bool, name: Seq<char>, err: Seq<char>) -> Seq<char> {
    "  "@ + paint_spec(color, MUTED, "leftover"@) + "  "@ + paint_spec(
        color,
        PRIMARY,
        sanitize_spec(name),
    ) + sep_spec(color) + paint_spec(color, MUTED, sanitize_spec(err))
}

/// `  leftover  name  ·  err`.
pub fn format_leftover(theme: Theme, name: &str, err: &str) -> (s: String)
    ensures
        s@ == leftover_spec(theme.color, name@, err@),
{
    let raw_name = chars_of(name);
    let raw_err = chars_of(err);
    let name = sanitize_chars(&raw_name);
    let err = sanitize_chars(&raw_err);
    let mut out: Vec<char> = Vec::new();
    push_str(&mut out, "  ");
    push_paint_str(&mut out, theme.color, MUTED, "leftover");
    push_str(&mut out, "  ");
    push_paint(&mut out, theme.color, PRIMARY, &name);
    push_sep(&mut out, theme.color);
    push_paint(&mut out, theme.color, MUTED, &err);
    assert(out@ =~= leftover_spec(theme.color, raw_name@, raw_err@));
    string_from_chars(&out)
}

pub open spec fn stop_failed_spec(color: bool, err: Seq<char>) -> Seq<char> {
    "  "@ + paint_spec(color, DANGER, "stop failed"@) + sep_spec(color) + paint_spec(
        color,
        MUTED,
        sanitize_spec(err),
    )
}

/// `  stop failed  ·  err`.
pub fn format_stop_failed(theme: Theme, err: &str) -> (s: String)
    ensures
        s@ == stop_failed_spec(theme.color, err@),
{
    let raw = chars_of(err);
    let err = sanitize_chars(&raw);
    let mut out: Vec<char> = Vec::new();
    push_str(&mut out, "  ");
    push_paint_str(&mut out, theme.color, DANGER, "stop failed");
    push_sep(&mut out, theme.color);
    push_paint(&mut out, theme.color, MUTED, &err);
    assert(out@ =~= stop_failed_spec(theme.color, raw@));
    string_from_chars(&out)
}

pub open spec fn fatal_spec(color: bool, err: Seq<char>) -> Seq<char> {
    paint_spec(color, DANGER, "wrap"@) + "  "@ + paint_spec(color, PRIMARY, sanitize_spec(err))
}

/// `wrap  err`.
pub fn format_fatal(theme: Theme, err: &str) -> (s: String)
    ensures
        s@ == fatal_spec(theme.color, err@),
{
    let raw = chars_of(err);
    let err = sanitize_chars(&raw);
    let mut out: Vec<char> = Vec::new();
    push_paint_str(&mut out, theme.color, DANGER, "wrap");
    push_str(&mut out, "  ");
    push_paint(&mut out, theme.color, PRIMARY, &err);
    assert(out@ =~= fatal_spec(theme.color, raw@));
    string_from_chars(&out)
}

// ---------------------------------------------------------------------------
// The crossing line
// ---------------------------------------------------------------------------

pub open spec fn memory_spec(mib: u32) -> Seq<char> {
    if mib % 1024 == 0 {
        decimal((mib / 1024) as nat) + " GiB"@
    } else {
        decimal(mib as nat) + " MiB"@
    }
}

/// `N CPU · memory`, where memory is one size or a boot–ceiling range.
pub open spec fn resources_spec(cpus: u8, memory: u32, memory_max: u32) -> Seq<char> {
    let mem = if memory == memory_max {
        memory_spec(memory)
    } else if memory % 1024 == 0 && memory_max % 1024 == 0 {
        decimal((memory / 1024) as nat) + seq![EN_DASH] + decimal((memory_max / 1024) as nat)
            + " GiB"@
    } else {
        decimal(memory as nat) + seq![EN_DASH] + decimal(memory_max as nat) + " MiB"@
    };
    decimal(cpus as nat) + " CPU "@ + seq![MIDDOT] + " "@ + mem
}

fn push_memory(out: &mut Vec<char>, mib: u32)
    ensures
        final(out)@ == old(out)@ + memory_spec(mib),
{
    let ghost start = out@;
    if mib % 1024 == 0 {
        push_decimal(out, (mib / 1024) as u64);
        push_str(out, " GiB");
    } else {
        push_decimal(out, mib as u64);
        push_str(out, " MiB");
    }
    assert(out@ =~= start + memory_spec(mib));
}

fn format_resources(cpus: u8, memory: u32, memory_max: u32) -> (out: Vec<char>)
    ensures
        out@ == resources_spec(cpus, memory, memory_max),
        out@.len() <= 64,
{
    let mut out: Vec<char> = Vec::new();
    push_decimal(&mut out, cpus as u64);
    push_str(&mut out, " CPU ");
    out.push(MIDDOT);
    push_str(&mut out, " ");
    if memory == memory_max {
        push_memory(&mut out, memory);
    } else if memory % 1024 == 0 && memory_max % 1024 == 0 {
        push_decimal(&mut out, (memory / 1024) as u64);
        out.push(EN_DASH);
        push_decimal(&mut out, (memory_max / 1024) as u64);
        push_str(&mut out, " GiB");
    } else {
        push_decimal(&mut out, memory as u64);
        out.push(EN_DASH);
        push_decimal(&mut out, memory_max as u64);
        push_str(&mut out, " MiB");
    }
    proof {
        reveal_strlit(" CPU ");
        reveal_strlit(" ");
        reveal_strlit(" GiB");
        reveal_strlit(" MiB");
        lemma_decimal_len(cpus as nat);
        lemma_decimal_len(memory as nat);
        lemma_decimal_len(memory_max as nat);
        lemma_decimal_len((memory / 1024) as nat);
        lemma_decimal_len((memory_max / 1024) as nat);
    }
    assert(out@ =~= resources_spec(cpus, memory, memory_max));
    out
}

/// A decimal numeral of a 32-bit number has at most ten digits.
pub proof fn lemma_decimal_len(n: nat)
    requires
        n <= 0xffff_ffff,
    ensures
        decimal(n).len() <= 10,
        decimal(n).len() >= 1,
{
    reveal_with_fuel(pow10, 11);
    assert(pow10(10) == 10000000000);
    lemma_decimal_len_bound(n, 10);
}

proof fn lemma_decimal_len_bound(n: nat, k: nat)
    requires
        1 <= k,
        n < pow10(k),
    ensures
        1 <= decimal(n).len() <= k,
    decreases n,
{
    if n >= 10 {
        assert(k >= 2) by {
            if k == 1 {
                assert(pow10(1) == 10) by {
                    assert(pow10(0) == 1);
                }
            }
        }
        assert(n / 10 < pow10((k - 1) as nat)) by {
            assert(pow10(k) == 10 * pow10((k - 1) as nat));
        }
        lemma_decimal_len_bound(n / 10, (k - 1) as nat);
    }
}

pub open spec fn pow10(k: nat) -> nat
    decreases k,
{
    if k == 0 {
        1
    } else {
        10 * pow10((k - 1) as nat)
    }
}

pub open spec fn render_crossing_spec(
    color: bool,
    host: Seq<char>,
    workspace: Seq<char>,
    kind: Option<Seq<char>>,
    resources: Option<Seq<char>>,
) -> Seq<char> {
    let line = paint_spec(color, ACCENT, host) + " "@ + paint_spec(color, MUTED, seq![ARROW])
        + " "@ + paint_spec(color, VM, "vm:"@) + paint_spec(color, PRIMARY, workspace);
    let line = match kind {
        Some(k) => line + sep_spec(color) + paint_spec(color, MUTED, k),
        None => line,
    };
    match resources {
        Some(r) => line + sep_spec(color) + paint_spec(color, PRIMARY, r),
        None => line,
    }
}

fn render_crossing(
    color: bool,
    host: &[char],
    workspace: &[char],
    kind: Option<&[char]>,
    resources: Option<&[char]>,
) -> (out: Vec<char>)
    ensures
        out@ == render_crossing_spec(
            color,
            host@,
            workspace@,
            match kind {
                Some(k) => Some(k@),
                None => None,
            },
            match resources {
                Some(r) => Some(r@),
                None => None,
            },
        ),
{
    let mut out: Vec<char> = Vec::new();
    push_paint(&mut out, color, ACCENT, host);
    push_str(&mut out, " ");
    push_paint_char(&mut out, color, MUTED, ARROW);
    push_str(&mut out, " ");
    push_paint_str(&mut out, color, VM, "vm:");
    push_paint(&mut out, color, PRIMARY, workspace);
    match kind {
        Some(k) => {
            push_sep(&mut out, color);
            push_paint(&mut out, color, MUTED, k);
        },
        None => {},
    }
    match resources {
        Some(r) => {
            push_sep(&mut out, color);
            push_paint(&mut out, color, PRIMARY, r);
        },
        None => {},
    }
    assert(out@ =~= render_crossing_spec(
        color,
        host@,
        workspace@,
        match kind {
            Some(k) => Some(k@),
            None => None,
        },
        match resources {
            Some(r) => Some(r@),
            None => None,
        },
    ));
    out
}

pub open spec fn max_nat(a: nat, b: nat) -> nat {
    if a >= b {
        a
    } else {
        b
    }
}

/// The crossing line `host → vm:workspace  ·  kind  ·  resources`, dropping
/// the kind first, then the resources, then truncating the names, so that it
/// fits `width` cells (never fewer than 20).
pub open spec fn crossing_spec(
    color: bool,
    width: nat,
    host: Seq<char>,
    workspace: Seq<char>,
    kind: CrossingKind,
    cpus: u8,
    memory: u32,
    memory_max: u32,
) -> Seq<char> {
    let h = sanitize_spec(host);
    let w = sanitize_spec(workspace);
    let k = kind_label(kind);
    let r = resources_spec(cpus, memory, memory_max);
    let width = max_nat(width, MIN_WIDTH as nat);
    let base = width_spec(h) + 6 + width_spec(w);
    let with_kind = base + 5 + width_spec(k);
    let with_resources = base + 5 + width_spec(r);
    if base <= width {
        if with_kind + 5 + width_spec(r) <= width {
            render_crossing_spec(color, h, w, Some(k), Some(r))
        } else if with_resources <= width {
            render_crossing_spec(color, h, w, None, Some(r))
        } else if with_kind <= width {
            render_crossing_spec(color, h, w, Some(k), None)
        } else {
            render_crossing_spec(color, h, w, None, None)
        }
    } else {
        let budget = (width - 6) as nat;
        let host_budget = max_nat(budget / 3, 2);
        let workspace_budget = max_nat(
            if budget >= host_budget {
                (budget - host_budget) as nat
            } else {
                0
            },
            2,
        );
        render_crossing_spec(
            color,
            truncate_spec(h, host_budget),
            truncate_spec(w, workspace_budget),
            None,
            None,
        )
    }
}

/// The line that announces the crossing from the host into the VM.
pub fn format_crossing(
    theme: Theme,
    width: usize,
    host: &str,
    workspace: &str,
    kind: CrossingKind,
    cpus: u8,
    memory_mib: u32,
    memory_max_mib: u32,
) -> (s: String)
    ensures
        s@ == crossing_spec(
            theme.color,
            width as nat,
            host@,
            workspace@,
            kind,
            cpus,
            memory_mib,
            memory_max_mib,
        ),
{
    let raw_host = chars_of(host);
    let raw_ws = chars_of(workspace);
    let h = sanitize_chars(&raw_host);
    let w = sanitize_chars(&raw_ws);
    let k = chars_of(kind.label());
    let r = format_resources(cpus, memory_mib, memory_max_mib);
    proof {
        reveal_strlit("new");
        reveal_strlit("reused");
        reveal_strlit("reset");
        lemma_width_bound(k@);
        lemma_width_bound(r@);
    }
    let kw = chars_width(&k);
    let rw = chars_width(&r);
    let width = if width > MIN_WIDTH { width } else { MIN_WIDTH };
    let mut fitted: Option<usize> = None;
    match bounded_width(&h, width) {
        Some(hw) => {
            if width - hw >= 6 {
                match bounded_width(&w, width - hw - 6) {
                    Some(ww) => {
                        fitted = Some(hw + 6 + ww);
                    },
                    None => {},
                }
            }
        },
        None => {},
    }
    let out = match fitted {
        Some(base) => {
            let room = width - base;
            if 10 + kw + rw <= room {
                render_crossing(theme.color, &h, &w, Some(k.as_slice()), Some(r.as_slice()))
            } else if 5 + rw <= room {
                render_crossing(theme.color, &h, &w, None, Some(r.as_slice()))
            } else if 5 + kw <= room {
                render_crossing(theme.color, &h, &w, Some(k.as_slice()), None)
            } else {
                render_crossing(theme.color, &h, &w, None, None)
            }
        },
        None => {
            let budget = width - 6;
            let host_budget = if budget / 3 > 2 { budget / 3 } else { 2 };
            let rest = if budget >= host_budget { budget - host_budget } else { 0 };
            let workspace_budget = if rest > 2 { rest } else { 2 };
            let th = truncate_chars(&h, host_budget);
            let tw = truncate_chars(&w, workspace_budget);
            render_crossing(theme.color, &th, &tw, None, None)
        },
    };
    string_from_chars(&out)
}

// ---------------------------------------------------------------------------
// The live line and its region
// ---------------------------------------------------------------------------

pub open spec fn spin_mark_spec(color: bool, spin: char) -> Seq<char> {
    if spin == ' ' {
        paint_spec(color, MUTED, seq![spin])
    } else {
        paint_spec(color, VM, seq![spin])
    }
}

/// `  <spin> id  phase`: the spinner in column two, the phase cut to the room
/// that is left of `width` cells (never fewer than 20).
pub open spec fn live_line_spec(
    color: bool,
    width: nat,
    id: Seq<char>,
    spin: char,
    phase: Seq<char>,
) -> Seq<char> {
    let id = sanitize_spec(id);
    let phase = sanitize_spec(phase);
    let width = max_nat(width, MIN_WIDTH as nat);
    let head = "  "@ + spin_mark_spec(color, spin) + " "@;
    let prefix_w = width_spec("  "@ + seq![spin] + " "@ + id);
    if prefix_w >= width {
        head + paint_spec(color, PRIMARY, truncate_spec(id, (width - 4) as nat))
    } else if phase.len() == 0 {
        head + paint_spec(color, PRIMARY, id)
    } else if width < prefix_w + 2 + 2 {
        head + paint_spec(color, PRIMARY, id)
    } else {
        head + paint_spec(color, PRIMARY, id) + "  "@ + paint_spec(
            color,
            MUTED,
            truncate_spec(phase, (width - (prefix_w + 2)) as nat),
        )
    }
}

fn live_line_chars(color: bool, width: usize, id: &[char], spin: char, phase: &[char]) -> (out: Vec<
    char,
>)
    ensures
        out@ == live_line_spec(color, width as nat, id@, spin, phase@),
{
    let raw_id = id;
    let raw_phase = phase;
    let id = sanitize_chars(raw_id);
    let phase = sanitize_chars(raw_phase);
    let w0 = width;
    let width = if width > MIN_WIDTH { width } else { MIN_WIDTH };
    let mut out: Vec<char> = Vec::new();
    push_str(&mut out, "  ");
    if spin == ' ' {
        push_paint_char(&mut out, color, MUTED, spin);
    } else {
        push_paint_char(&mut out, color, VM, spin);
    }
    push_str(&mut out, " ");
    let ghost head = out@;
    assert(head =~= "  "@ + spin_mark_spec(color, spin) + " "@);
    let mut prefix: Vec<char> = Vec::new();
    push_str(&mut prefix, "  ");
    let ghost p1 = prefix@;
    prefix.push(spin);
    assert(prefix@ =~= p1 + seq![spin]);
    push_str(&mut prefix, " ");
    push_chars(&mut prefix, &id);
    assert(prefix@ =~= "  "@ + seq![spin] + " "@ + id@);
    match bounded_width(&prefix, width - 1) {
        None => {
            let t = truncate_chars(&id, width - 4);
            push_paint(&mut out, color, PRIMARY, &t);
        },
        Some(prefix_w) => {
            push_paint(&mut out, color, PRIMARY, &id);
            if phase.len() != 0 && width - prefix_w >= 4 {
                let room = width - (prefix_w + 2);
                let clip = truncate_chars(&phase, room);
                push_str(&mut out, "  ");
                push_paint(&mut out, color, MUTED, &clip);
            }
        },
    }
    assert(out@ =~= live_line_spec(color, w0 as nat, raw_id@, spin, raw_phase@));
    out
}

/// The first row of the live region.
pub fn format_live_line(theme: Theme, width: usize, id: &str, spin: char, phase: &str) -> (s:
    String)
    ensures
        s@ == live_line_spec(theme.color, width as nat, id@, spin, phase@),
{
    let id = chars_of(id);
    let phase = chars_of(phase);
    let out = live_line_chars(theme.color, width, &id, spin, &phase);
    string_from_chars(&out)
}

/// A tail row: four spaces and the line, cut to the width.
pub open spec fn live_tail_spec(color: bool, width: nat, line: Seq<char>) -> Seq<char> {
    "    "@ + paint_spec(
        color,
        MUTED,
        truncate_spec(line, (max_nat(width, MIN_WIDTH as nat) - 4) as nat),
    )
}

fn push_live_tail(out: &mut Vec<char>, color: bool, width: usize, line: &[char])
    ensures
        final(out)@ == old(out)@ + live_tail_spec(color, width as nat, line@),
{
    let ghost start = out@;
    let w = if width > MIN_WIDTH { width } else { MIN_WIDTH };
    let t = truncate_chars(line, w - 4);
    push_str(out, "    ");
    push_paint(out, color, MUTED, &t);
    assert(out@ =~= start + live_tail_spec(color, width as nat, line@));
}

// ---------------------------------------------------------------------------
// Line buffer
// ---------------------------------------------------------------------------

/// Output of a build step as lines: the line being written and the most
/// recent complete lines, sanitised, at most `HISTORY_CAP` of them.
#[derive(Debug)]
pub struct LineBuf {
    partial: Vec<char>,
    history: std::collections::VecDeque<String>,
}

pub open spec fn bounded_push(history: Seq<Seq<char>>, line: Seq<char>) -> Seq<Seq<char>> {
    if history.len() >= HISTORY_CAP {
        history.drop_first().push(line)
    } else {
        history.push(line)
    }
}

/// Ending the current line: its sanitised form joins the history unless empty.
pub open spec fn commit_spec(partial: Seq<char>, history: Seq<Seq<char>>) -> (Seq<char>, Seq<
    Seq<char>,
>) {
    let line = sanitize_spec(partial);
    if line.len() == 0 {
        (Seq::empty(), history)
    } else {
        (Seq::empty(), bounded_push(history, line))
    }
}

/// One character of output: newline commits, carriage return discards the
/// line, other control characters but ESC are dropped.
pub open spec fn feed_char_spec(partial: Seq<char>, history: Seq<Seq<char>>, c: char) -> (Seq<
    char,
>, Seq<Seq<char>>) {
    if c == '\n' {
        commit_spec(partial, history)
    } else if c == '\r' {
        (Seq::empty(), history)
    } else if crate::text::is_control_char(c) && c != crate::ansi::ESC {
        (partial, history)
    } else {
        (partial.push(c), history)
    }
}

pub open spec fn feed_text_spec(partial: Seq<char>, history: Seq<Seq<char>>, text: Seq<char>) -> (
    Seq<char>,
    Seq<Seq<char>>,
)
    decreases text.len(),
{
    if text.len() == 0 {
        (partial, history)
    } else {
        let (p, h) = feed_text_spec(partial, history, text.drop_last());
        feed_char_spec(p, h, text.last())
    }
}

/// The history invariant: bounded, and every line non-empty and clean.
pub open spec fn history_wf(history: Seq<Seq<char>>) -> bool {
    &&& history.len() <= HISTORY_CAP
    &&& forall|i: int|
        0 <= i < history.len() ==> (#[trigger] history[i]).len() > 0 && is_clean(history[i])
}

impl LineBuf {
    pub closed spec fn partial_view(&self) -> Seq<char> {
        self.partial@
    }

    pub closed spec fn history_view(&self) -> Seq<Seq<char>> {
        self.history.deep_view()
    }

    #[verifier::type_invariant]
    closed spec fn inv(&self) -> bool {
        history_wf(self.history.deep_view())
    }

    pub fn new() -> (b: LineBuf)
        ensures
            b.partial_view() == Seq::<char>::empty(),
            b.history_view() == Seq::<Seq<char>>::empty(),
    {
        let b = LineBuf { partial: Vec::new(), history: std::collections::VecDeque::new() };
        assert(b.history.deep_view() =~= Seq::<Seq<char>>::empty());
        b
    }

    fn commit(&mut self)
        ensures
            (final(self).partial_view(), final(self).history_view()) == commit_spec(
                old(self).partial_view(),
                old(self).history_view(),
            ),
    {
        proof {
            use_type_invariant(&*self);
        }
        let line = sanitize_chars(&self.partial);
        self.partial = Vec::new();
        if line.len() == 0 {
            return;
        }
        proof {
            law_sanitize_idempotent(old(self).partial@);
        }
        let ghost before = self.history.deep_view();
        let text = string_from_chars(&line);
        if self.history.len() >= HISTORY_CAP {
            let mut h = std::collections::VecDeque::new();
            std::mem::swap(&mut h, &mut self.history);
            let _ = h.pop_front();
            h.push_back(text);
            assert(h.deep_view() =~= bounded_push(before, line@));
            self.history = h;
        } else {
            let mut h = std::collections::VecDeque::new();
            std::mem::swap(&mut h, &mut self.history);
            h.push_back(text);
            assert(h.deep_view() =~= bounded_push(before, line@));
            self.history = h;
        }
    }

    /// Feeds decoded output text, character by character.
    pub fn push(&mut self, text: &str)
        ensures
            (final(self).partial_view(), final(self).history_view()) == feed_text_spec(
                old(self).partial_view(),
                old(self).history_view(),
                text@,
            ),
    {
        let ghost p0 = self.partial_view();
        let ghost h0 = self.history_view();
        for c in it: text.chars()
            invariant
                it.seq() == text@,
                (self.partial_view(), self.history_view()) == feed_text_spec(
                    p0,
                    h0,
                    it.seq().take(it.index() as int),
                ),
        {
            proof {
                use_type_invariant(&*self);
                assert(it.seq().take(it.index() + 1).drop_last() =~= it.seq().take(
                    it.index() as int,
                ));
            }
            if c == '\n' {
                self.commit();
            } else if c == '\r' {
                self.partial = Vec::new();
            } else if crate::text::is_control(c) && c != crate::ansi::ESC {
            } else {
                let mut p: Vec<char> = Vec::new();
                std::mem::swap(&mut p, &mut self.partial);
                p.push(c);
                self.partial = p;
            }
        }
        assert(text@.take(text@.len() as int) =~= text@);
    }

    /// The line being written, or else the latest complete line, or nothing.
    pub fn snippet(&self) -> (s: String)
        ensures
            s@ == (if sanitize_spec(self.partial_view()).len() > 0 {
                sanitize_spec(self.partial_view())
            } else if self.history_view().len() > 0 {
                self.history_view().last()
            } else {
                Seq::empty()
            }),
    {
        let current = sanitize_chars(&self.partial);
        if current.len() > 0 {
            return string_from_chars(&current);
        }
        let n = self.history.len();
        if n > 0 {
            let last = self.history[n - 1].clone();
            return last;
        }
        String::new()
    }

    /// The complete lines, oldest first.
    pub fn history(&self) -> (lines: Vec<String>)
        ensures
            lines.deep_view() == self.history_view(),
    {
        let mut out: Vec<String> = Vec::new();
        let mut i: usize = 0;
        while i < self.history.len()
            invariant
                i <= self.history@.len(),
                out.deep_view() =~= self.history_view().take(i as int),
            decreases self.history@.len() - i,
        {
            let line = self.history[i].clone();
            let ghost before = out.deep_view();
            out.push(line);
            proof {
                assert(out.deep_view() =~= before.push(self.history_view()[i as int]));
                assert(self.history_view().take(i + 1) =~= self.history_view().take(i as int).push(
                    self.history_view()[i as int],
                ));
            }
            i = i + 1;
        }
        out
    }
}

/// Feeding text keeps the history bounded, non-empty and clean.
pub proof fn law_history_bounded(partial: Seq<char>, history: Seq<Seq<char>>, text: Seq<char>)
    requires
        history_wf(history),
    ensures
        history_wf(feed_text_spec(partial, history, text).1),
    decreases text.len(),
{
    if text.len() > 0 {
        law_history_bounded(partial, history, text.drop_last());
        let (p, h) = feed_text_spec(partial, history, text.drop_last());
        if text.last() == '\n' {
            law_sanitize_idempotent(p);
            let line = sanitize_spec(p);
            let nh = bounded_push(h, line);
            if line.len() > 0 {
            assert forall|i: int| 0 <= i < nh.len() implies (#[trigger] nh[i]).len() > 0
                && is_clean(nh[i]) by {
                if h.len() >= HISTORY_CAP {
                    if i < nh.len() - 1 {
                        assert(nh[i] == h[i + 1]);
                    }
                } else {
                    if i < nh.len() - 1 {
                        assert(nh[i] == h[i]);
                    }
                }
            }
            }
        }
    }
}

/// A full history drops its oldest line to take a new one.
pub proof fn law_history_keeps_latest(history: Seq<Seq<char>>, line: Seq<char>)
    requires
        history.len() <= HISTORY_CAP,
    ensures
        bounded_push(history, line) == history.push(line).skip(
            if history.len() == HISTORY_CAP {
                1int
            } else {
                0int
            },
        ),
        bounded_push(history, line).len() <= HISTORY_CAP,
        bounded_push(history, line).last() == line,
{
    if history.len() >= HISTORY_CAP {
        assert(history.drop_first().push(line) =~= history.push(line).skip(1));
    } else {
        assert(history.push(line) =~= history.push(line).skip(0));
    }
}

/// The line being written after `text` was fed to a buffer whose current
/// line was `partial`.
pub open spec fn partial_after(partial: Seq<char>, text: Seq<char>) -> Seq<char>
    decreases text.len(),
{
    if text.len() == 0 {
        partial
    } else {
        let q = partial_after(partial, text.drop_last());
        let c = text.last();
        if c == '\n' || c == '\r' {
            Seq::empty()
        } else if crate::text::is_control_char(c) && c != crate::ansi::ESC {
            q
        } else {
            q.push(c)
        }
    }
}

/// The non-empty sanitised lines that `text` completes, one per newline, in
/// order, starting from the current line `partial`.
pub open spec fn lines_completed(partial: Seq<char>, text: Seq<char>) -> Seq<Seq<char>>
    decreases text.len(),
{
    if text.len() == 0 {
        Seq::empty()
    } else {
        let before = lines_completed(partial, text.drop_last());
        let line = sanitize_spec(partial_after(partial, text.drop_last()));
        if text.last() == '\n' && line.len() > 0 {
            before.push(line)
        } else {
            before
        }
    }
}

/// The last `n` entries of `s`, or all of them when there are fewer.
pub open spec fn keep_last(s: Seq<Seq<char>>, n: nat) -> Seq<Seq<char>> {
    if s.len() <= n {
        s
    } else {
        s.skip(s.len() - n)
    }
}

proof fn lemma_push_window(x: Seq<Seq<char>>, line: Seq<char>)
    ensures
        bounded_push(keep_last(x, HISTORY_CAP as nat), line) == keep_last(
            x.push(line),
            HISTORY_CAP as nat,
        ),
{
    if x.len() >= HISTORY_CAP {
        assert(keep_last(x, HISTORY_CAP as nat).drop_first().push(line) =~= keep_last(
            x.push(line),
            HISTORY_CAP as nat,
        ));
    }
}

/// Whatever is fed, the history holds the last `HISTORY_CAP` of the lines
/// it held and the non-empty sanitised lines completed since, in order; the
/// line being written depends on the text alone.
pub proof fn law_history_window(partial: Seq<char>, history: Seq<Seq<char>>, text: Seq<char>)
    requires
        history.len() <= HISTORY_CAP,
    ensures
        feed_text_spec(partial, history, text) == (
            partial_after(partial, text),
            keep_last(history + lines_completed(partial, text), HISTORY_CAP as nat),
        ),
    decreases text.len(),
{
    if text.len() == 0 {
        assert(history + Seq::<Seq<char>>::empty() =~= history);
    } else {
        let prefix = text.drop_last();
        law_history_window(partial, history, prefix);
        let before = lines_completed(partial, prefix);
        let line = sanitize_spec(partial_after(partial, prefix));
        if text.last() == '\n' && line.len() > 0 {
            lemma_push_window(history + before, line);
            assert(history + before.push(line) =~= (history + before).push(line));
        }
    }
}

/// Feeding two pieces of text one after the other is feeding them joined.
pub proof fn law_feed_concat(
    partial: Seq<char>,
    history: Seq<Seq<char>>,
    first: Seq<char>,
    second: Seq<char>,
)
    ensures
        feed_text_spec(partial, history, first + second) == feed_text_spec(
            feed_text_spec(partial, history, first).0,
            feed_text_spec(partial, history, first).1,
            second,
        ),
    decreases second.len(),
{
    if second.len() == 0 {
        assert(first + second =~= first);
    } else {
        law_feed_concat(partial, history, first, second.drop_last());
        assert((first + second).drop_last() =~= first + second.drop_last());
        assert((first + second).last() == second.last());
    }
}

// ---------------------------------------------------------------------------
// The live region: a status row and four tail rows
// ---------------------------------------------------------------------------

/// The characters of each row.
pub open spec fn vec_rows(rows: Seq<Vec<char>>) -> Seq<Seq<char>> {
    rows.map_values(|r: Vec<char>| r@)
}

/// The tail rows under the status row: the latest history lines and, below
/// them, the line being written, at most `LIVE_TAIL_ROWS` in all.
pub open spec fn tail_rows_spec(partial: Seq<char>, history: Seq<Seq<char>>) -> Seq<Seq<char>> {
    let p = sanitize_spec(partial);
    let limit: int = if p.len() > 0 {
        LIVE_TAIL_ROWS - 1
    } else {
        LIVE_TAIL_ROWS as int
    };
    let start: int = if history.len() >= limit {
        history.len() - limit
    } else {
        0
    };
    let shown = history.skip(start);
    if p.len() > 0 {
        shown.push(p)
    } else {
        shown
    }
}

pub open spec fn empty_rows(n: nat) -> Seq<Seq<char>>
    decreases n,
{
    if n == 0 {
        Seq::empty()
    } else {
        empty_rows((n - 1) as nat).push(Seq::empty())
    }
}

/// The five rows of the live region, top to bottom.
pub open spec fn region_rows_spec(
    color: bool,
    width: nat,
    id: Seq<char>,
    spin: char,
    phase: Seq<char>,
    partial: Seq<char>,
    history: Seq<Seq<char>>,
) -> Seq<Seq<char>> {
    let tails = tail_rows_spec(partial, history);
    seq![live_line_spec(color, width, id, spin, phase)] + tails.map_values(
        |line: Seq<char>| live_tail_spec(color, width, line),
    ) + empty_rows((LIVE_TAIL_ROWS - tails.len()) as nat)
}

/// Rows joined by newlines.
pub open spec fn join_rows(rows: Seq<Seq<char>>) -> Seq<char>
    decreases rows.len(),
{
    if rows.len() == 0 {
        Seq::empty()
    } else if rows.len() == 1 {
        rows[0]
    } else {
        join_rows(rows.drop_last()) + "\n"@ + rows.last()
    }
}

pub open spec fn live_region_spec(
    color: bool,
    width: nat,
    id: Seq<char>,
    spin: char,
    phase: Seq<char>,
    partial: Seq<char>,
    history: Seq<Seq<char>>,
) -> Seq<char> {
    join_rows(region_rows_spec(color, width, id, spin, phase, partial, history))
}

fn region_rows(
    color: bool,
    width: usize,
    id: &[char],
    spin: char,
    phase: &[char],
    lines: &LineBuf,
) -> (rows: Vec<Vec<char>>)
    ensures
        vec_rows(rows@) == region_rows_spec(
            color,
            width as nat,
            id@,
            spin,
            phase@,
            lines.partial_view(),
            lines.history_view(),
        ),
        rows@.len() == LIVE_ROWS,
{
    let ghost tails = tail_rows_spec(lines.partial_view(), lines.history_view());
    let mut rows: Vec<Vec<char>> = Vec::new();
    let first = live_line_chars(color, width, id, spin, phase);
    rows.push(first);
    assert(vec_rows(rows@) =~= seq![live_line_spec(color, width as nat, id@, spin, phase@)]);
    assert(lines.history_view().skip(0).take(0) =~= Seq::<Seq<char>>::empty());
    let partial = sanitize_chars(&lines.partial);
    let limit: usize = if partial.len() > 0 { LIVE_TAIL_ROWS - 1 } else { LIVE_TAIL_ROWS };
    let n = lines.history.len();
    let start = if n >= limit { n - limit } else { 0 };
    let ghost shown = lines.history_view().skip(start as int);
    let mut i = start;
    while i < n
        invariant
            start <= i <= n,
            n == lines.history_view().len(),
            shown == lines.history_view().skip(start as int),
            vec_rows(rows@) =~= seq![live_line_spec(color, width as nat, id@, spin, phase@)]
                + shown.take(i - start).map_values(
                |line: Seq<char>| live_tail_spec(color, width as nat, line),
            ),
        decreases n - i,
    {
        let line = chars_of(lines.history[i].as_str());
        let mut row: Vec<char> = Vec::new();
        push_live_tail(&mut row, color, width, &line);
        let ghost before = vec_rows(rows@);
        rows.push(row);
        proof {
            assert(line@ == lines.history_view()[i as int]);
            assert(shown.take(i + 1 - start) =~= shown.take(i - start).push(shown[i - start]));
            assert(vec_rows(rows@) =~= before.push(row@));
        }
        i = i + 1;
    }
    proof {
        assert(shown.take(n - start) =~= shown);
    }
    if partial.len() > 0 {
        let mut row: Vec<char> = Vec::new();
        push_live_tail(&mut row, color, width, &partial);
        let ghost before = vec_rows(rows@);
        rows.push(row);
        proof {
            assert(vec_rows(rows@) =~= before.push(row@));
            assert(shown.push(partial@).map_values(
                |line: Seq<char>| live_tail_spec(color, width as nat, line),
            ) =~= shown.map_values(|line: Seq<char>| live_tail_spec(color, width as nat, line)).push(
                live_tail_spec(color, width as nat, partial@),
            ));
        }
    }
    let ghost with_tails = vec_rows(rows@);
    assert(with_tails =~= seq![live_line_spec(color, width as nat, id@, spin, phase@)]
        + tails.map_values(|line: Seq<char>| live_tail_spec(color, width as nat, line)));
    let mut k: usize = rows.len();
    while k < LIVE_ROWS
        invariant
            1 <= k <= LIVE_ROWS,
            k == rows@.len(),
            with_tails.len() <= k,
            with_tails.len() == 1 + tails.len(),
            vec_rows(rows@) =~= with_tails + empty_rows((k - with_tails.len()) as nat),
        decreases LIVE_ROWS - k,
    {
        let ghost before = vec_rows(rows@);
        rows.push(Vec::new());
        proof {
            assert(vec_rows(rows@) =~= before.push(Seq::<char>::empty()));
        }
        k = k + 1;
    }
    rows
}

fn join_row_chars(rows: &Vec<Vec<char>>) -> (out: Vec<char>)
    ensures
        out@ == join_rows(vec_rows(rows@)),
{
    let mut out: Vec<char> = Vec::new();
    let mut i: usize = 0;
    while i < rows.len()
        invariant
            i <= rows@.len(),
            out@ == join_rows(vec_rows(rows@).take(i as int)),
        decreases rows@.len() - i,
    {
        let ghost before = out@;
        if i > 0 {
            push_str(&mut out, "\n");
        }
        push_chars(&mut out, &rows[i]);
        proof {
            let t = vec_rows(rows@).take(i + 1);
            assert(t.drop_last() =~= vec_rows(rows@).take(i as int));
            if i == 0 {
                assert(out@ =~= t[0]);
            }
        }
        i = i + 1;
    }
    assert(vec_rows(rows@).take(rows@.len() as int) =~= vec_rows(rows@));
    out
}

/// The live region: the status row over the latest output rows, always
/// `LIVE_ROWS` rows.
pub fn format_live_region(
    theme: Theme,
    width: usize,
    id: &str,
    spin: char,
    phase: &str,
    lines: &LineBuf,
) -> (s: String)
    ensures
        s@ == live_region_spec(
            theme.color,
            width as nat,
            id@,
            spin,
            phase@,
            lines.partial_view(),
            lines.history_view(),
        ),
{
    let id = chars_of(id);
    let phase = chars_of(phase);
    let rows = region_rows(theme.color, width, &id, spin, &phase, lines);
    let out = join_row_chars(&rows);
    string_from_chars(&out)
}

// ---------------------------------------------------------------------------
// Decoding output bytes
// ---------------------------------------------------------------------------

/// The length of the longest prefix of `bytes` that is valid UTF-8.
pub open spec fn utf8_valid_up_to(bytes: Seq<u8>) -> nat
    decreases bytes.len(),
{
    if bytes.len() == 0 || vstd::utf8::valid_utf8(bytes) {
        bytes.len()
    } else {
        utf8_valid_up_to(bytes.drop_last())
    }
}

/// `std::str::from_utf8(bytes)` and `Utf8Error::valid_up_to`: the whole
/// length when `bytes` is valid UTF-8, else the maximum index up to which
/// the input is valid.
#[verifier::external_body]
fn valid_up_to(bytes: &[u8]) -> (n: usize)
    ensures
        n == utf8_valid_up_to(bytes@),
{
    match std::str::from_utf8(bytes) {
        Ok(_) => bytes.len(),
        Err(err) => err.valid_up_to(),
    }
}

/// `std::str::from_utf8` on bytes known to be valid UTF-8: their characters.
#[verifier::external_body]
fn decode_utf8_valid(bytes: &[u8]) -> (s: String)
    requires
        vstd::utf8::valid_utf8(bytes@),
    ensures
        s@ == vstd::utf8::decode_utf8(bytes@),
{
    match std::str::from_utf8(bytes) {
        Ok(text) => text.to_owned(),
        Err(_) => String::new(),
    }
}

proof fn lemma_valid_up_to(bytes: Seq<u8>)
    ensures
        utf8_valid_up_to(bytes) <= bytes.len(),
        vstd::utf8::valid_utf8(bytes.take(utf8_valid_up_to(bytes) as int)),
    decreases bytes.len(),
{
    if bytes.len() == 0 {
        assert(bytes.take(0) =~= Seq::<u8>::empty());
        assert(vstd::utf8::valid_utf8(Seq::<u8>::empty()));
    } else if vstd::utf8::valid_utf8(bytes) {
        assert(bytes.take(bytes.len() as int) =~= bytes);
    } else {
        lemma_valid_up_to(bytes.drop_last());
        assert(bytes.drop_last().take(utf8_valid_up_to(bytes) as int) =~= bytes.take(
            utf8_valid_up_to(bytes) as int,
        ));
    }
}

// ---------------------------------------------------------------------------
// The live region's state machine
// ---------------------------------------------------------------------------

pub const HIDE_CURSOR: &'static str = "\x1b[?25l";
pub const SHOW_CURSOR: &'static str = "\x1b[?25h";
pub const RESET: &'static str = "\x1b[0m";
pub const CLEAR_LINE: &'static str = "\r\x1b[2K";
pub const CURSOR_UP_LIVE: &'static str = "\x1b[4A";
pub const CURSOR_DOWN: &'static str = "\x1b[1B";

/// The braille spinner, frame by frame.
pub open spec fn spinner_spec(i: nat) -> char {
    let k = i % 10;
    if k == 0 { '\u{280b}' }
    else if k == 1 { '\u{2819}' }
    else if k == 2 { '\u{2839}' }
    else if k == 3 { '\u{2838}' }
    else if k == 4 { '\u{283c}' }
    else if k == 5 { '\u{2834}' }
    else if k == 6 { '\u{2826}' }
    else if k == 7 { '\u{2827}' }
    else if k == 8 { '\u{2807}' }
    else { '\u{280f}' }
}

fn spinner_char(i: usize) -> (c: char)
    ensures
        c == spinner_spec(i as nat),
{
    let k = i % 10;
    if k == 0 { '\u{280b}' }
    else if k == 1 { '\u{2819}' }
    else if k == 2 { '\u{2839}' }
    else if k == 3 { '\u{2838}' }
    else if k == 4 { '\u{283c}' }
    else if k == 5 { '\u{2834}' }
    else if k == 6 { '\u{2826}' }
    else if k == 7 { '\u{2827}' }
    else if k == 8 { '\u{2807}' }
    else { '\u{280f}' }
}

/// The abstract state of a live region.
pub struct LiveState {
    pub color: bool,
    pub interactive: bool,
    pub layer: Seq<char>,
    pub phase: Seq<char>,
    pub spinner: nat,
    pub started: nat,
    pub last_draw: nat,
    pub partial: Seq<char>,
    pub history: Seq<Seq<char>>,
    pub carry: Seq<u8>,
    pub cursor_hidden: bool,
    pub finished: bool,
    pub rendered: bool,
}

/// Which of the caller's streams receives raw build output.
#[derive(Clone, Copy, Debug, PartialEq, Eq, Structural)]
pub enum Stream {
    Stdout,
    Stderr,
}

/// What a live region asks its caller to write.
#[derive(Debug)]
pub enum LiveWrite {
    /// Raw output passed through to stdout (non-interactive runs).
    Stdout(Vec<u8>),
    /// Raw output passed through to stderr (non-interactive runs).
    Stderr(Vec<u8>),
    /// Terminal text for stderr; empty when nothing changes.
    Frame(String),
}

/// The rows of a frame: each cleared, then separated by a move down (over
/// rows already on screen) or a newline (the first time).
pub open spec fn frame_rows(rows: Seq<Seq<char>>, rendered: bool) -> Seq<char>
    decreases rows.len(),
{
    if rows.len() == 0 {
        Seq::empty()
    } else {
        let sep = if rows.len() < LIVE_ROWS {
            if rendered {
                CURSOR_DOWN@
            } else {
                "\n"@
            }
        } else {
            Seq::empty()
        };
        frame_rows(rows.drop_last(), rendered) + CLEAR_LINE@ + rows.last() + sep
    }
}

/// Blank rows that clear a drawn region and return to its top.
pub open spec fn clear_frame_spec() -> Seq<char> {
    "\r"@ + CURSOR_UP_LIVE@ + "\x1b[2K"@ + CURSOR_DOWN@ + "\x1b[2K"@ + CURSOR_DOWN@ + "\x1b[2K"@
        + CURSOR_DOWN@ + "\x1b[2K"@ + CURSOR_DOWN@ + "\x1b[2K"@ + "\r"@ + CURSOR_UP_LIVE@
}

pub open spec fn wrapping_inc(n: nat) -> nat {
    if n >= usize::MAX {
        0
    } else {
        n + 1
    }
}

pub open spec fn spinning_spec(st: LiveState, now: nat) -> bool {
    now >= st.started + SPIN_DELAY_MS
}

/// Redrawing the region at time `now` (milliseconds): the text to write
/// and the state after it. Nothing is drawn for a non-interactive or
/// finished region, nor, unless forced, before anything is worth showing.
pub open spec fn draw_spec(st: LiveState, force: bool, now: nat, width: nat) -> (Seq<char>, LiveState) {
    let spinning = spinning_spec(st, now);
    if !st.interactive || st.finished {
        (Seq::empty(), st)
    } else if !force && !spinning && st.phase.len() == 0 && sanitize_spec(st.partial).len() == 0
        && st.history.len() == 0 {
        (Seq::empty(), st)
    } else {
        let hide = if spinning && !st.cursor_hidden {
            HIDE_CURSOR@
        } else {
            Seq::empty()
        };
        let spin = if spinning {
            spinner_spec(st.spinner)
        } else {
            ' '
        };
        let rows = region_rows_spec(st.color, width, st.layer, spin, st.phase, st.partial, st.history);
        let lead = if st.rendered {
            "\r"@ + CURSOR_UP_LIVE@
        } else {
            Seq::empty()
        };
        (
            hide + lead + frame_rows(rows, st.rendered),
            LiveState {
                cursor_hidden: st.cursor_hidden || spinning,
                rendered: true,
                last_draw: now,
                ..st
            },
        )
    }
}

pub open spec fn clear_live_spec(st: LiveState) -> (Seq<char>, LiveState) {
    if !st.interactive || !st.rendered {
        (Seq::empty(), st)
    } else {
        (clear_frame_spec(), LiveState { rendered: false, ..st })
    }
}

pub open spec fn show_cursor_spec(st: LiveState) -> (Seq<char>, LiveState) {
    if st.cursor_hidden {
        (SHOW_CURSOR@ + RESET@, LiveState { cursor_hidden: false, ..st })
    } else {
        (Seq::empty(), st)
    }
}

pub open spec fn finish_spec(st: LiveState) -> (Seq<char>, LiveState) {
    show_cursor_spec(LiveState { finished: true, ..st })
}

pub open spec fn tick_spec(st: LiveState, now: nat, width: nat) -> (Seq<char>, LiveState) {
    if !st.interactive || st.finished || now < st.last_draw + SPIN_EVERY_MS {
        (Seq::empty(), st)
    } else {
        let st2 = if spinning_spec(st, now) {
            LiveState { spinner: wrapping_inc(st.spinner), ..st }
        } else {
            st
        };
        draw_spec(st2, true, now, width)
    }
}

pub open spec fn succeed_spec(st: LiveState) -> (Seq<char>, LiveState) {
    if st.finished {
        (Seq::empty(), st)
    } else {
        let (a, s1) = clear_live_spec(st);
        let (b, s2) = finish_spec(s1);
        (a + layer_end_spec(st.color, st.layer, LayerEnd::Snapped) + "\n"@ + b, s2)
    }
}

pub open spec fn done_spec(st: LiveState) -> (Seq<char>, LiveState) {
    if st.finished {
        (Seq::empty(), st)
    } else {
        let (a, s1) = clear_live_spec(st);
        let (b, s2) = finish_spec(s1);
        (a + b, s2)
    }
}

/// The history, one muted, indented line each.
pub open spec fn history_dump(color: bool, history: Seq<Seq<char>>) -> Seq<char>
    decreases history.len(),
{
    if history.len() == 0 {
        Seq::empty()
    } else {
        history_dump(color, history.drop_last()) + "    "@ + paint_spec(
            color,
            MUTED,
            history.last(),
        ) + "\n"@
    }
}

pub open spec fn fail_spec(st: LiveState, detail: Seq<char>) -> (Seq<char>, LiveState) {
    if st.finished {
        (Seq::empty(), st)
    } else {
        let (a, s1) = clear_live_spec(st);
        let (b, s2) = finish_spec(s1);
        (a + layer_fail_spec(st.color, st.layer, detail) + "\n"@ + history_dump(
            st.color,
            st.history,
        ) + b, s2)
    }
}

pub open spec fn release_spec(st: LiveState) -> (Seq<char>, LiveState) {
    let (a, s1) = if !st.finished {
        clear_live_spec(st)
    } else {
        (Seq::empty(), st)
    };
    let (b, s2) = show_cursor_spec(s1);
    (a + b, s2)
}

/// An interactive region buffers the chunk, feeds its longest valid UTF-8
/// prefix to the lines, and redraws; otherwise the chunk is passed through.
pub open spec fn feed_spec(st: LiveState, chunk: Seq<u8>, now: nat, width: nat) -> (Seq<char>, LiveState) {
    let carry = st.carry + chunk;
    let valid = utf8_valid_up_to(carry);
    if valid == 0 {
        (Seq::empty(), LiveState { carry, ..st })
    } else {
        let text = vstd::utf8::decode_utf8(carry.take(valid as int));
        let (p, h) = feed_text_spec(st.partial, st.history, text);
        draw_spec(
            LiveState { carry: carry.skip(valid as int), partial: p, history: h, ..st },
            false,
            now,
            width,
        )
    }
}

/// A status row with a spinner and a tail of the running step's output.
pub struct Live {
    theme: Theme,
    interactive: bool,
    layer: Vec<char>,
    phase: Vec<char>,
    spinner_i: usize,
    started: u64,
    last_draw: u64,
    lines: LineBuf,
    carry: Vec<u8>,
    cursor_hidden: bool,
    finished: bool,
    rendered: bool,
}

impl Live {
    pub closed spec fn state(&self) -> LiveState {
        LiveState {
            color: self.theme.color,
            interactive: self.interactive,
            layer: self.layer@,
            phase: self.phase@,
            spinner: self.spinner_i as nat,
            started: self.started as nat,
            last_draw: self.last_draw as nat,
            partial: self.lines.partial_view(),
            history: self.lines.history_view(),
            carry: self.carry@,
            cursor_hidden: self.cursor_hidden,
            finished: self.finished,
            rendered: self.rendered,
        }
    }

    /// A fresh region for the step `id`, started at `now` milliseconds.
    pub fn new(theme: Theme, interactive: bool, id: &str, now: u64) -> (l: Live)
        ensures
            l.state() == (LiveState {
                color: theme.color,
                interactive,
                layer: sanitize_spec(id@),
                phase: Seq::empty(),
                spinner: 0,
                started: now as nat,
                last_draw: now as nat,
                partial: Seq::empty(),
                history: Seq::empty(),
                carry: Seq::empty(),
                cursor_hidden: false,
                finished: false,
                rendered: false,
            }),
    {
        let raw = chars_of(id);
        Live {
            theme,
            interactive,
            layer: sanitize_chars(&raw),
            phase: Vec::new(),
            spinner_i: 0,
            started: now,
            last_draw: now,
            lines: LineBuf::new(),
            carry: Vec::new(),
            cursor_hidden: false,
            finished: false,
            rendered: false,
        }
    }

    fn draw(&mut self, force: bool, now: u64, width: usize) -> (out: Vec<char>)
        ensures
            (out@, final(self).state()) == draw_spec(old(self).state(), force, now as nat, width as nat),
    {
        if !self.interactive || self.finished {
            return Vec::new();
        }
        let spinning = now >= self.started && now - self.started >= SPIN_DELAY_MS;
        let snippet = self.lines.snippet();
        proof {
            use_type_invariant(&self.lines);
        }
        if !force && !spinning && self.phase.len() == 0 && snippet.as_str().is_empty() {
            return Vec::new();
        }
        let mut out: Vec<char> = Vec::new();
        if spinning && !self.cursor_hidden {
            push_str(&mut out, HIDE_CURSOR);
            self.cursor_hidden = true;
        }
        let spin = if spinning { spinner_char(self.spinner_i) } else { ' ' };
        let rows = region_rows(self.theme.color, width, &self.layer, spin, &self.phase, &self.lines);
        let ghost rv = vec_rows(rows@);
        let ghost hide = out@;
        if self.rendered {
            push_str(&mut out, "\r");
            push_str(&mut out, CURSOR_UP_LIVE);
        }
        let ghost lead_end = out@;
        let mut i: usize = 0;
        while i < rows.len()
            invariant
                i <= rows@.len(),
                rows@.len() == LIVE_ROWS,
                rv == vec_rows(rows@),
                out@ == lead_end + frame_rows(rv.take(i as int), self.rendered),
            decreases rows@.len() - i,
        {
            push_str(&mut out, CLEAR_LINE);
            push_chars(&mut out, &rows[i]);
            if i + 1 < LIVE_ROWS {
                if self.rendered {
                    push_str(&mut out, CURSOR_DOWN);
                } else {
                    push_str(&mut out, "\n");
                }
            }
            proof {
                assert(rv.take(i + 1).drop_last() =~= rv.take(i as int));
                assert(rv.take(i + 1).last() == rows@[i as int]@);
            }
            i = i + 1;
        }
        proof {
            assert(rv.take(LIVE_ROWS as int) =~= rv);
        }
        self.rendered = true;
        self.last_draw = now;
        out
    }

    fn clear_live(&mut self) -> (out: Vec<char>)
        ensures
            (out@, final(self).state()) == clear_live_spec(old(self).state()),
    {
        let mut out: Vec<char> = Vec::new();
        if !self.interactive || !self.rendered {
            return out;
        }
        push_str(&mut out, "\r");
        push_str(&mut out, CURSOR_UP_LIVE);
        let mut row: usize = 0;
        let ghost start = out@;
        push_str(&mut out, "\x1b[2K");
        push_str(&mut out, CURSOR_DOWN);
        push_str(&mut out, "\x1b[2K");
        push_str(&mut out, CURSOR_DOWN);
        push_str(&mut out, "\x1b[2K");
        push_str(&mut out, CURSOR_DOWN);
        push_str(&mut out, "\x1b[2K");
        push_str(&mut out, CURSOR_DOWN);
        push_str(&mut out, "\x1b[2K");
        push_str(&mut out, "\r");
        push_str(&mut out, CURSOR_UP_LIVE);
        self.rendered = false;
        assert(out@ =~= clear_frame_spec());
        out
    }

    fn show_cursor(&mut self) -> (out: Vec<char>)
        ensures
            (out@, final(self).state()) == show_cursor_spec(old(self).state()),
    {
        let mut out: Vec<char> = Vec::new();
        if self.cursor_hidden {
            push_str(&mut out, SHOW_CURSOR);
            push_str(&mut out, RESET);
            self.cursor_hidden = false;
            assert(out@ =~= SHOW_CURSOR@ + RESET@);
        }
        out
    }

    fn finish(&mut self) -> (out: Vec<char>)
        ensures
            (out@, final(self).state()) == finish_spec(old(self).state()),
    {
        self.finished = true;
        self.show_cursor()
    }

    /// Build output written to stdout.
    pub fn feed_stdout(&mut self, chunk: &[u8], now: u64, width: usize) -> (w: LiveWrite)
        ensures
            !old(self).state().interactive ==> (w matches LiveWrite::Stdout(b) && b@ == chunk@) && final(self).state() == old(self).state(),
            old(self).state().interactive ==> (w matches LiveWrite::Frame(f) && (f@, final(self).state()) == feed_spec(old(self).state(), chunk@, now as nat, width as nat)),
    {
        self.feed(chunk, Stream::Stdout, now, width)
    }

    /// Build output written to stderr.
    pub fn feed_stderr(&mut self, chunk: &[u8], now: u64, width: usize) -> (w: LiveWrite)
        ensures
            !old(self).state().interactive ==> (w matches LiveWrite::Stderr(b) && b@ == chunk@) && final(self).state() == old(self).state(),
            old(self).state().interactive ==> (w matches LiveWrite::Frame(f) && (f@, final(self).state()) == feed_spec(old(self).state(), chunk@, now as nat, width as nat)),
    {
        self.feed(chunk, Stream::Stderr, now, width)
    }

    fn feed(&mut self, chunk: &[u8], stream: Stream, now: u64, width: usize) -> (w: LiveWrite)
        ensures
            !old(self).state().interactive ==> final(self).state() == old(self).state() && (
            match stream {
                Stream::Stdout => (w matches LiveWrite::Stdout(b) && b@ == chunk@),
                Stream::Stderr => (w matches LiveWrite::Stderr(b) && b@ == chunk@),
            }),
            old(self).state().interactive ==> (w matches LiveWrite::Frame(f) && (f@, final(self).state()) == feed_spec(old(self).state(), chunk@, now as nat, width as nat)),
    {
        if !self.interactive {
            let bytes = vstd::slice::slice_to_vec(chunk);
            return match stream {
                Stream::Stdout => LiveWrite::Stdout(bytes),
                Stream::Stderr => LiveWrite::Stderr(bytes),
            };
        }
        let mut carry: Vec<u8> = Vec::new();
        std::mem::swap(&mut carry, &mut self.carry);
        let mut add = vstd::slice::slice_to_vec(chunk);
        carry.append(&mut add);
        let valid = valid_up_to(carry.as_slice());
        proof {
            lemma_valid_up_to(carry@);
        }
        if valid == 0 {
            self.carry = carry;
            return LiveWrite::Frame(String::new());
        }
        let rest = carry.split_off(valid);
        let text = decode_utf8_valid(carry.as_slice());
        self.carry = rest;
        self.lines.push(text.as_str());
        let out = self.draw(false, now, width);
        LiveWrite::Frame(string_from_chars(&out))
    }

    /// A timer tick: turns the spinner and redraws at most every
    /// `SPIN_EVERY_MS` milliseconds.
    pub fn tick(&mut self, now: u64, width: usize) -> (s: String)
        ensures
            (s@, final(self).state()) == tick_spec(old(self).state(), now as nat, width as nat),
    {
        if !self.interactive || self.finished {
            return String::new();
        }
        if now < self.last_draw || now - self.last_draw < SPIN_EVERY_MS {
            return String::new();
        }
        if now >= self.started && now - self.started >= SPIN_DELAY_MS {
            self.spinner_i = if self.spinner_i == usize::MAX { 0 } else { self.spinner_i + 1 };
        }
        let out = self.draw(true, now, width);
        string_from_chars(&out)
    }

    /// Names the current phase and redraws.
    pub fn phase(&mut self, phase: &str, now: u64, width: usize) -> (s: String)
        ensures
            (s@, final(self).state()) == draw_spec(
                LiveState { phase: phase@, ..old(self).state() },
                true,
                now as nat,
                width as nat,
            ),
    {
        self.phase = chars_of(phase);
        let out = self.draw(true, now, width);
        string_from_chars(&out)
    }

    /// Clears the region and leaves the snapshot mark `  ●  id`.
    pub fn succeed(&mut self) -> (s: String)
        ensures
            (s@, final(self).state()) == succeed_spec(old(self).state()),
    {
        if self.finished {
            return String::new();
        }
        let mut out = self.clear_live();
        let line = format_layer_end(self.theme, string_from_chars(&self.layer).as_str(), LayerEnd::Snapped);
        push_str(&mut out, line.as_str());
        push_str(&mut out, "\n");
        let tail = self.finish();
        push_chars(&mut out, &tail);
        string_from_chars(&out)
    }

    /// Clears the region without a mark.
    pub fn done(&mut self) -> (s: String)
        ensures
            (s@, final(self).state()) == done_spec(old(self).state()),
    {
        if self.finished {
            return String::new();
        }
        let mut out = self.clear_live();
        let tail = self.finish();
        push_chars(&mut out, &tail);
        string_from_chars(&out)
    }

    /// Clears the region, leaves `  ×  id  ·  detail` and the whole history.
    pub fn fail(&mut self, detail: &str) -> (s: String)
        ensures
            (s@, final(self).state()) == fail_spec(old(self).state(), detail@),
    {
        if self.finished {
            return String::new();
        }
        let mut out = self.clear_live();
        let line = format_layer_fail(self.theme, string_from_chars(&self.layer).as_str(), detail);
        push_str(&mut out, line.as_str());
        push_str(&mut out, "\n");
        let history = self.lines.history();
        let ghost before = out@;
        let mut i: usize = 0;
        while i < history.len()
            invariant
                i <= history@.len(),
                history.deep_view() == self.lines.history_view(),
                out@ == before + history_dump(self.theme.color, history.deep_view().take(i as int)),
            decreases history@.len() - i,
        {
            push_str(&mut out, "    ");
            let text = chars_of(history[i].as_str());
            push_paint(&mut out, self.theme.color, MUTED, &text);
            push_str(&mut out, "\n");
            proof {
                let t = history.deep_view().take(i + 1);
                assert(t.drop_last() =~= history.deep_view().take(i as int));
                assert(t.last() == text@);
            }
            i = i + 1;
        }
        proof {
            assert(history.deep_view().take(history@.len() as int) =~= history.deep_view());
        }
        let tail = self.finish();
        push_chars(&mut out, &tail);
        string_from_chars(&out)
    }

    /// `fail("interrupted")`.
    pub fn interrupt(&mut self) -> (s: String)
        ensures
            (s@, final(self).state()) == fail_spec(old(self).state(), "interrupted"@),
    {
        self.fail("interrupted")
    }

    /// What dropping the region writes: the region cleared unless finished,
    /// and the cursor shown again.
    pub fn release(&mut self) -> (s: String)
        ensures
            (s@, final(self).state()) == release_spec(old(self).state()),
    {
        let mut out: Vec<char> = Vec::new();
        if !self.finished {
            out = self.clear_live();
        }
        let tail = self.show_cursor();
        push_chars(&mut out, &tail);
        string_from_chars(&out)
    }
}

/// Starts live regions with one theme and one terminal setting.
pub struct Ui {
    theme: Theme,
    interactive: bool,
}

impl Ui {
    pub fn new(theme: Theme, interactive: bool) -> (u: Ui)
        ensures
            u.theme() == theme,
            u.interactive() == interactive,
    {
        Ui { theme, interactive }
    }

    pub closed spec fn theme(&self) -> Theme {
        self.theme
    }

    pub closed spec fn interactive(&self) -> bool {
        self.interactive
    }

    pub fn start_layer(&self, id: &str, now: u64) -> (l: Live)
        ensures
            l.state().layer == sanitize_spec(id@),
            l.state().color == self.theme().color,
            l.state().interactive == self.interactive(),
            l.state().started == now,
            l.state().last_draw == now,
            l.state().spinner == 0,
            l.state().phase == Seq::<char>::empty(),
            l.state().partial == Seq::<char>::empty(),
            l.state().history == Seq::<Seq<char>>::empty(),
            l.state().carry == Seq::<u8>::empty(),
            !l.state().finished,
            !l.state().rendered,
            !l.state().cursor_hidden,
    {
        self.start_task(id, now)
    }

    pub fn start_task(&self, id: &str, now: u64) -> (l: Live)
        ensures
            l.state().layer == sanitize_spec(id@),
            l.state().color == self.theme().color,
            l.state().interactive == self.interactive(),
            l.state().started == now,
            l.state().last_draw == now,
            l.state().spinner == 0,
            l.state().phase == Seq::<char>::empty(),
            l.state().partial == Seq::<char>::empty(),
            l.state().history == Seq::<Seq<char>>::empty(),
            l.state().carry == Seq::<u8>::empty(),
            !l.state().finished,
            !l.state().rendered,
            !l.state().cursor_hidden,
    {
        Live::new(self.theme, self.interactive, id, now)
    }
}

// ---------------------------------------------------------------------------
// Lines printed around the session
// ---------------------------------------------------------------------------

/// Hosts joined by `, `.
pub open spec fn comma_join(items: Seq<Seq<char>>) -> Seq<char>
    decreases items.len(),
{
    if items.len() == 0 {
        Seq::empty()
    } else if items.len() == 1 {
        items[0]
    } else {
        comma_join(items.drop_last()) + ", "@ + items.last()
    }
}

pub open spec fn sanitized_all(items: Seq<String>) -> Seq<Seq<char>> {
    items.map_values(|s: String| sanitize_spec(s@))
}

pub const SECRET_ACCESS_HEADER: &'static str = "no secrets are exposed to the VM directly, but it can use the following pseudo tokens with the following hosts:";

/// The line for one secret: its hosts, then its name.
pub open spec fn secret_row_spec(color: bool, env: Seq<char>, hosts: Seq<String>) -> Seq<char> {
    "  "@ + paint_spec(color, MUTED, comma_join(sanitized_all(hosts))) + ": "@ + paint_spec(
        color,
        PRIMARY,
        sanitize_spec(env),
    )
}

/// What a session is told about its secrets: the header, then one line
/// per secret (at most four, then how many more), or `(none)`.
pub open spec fn secret_access_spec(color: bool, secrets: Seq<(String, Vec<String>)>) -> Seq<
    Seq<char>,
> {
    let head = seq![SECRET_ACCESS_HEADER@];
    if secrets.len() == 0 {
        head.push("  (none)"@)
    } else {
        let shown = if secrets.len() > 4 {
            4
        } else {
            secrets.len()
        };
        let rows = Seq::new(
            shown as nat,
            |i: int| secret_row_spec(color, secrets[i].0@, secrets[i].1@),
        );
        let more = if secrets.len() > 4 {
            seq![
                "  "@ + paint_spec(
                    color,
                    MUTED,
                    "[... and "@ + decimal((secrets.len() - 4) as nat) + " more]"@,
                ),
            ]
        } else {
            Seq::empty()
        };
        head + rows + more
    }
}

fn push_comma_joined(out: &mut Vec<char>, items: &Vec<String>)
    ensures
        final(out)@ == old(out)@ + comma_join(sanitized_all(items@)),
{
    let ghost start = out@;
    let mut i: usize = 0;
    while i < items.len()
        invariant
            i <= items@.len(),
            out@ == start + comma_join(sanitized_all(items@).take(i as int)),
        decreases items@.len() - i,
    {
        if i > 0 {
            push_str(out, ", ");
        }
        let raw = chars_of(items[i].as_str());
        let clean = sanitize_chars(&raw);
        push_chars(out, &clean);
        proof {
            let t = sanitized_all(items@).take(i + 1);
            assert(t.drop_last() =~= sanitized_all(items@).take(i as int));
            assert(t.last() == clean@);
            if i == 0 {
                assert(t.len() == 1);
            }
        }
        i = i + 1;
        assert(out@ =~= start + comma_join(sanitized_all(items@).take(i as int)));
    }
    assert(sanitized_all(items@).take(items@.len() as int) =~= sanitized_all(items@));
}

impl Ui {
    /// `secret_access`: the lines that name the pseudo tokens a session
    /// can use and the hosts each is good for; no secret value appears.
    pub fn secret_access(&self, secrets: &[(String, Vec<String>)]) -> (lines: Vec<String>)
        ensures
            lines@.map_values(|l: String| l@) == secret_access_spec(self.theme().color, secrets@),
    {
        let color = self.theme.color;
        let mut lines: Vec<String> = Vec::new();
        lines.push(SECRET_ACCESS_HEADER.to_owned());
        if secrets.len() == 0 {
            lines.push("  (none)".to_owned());
            assert(lines@.map_values(|l: String| l@) =~= secret_access_spec(color, secrets@));
            return lines;
        }
        let shown: usize = if secrets.len() > 4 {
            4
        } else {
            secrets.len()
        };
        let mut i: usize = 0;
        while i < shown
            invariant
                i <= shown <= secrets@.len(),
                shown == (if secrets@.len() > 4 { 4 } else { secrets@.len() }),
                lines@.len() == 1 + i,
                lines@[0]@ == SECRET_ACCESS_HEADER@,
                forall|k: int|
                    0 <= k < i ==> (#[trigger] lines@[1 + k])@ == secret_row_spec(
                        color,
                        secrets@[k].0@,
                        secrets@[k].1@,
                    ),
            decreases shown - i,
        {
            let mut row: Vec<char> = Vec::new();
            push_str(&mut row, "  ");
            let mut hosts: Vec<char> = Vec::new();
            push_comma_joined(&mut hosts, &secrets[i].1);
            assert(hosts@ =~= comma_join(sanitized_all(secrets@[i as int].1@)));
            push_paint(&mut row, color, MUTED, &hosts);
            push_str(&mut row, ": ");
            let raw = chars_of(secrets[i].0.as_str());
            let env = sanitize_chars(&raw);
            push_paint(&mut row, color, PRIMARY, &env);
            assert(row@ =~= secret_row_spec(color, secrets@[i as int].0@, secrets@[i as int].1@));
            lines.push(string_from_chars(&row));
            i = i + 1;
        }
        let ghost spec = secret_access_spec(color, secrets@);
        assert forall|k: int| 0 <= k < 1 + shown implies #[trigger] lines@[k]@ == spec[k] by {
            if k >= 1 {
                assert(lines@[1 + (k - 1)]@ == secret_row_spec(
                    color,
                    secrets@[k - 1].0@,
                    secrets@[k - 1].1@,
                ));
            }
        }
        if secrets.len() > 4 {
            let mut text: Vec<char> = Vec::new();
            push_str(&mut text, "[... and ");
            push_decimal(&mut text, (secrets.len() - 4) as u64);
            push_str(&mut text, " more]");
            let mut row: Vec<char> = Vec::new();
            push_str(&mut row, "  ");
            push_paint(&mut row, color, MUTED, &text);
            assert(row@ =~= "  "@ + paint_spec(
                color,
                MUTED,
                "[... and "@ + decimal((secrets@.len() - 4) as nat) + " more]"@,
            ));
            lines.push(string_from_chars(&row));
        }
        assert(lines@.len() == spec.len());
        assert(lines@.map_values(|l: String| l@) =~= spec);
        lines
    }

    /// `attached`: the line printed when the terminal attaches to the VM.
    pub fn attached(&self) -> (s: String)
        ensures
            s@ == "  "@ + paint_spec(self.theme().color, OK, "fully attached"@),
    {
        let mut out: Vec<char> = Vec::new();
        push_str(&mut out, "  ");
        push_paint_str(&mut out, self.theme.color, OK, "fully attached");
        string_from_chars(&out)
    }
}

/// `spin_period`: milliseconds between spinner frames.
pub fn spin_period() -> (ms: u64)
    ensures
        ms == SPIN_EVERY_MS,
{
    SPIN_EVERY_MS
}

/// The width of the terminal on stderr, from what the terminal reports or
/// else from `COLUMNS`; narrower than 20 cells, or unknown, counts as 80.
pub open spec fn stderr_width_spec(tty: Option<usize>, columns: Option<Seq<char>>) -> nat {
    let candidate = match tty {
        Some(n) => Some(n as nat),
        None => match columns {
            Some(c) => crate::methods::parse_usize_spec(c),
            None => None,
        },
    };
    match candidate {
        Some(n) => if n >= MIN_WIDTH {
            n
        } else {
            DEFAULT_WIDTH as nat
        },
        None => DEFAULT_WIDTH as nat,
    }
}

/// `stderr_width`, given the terminal's column count (if it reports one)
/// and `COLUMNS` (if set).
pub fn stderr_width(tty: Option<usize>, columns: Option<&str>) -> (w: usize)
    ensures
        w == stderr_width_spec(
            tty,
            match columns {
                Some(c) => Some(c@),
                None => None,
            },
        ),
{
    let candidate = match tty {
        Some(n) => Some(n),
        None => match columns {
            Some(c) => {
                let v = chars_of(c);
                crate::methods::parse_usize(&v)
            },
            None => None,
        },
    };
    match candidate {
        Some(n) => if n >= MIN_WIDTH {
            n
        } else {
            DEFAULT_WIDTH
        },
        None => DEFAULT_WIDTH,
    }
}

} // verus!
