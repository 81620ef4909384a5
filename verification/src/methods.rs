//! The in-VM file methods (`ls`, `read`, `write`, `find`, `grep`, `bash`):
//! parsing their arguments and the shell script each one runs.
//!
//! Selectors follow the omp/pi convention: `file`, `file:5`, `file:5-10`,
//! `file:5:2`.

use vstd::prelude::*;
use crate::shell::{push_joined, push_quoted, shell_join_spec, shell_quote_spec, WORKSPACE};
use crate::text::{
    chars_eq, chars_of, find_char, first_index_of, is_ascii_digit, is_ascii_digit_char, last_index_of, push_chars, push_decimal, push_str,
    rfind_char, slice_chars, string_from_chars, decimal,
};

verus! {

// ---------------------------------------------------------------------------
// Line numbers
// ---------------------------------------------------------------------------

pub open spec fn digit_value(c: char) -> nat {
    ((c as u32) - ('0' as u32)) as nat
}

pub open spec fn all_digits(s: Seq<char>) -> bool {
    forall|i: int| 0 <= i < s.len() ==> is_ascii_digit_char(#[trigger] s[i])
}

/// The value of a string of decimal digits.
pub open spec fn digits_value(s: Seq<char>) -> nat
    decreases s.len(),
{
    if s.len() == 0 {
        0
    } else {
        digits_value(s.drop_last()) * 10 + digit_value(s.last())
    }
}

/// `usize::from_str`: an optional `+` and at least one decimal digit, with a
/// value that fits a `usize`.
pub open spec fn parse_usize_spec(s: Seq<char>) -> Option<nat> {
    let d = if s.len() > 0 && s[0] == '+' {
        s.drop_first()
    } else {
        s
    };
    if d.len() > 0 && all_digits(d) && digits_value(d) <= usize::MAX {
        Some(digits_value(d))
    } else {
        None
    }
}

/// A 1-based line number.
pub open spec fn parse_line_spec(s: Seq<char>) -> Option<nat> {
    match parse_usize_spec(s) {
        Some(n) => if n >= 1 {
            Some(n)
        } else {
            None
        },
        None => None,
    }
}

proof fn lemma_digits_value_mono(s: Seq<char>, k: int)
    requires
        0 <= k <= s.len(),
        all_digits(s),
    ensures
        digits_value(s.take(k)) <= digits_value(s),
    decreases s.len() - k,
{
    if k < s.len() {
        assert(s.drop_last().take(k) =~= s.take(k));
        lemma_digits_value_mono(s.drop_last(), k);
    } else {
        assert(s.take(k) =~= s);
    }
}

pub fn parse_usize(s: &[char]) -> (r: Option<usize>)
    ensures
        match r {
            Some(n) => parse_usize_spec(s@) == Some(n as nat),
            None => parse_usize_spec(s@) is None,
        },
{
    let start: usize = if s.len() > 0 && s[0] == '+' { 1 } else { 0 };
    let ghost d = if s@.len() > 0 && s@[0] == '+' {
        s@.drop_first()
    } else {
        s@
    };
    assert(d =~= s@.skip(start as int));
    if start >= s.len() {
        return None;
    }
    let mut value: usize = 0;
    let mut i: usize = start;
    while i < s.len()
        invariant
            start <= i <= s@.len(),
            d == s@.skip(start as int),
            d == (if s@.len() > 0 && s@[0] == '+' {
                s@.drop_first()
            } else {
                s@
            }),
            all_digits(d.take(i - start)),
            value as nat == digits_value(d.take(i - start)),
        decreases s@.len() - i,
    {
        let c = s[i];
        proof {
            assert(d.take(i + 1 - start).drop_last() =~= d.take(i - start));
            assert(d.take(i + 1 - start).last() == c);
        }
        if !is_ascii_digit(c) {
            proof {
                assert(d[i - start] == c);
                assert(!is_ascii_digit_char(d[i - start]));
                assert(!all_digits(d));
                assert(parse_usize_spec(s@) is None);
            }
            return None;
        }
        let dv = (c as u32 - '0' as u32) as usize;
        if value > (usize::MAX - dv) / 10 {
            proof {
                let q = ((usize::MAX - dv) / 10) as int;
                let vv = value as int;
                let dd = dv as int;
                let m = usize::MAX as int;
                assert(vv * 10 + dd > m) by (nonlinear_arith)
                    requires
                        vv > q,
                        q == (m - dd) / 10,
                        0 <= dd <= 9,
                        dd <= m,
                ;
                assert(digits_value(d.take(i + 1 - start)) == value * 10 + digit_value(c));
                assert(digits_value(d.take(i + 1 - start)) > usize::MAX);
                if all_digits(d) {
                    lemma_digits_value_mono(d, i + 1 - start);
                }
            }
            return None;
        }
        value = value * 10 + dv;
        i = i + 1;
    }
    proof {
        assert(d.take(s@.len() - start) =~= d);
    }
    Some(value)
}

/// `parse_line`: a line number of at least one.
pub fn parse_line(raw: &[char]) -> (r: Option<usize>)
    ensures
        match r {
            Some(n) => parse_line_spec(raw@) == Some(n as nat),
            None => parse_line_spec(raw@) is None,
        },
{
    match parse_usize(raw) {
        Some(n) => if n >= 1 {
            Some(n)
        } else {
            None
        },
        None => None,
    }
}

// ---------------------------------------------------------------------------
// Paths and selectors
// ---------------------------------------------------------------------------

/// A guest path: the workspace for `` and `.`, absolute paths unchanged,
/// relative paths under the workspace.
pub open spec fn guest_path_spec(raw: Seq<char>) -> Seq<char> {
    if raw.len() == 0 || raw == "."@ {
        WORKSPACE@
    } else if raw[0] == '/' {
        raw
    } else {
        WORKSPACE@ + "/"@ + raw
    }
}

pub fn guest_path_chars(raw: &[char]) -> (out: Vec<char>)
    ensures
        out@ == guest_path_spec(raw@),
{
    proof {
        reveal_strlit(".");
    }
    let dot = chars_of(".");
    if raw.len() == 0 || chars_eq(raw, &dot) {
        return chars_of(WORKSPACE);
    }
    if raw[0] == '/' {
        return slice_chars(raw, 0, raw.len());
    }
    let mut out = chars_of(WORKSPACE);
    push_str(&mut out, "/");
    push_chars(&mut out, raw);
    out
}

/// `guest_path`: where `raw` points inside the guest.
pub fn guest_path(raw: &str) -> (s: String)
    ensures
        s@ == guest_path_spec(raw@),
{
    let v = chars_of(raw);
    let out = guest_path_chars(&v);
    string_from_chars(&out)
}

/// Which lines of a file to read.
#[derive(Clone, Copy, Debug, PartialEq, Eq, Structural)]
pub enum LineSpec {
    All,
    From(usize),
    Range { start: usize, end: usize },
    Count { start: usize, count: usize },
}

#[derive(Clone, Debug, PartialEq, Eq)]
pub struct Selector {
    pub path: String,
    pub lines: LineSpec,
}

/// `path:start:count`, split at the last two colons.
pub open spec fn split_count_spec(raw: Seq<char>) -> Option<(Seq<char>, nat, nat)> {
    let c1 = last_index_of(raw, ':');
    if c1 < 0 {
        None
    } else {
        let left = raw.take(c1);
        match parse_line_spec(raw.skip(c1 + 1)) {
            None => None,
            Some(count) => {
                let c2 = last_index_of(left, ':');
                if c2 < 0 {
                    None
                } else {
                    match parse_line_spec(left.skip(c2 + 1)) {
                        None => None,
                        Some(start) => if c2 == 0 {
                            None
                        } else {
                            Some((left.take(c2), start, count))
                        },
                    }
                }
            },
        }
    }
}

/// `path:start-end`, split at the last colon and the first dash after it.
pub open spec fn split_range_spec(raw: Seq<char>) -> Option<(Seq<char>, nat, nat)> {
    let c = last_index_of(raw, ':');
    if c < 0 {
        None
    } else {
        let span = raw.skip(c + 1);
        let d = first_index_of(span, '-');
        if d < 0 {
            None
        } else {
            match (parse_line_spec(span.take(d)), parse_line_spec(span.skip(d + 1))) {
                (Some(start), Some(end)) => if c == 0 || start > end {
                    None
                } else {
                    Some((raw.take(c), start, end))
                },
                _ => None,
            }
        }
    }
}

/// `path:start`, split at the last colon.
pub open spec fn split_from_spec(raw: Seq<char>) -> Option<(Seq<char>, nat)> {
    let c = last_index_of(raw, ':');
    if c < 0 {
        None
    } else {
        match parse_line_spec(raw.skip(c + 1)) {
            None => None,
            Some(start) => if c == 0 {
                None
            } else {
                Some((raw.take(c), start))
            },
        }
    }
}

/// The selector a raw `read` argument names: the first of the count, range
/// and start forms that matches, else the whole file.
pub open spec fn selector_spec(raw: Seq<char>) -> (Seq<char>, LineSpec) {
    match split_count_spec(raw) {
        Some((path, start, count)) => (
            guest_path_spec(path),
            LineSpec::Count { start: start as usize, count: count as usize },
        ),
        None => match split_range_spec(raw) {
            Some((path, start, end)) => (
                guest_path_spec(path),
                LineSpec::Range { start: start as usize, end: end as usize },
            ),
            None => match split_from_spec(raw) {
                Some((path, start)) => (guest_path_spec(path), LineSpec::From(start as usize)),
                None => (guest_path_spec(raw), LineSpec::All),
            },
        },
    }
}

fn split_count(raw: &[char]) -> (r: Option<(Vec<char>, usize, usize)>)
    ensures
        match r {
            Some((path, start, count)) => split_count_spec(raw@) == Some(
                (path@, start as nat, count as nat),
            ),
            None => split_count_spec(raw@) is None,
        },
{
    let n = raw.len();
    proof {
        crate::text::lemma_last_index_of(raw@, ':');
    }
    let c1 = match rfind_char(raw, ':') {
        Some(c) => c,
        None => return None,
    };
    let count_part = slice_chars(raw, c1 + 1, raw.len());
    assert(count_part@ =~= raw@.skip(c1 + 1));
    let count = match parse_line(&count_part) {
        Some(n) => n,
        None => return None,
    };
    let left = slice_chars(raw, 0, c1);
    assert(left@ =~= raw@.take(c1 as int));
    proof {
        crate::text::lemma_last_index_of(left@, ':');
    }
    let c2 = match rfind_char(&left, ':') {
        Some(c) => c,
        None => return None,
    };
    let start_part = slice_chars(&left, c2 + 1, left.len());
    assert(start_part@ =~= left@.skip(c2 + 1));
    let start = match parse_line(&start_part) {
        Some(n) => n,
        None => return None,
    };
    if c2 == 0 {
        return None;
    }
    let path = slice_chars(&left, 0, c2);
    assert(path@ =~= left@.take(c2 as int));
    Some((path, start, count))
}

fn split_range(raw: &[char]) -> (r: Option<(Vec<char>, usize, usize)>)
    ensures
        match r {
            Some((path, start, end)) => split_range_spec(raw@) == Some(
                (path@, start as nat, end as nat),
            ),
            None => split_range_spec(raw@) is None,
        },
{
    let n = raw.len();
    proof {
        crate::text::lemma_last_index_of(raw@, ':');
    }
    let c = match rfind_char(raw, ':') {
        Some(c) => c,
        None => return None,
    };
    let span = slice_chars(raw, c + 1, raw.len());
    assert(span@ =~= raw@.skip(c + 1));
    proof {
        crate::text::lemma_first_index_of(span@, '-');
    }
    let d = match find_char(&span, '-') {
        Some(d) => d,
        None => return None,
    };
    let a = slice_chars(&span, 0, d);
    let b = slice_chars(&span, d + 1, span.len());
    assert(a@ =~= span@.take(d as int));
    assert(b@ =~= span@.skip(d + 1));
    let start = match parse_line(&a) {
        Some(n) => n,
        None => return None,
    };
    let end = match parse_line(&b) {
        Some(n) => n,
        None => return None,
    };
    if c == 0 || start > end {
        return None;
    }
    let path = slice_chars(raw, 0, c);
    assert(path@ =~= raw@.take(c as int));
    Some((path, start, end))
}

fn split_from(raw: &[char]) -> (r: Option<(Vec<char>, usize)>)
    ensures
        match r {
            Some((path, start)) => split_from_spec(raw@) == Some((path@, start as nat)),
            None => split_from_spec(raw@) is None,
        },
{
    let n = raw.len();
    proof {
        crate::text::lemma_last_index_of(raw@, ':');
    }
    let c = match rfind_char(raw, ':') {
        Some(c) => c,
        None => return None,
    };
    let part = slice_chars(raw, c + 1, raw.len());
    assert(part@ =~= raw@.skip(c + 1));
    let start = match parse_line(&part) {
        Some(n) => n,
        None => return None,
    };
    if c == 0 {
        return None;
    }
    let path = slice_chars(raw, 0, c);
    assert(path@ =~= raw@.take(c as int));
    Some((path, start))
}

/// `parse_selector`: a `read` argument as a guest path and a line selection.
pub fn parse_selector(raw: &str) -> (sel: Selector)
    ensures
        (sel.path@, sel.lines) == selector_spec(raw@),
{
    let v = chars_of(raw);
    match split_count(&v) {
        Some((path, start, count)) => {
            let p = guest_path_chars(&path);
            return Selector {
                path: string_from_chars(&p),
                lines: LineSpec::Count { start, count },
            };
        },
        None => {},
    }
    match split_range(&v) {
        Some((path, start, end)) => {
            let p = guest_path_chars(&path);
            return Selector { path: string_from_chars(&p), lines: LineSpec::Range { start, end } };
        },
        None => {},
    }
    match split_from(&v) {
        Some((path, start)) => {
            let p = guest_path_chars(&path);
            return Selector { path: string_from_chars(&p), lines: LineSpec::From(start) };
        },
        None => {},
    }
    let p = guest_path_chars(&v);
    Selector { path: string_from_chars(&p), lines: LineSpec::All }
}

// ---------------------------------------------------------------------------
// Methods
// ---------------------------------------------------------------------------

#[derive(Clone, Debug, PartialEq, Eq)]
pub enum Method {
    Ls { args: Vec<String> },
    Grep { pattern: String, args: Vec<String> },
    Read { selector: Selector },
    Write { path: String, content: Option<String> },
    Bash { script: String },
    Find { args: Vec<String> },
}

/// A method with its strings as character sequences.
pub enum MethodSpec {
    Ls { args: Seq<Seq<char>> },
    Grep { pattern: Seq<char>, args: Seq<Seq<char>> },
    Read { path: Seq<char>, lines: LineSpec },
    Write { path: Seq<char>, content: Option<Seq<char>> },
    Bash { script: Seq<char> },
    Find { args: Seq<Seq<char>> },
}

pub open spec fn strings_view(v: Seq<String>) -> Seq<Seq<char>> {
    v.map_values(|s: String| s@)
}

/// Words joined by single spaces.
pub open spec fn join_words(words: Seq<Seq<char>>) -> Seq<char>
    decreases words.len(),
{
    if words.len() == 0 {
        Seq::empty()
    } else if words.len() == 1 {
        words[0]
    } else {
        join_words(words.drop_last()) + " "@ + words.last()
    }
}

impl Method {
    pub open spec fn view(&self) -> MethodSpec {
        match self {
            Method::Ls { args } => MethodSpec::Ls { args: strings_view(args@) },
            Method::Grep { pattern, args } => MethodSpec::Grep {
                pattern: pattern@,
                args: strings_view(args@),
            },
            Method::Read { selector } => MethodSpec::Read {
                path: selector.path@,
                lines: selector.lines,
            },
            Method::Write { path, content } => MethodSpec::Write {
                path: path@,
                content: match content {
                    Some(c) => Some(c@),
                    None => None,
                },
            },
            Method::Bash { script } => MethodSpec::Bash { script: script@ },
            Method::Find { args } => MethodSpec::Find { args: strings_view(args@) },
        }
    }
}

/// The method a command line names, if it is one: `ls [args]`,
/// `grep PATTERN [args]`, `read SELECTOR`, `write PATH [content]`,
/// `bash SCRIPT...` and `find [args]`.
pub open spec fn method_spec(command: Seq<Seq<char>>) -> Option<MethodSpec> {
    if command.len() == 0 {
        None
    } else {
        let name = command[0];
        let rest = command.skip(1);
        if name == "ls"@ {
            Some(MethodSpec::Ls { args: rest })
        } else if name == "grep"@ {
            if rest.len() == 0 {
                None
            } else {
                Some(MethodSpec::Grep { pattern: rest[0], args: rest.skip(1) })
            }
        } else if name == "read"@ {
            if rest.len() == 0 {
                None
            } else {
                let (path, lines) = selector_spec(rest[0]);
                Some(MethodSpec::Read { path, lines })
            }
        } else if name == "write"@ {
            if rest.len() == 0 {
                None
            } else {
                Some(
                    MethodSpec::Write {
                        path: guest_path_spec(rest[0]),
                        content: if rest.len() == 1 {
                            None
                        } else {
                            Some(join_words(rest.skip(1)))
                        },
                    },
                )
            }
        } else if name == "bash"@ {
            if rest.len() == 0 {
                None
            } else {
                Some(MethodSpec::Bash { script: join_words(rest) })
            }
        } else if name == "find"@ {
            Some(MethodSpec::Find { args: rest })
        } else {
            None
        }
    }
}

/// The strings `v[from..]`.
pub fn strings_from(v: &[String], from: usize) -> (out: Vec<String>)
    requires
        from <= v@.len(),
    ensures
        strings_view(out@) == strings_view(v@).skip(from as int),
{
    let mut out: Vec<String> = Vec::new();
    let mut i = from;
    while i < v.len()
        invariant
            from <= i <= v@.len(),
            strings_view(out@) =~= strings_view(v@).subrange(from as int, i as int),
        decreases v@.len() - i,
    {
        let s = v[i].clone();
        let ghost before = out@;
        out.push(s);
        proof {
            assert(strings_view(out@) =~= strings_view(before).push(v@[i as int]@));
            assert(strings_view(v@).subrange(from as int, i + 1) =~= strings_view(v@).subrange(
                from as int,
                i as int,
            ).push(v@[i as int]@));
        }
        i = i + 1;
    }
    out
}

/// `v[from..].join(" ")`.
pub fn join_from(v: &[String], from: usize) -> (s: String)
    requires
        from <= v@.len(),
    ensures
        s@ == join_words(strings_view(v@).skip(from as int)),
{
    let ghost words = strings_view(v@).skip(from as int);
    let mut out: Vec<char> = Vec::new();
    let mut i = from;
    while i < v.len()
        invariant
            from <= i <= v@.len(),
            words == strings_view(v@).skip(from as int),
            out@ == join_words(words.take(i - from)),
        decreases v@.len() - i,
    {
        if i > from {
            push_str(&mut out, " ");
        }
        push_str(&mut out, v[i].as_str());
        proof {
            let t = words.take(i + 1 - from);
            assert(t.drop_last() =~= words.take(i - from));
            assert(t.last() == v@[i as int]@);
        }
        i = i + 1;
    }
    assert(words.take(v@.len() - from) =~= words);
    string_from_chars(&out)
}

fn name_is(name: &String, want: &str) -> (r: bool)
    ensures
        r == (name@ == want@),
{
    crate::text::text_eq(name.as_str(), want)
}

impl Method {
    /// `Method::parse`: the method that a command line names, if any.
    pub fn parse(command: &[String]) -> (m: Option<Method>)
        ensures
            match m {
                Some(m) => method_spec(strings_view(command@)) == Some(m.view()),
                None => method_spec(strings_view(command@)) is None,
            },
    {
        let ghost cmd = strings_view(command@);
        if command.len() == 0 {
            return None;
        }
        let name = &command[0];
        assert(cmd[0] == name@);
        assert(cmd.skip(1) =~= strings_view(command@).skip(1));
        if name_is(name, "ls") {
            let args = strings_from(command, 1);
            return Some(Method::Ls { args });
        }
        if name_is(name, "grep") {
            if command.len() < 2 {
                return None;
            }
            let pattern = command[1].clone();
            let args = strings_from(command, 2);
            assert(strings_view(command@).skip(2) =~= cmd.skip(1).skip(1));
            return Some(Method::Grep { pattern, args });
        }
        if name_is(name, "read") {
            if command.len() < 2 {
                return None;
            }
            let selector = parse_selector(command[1].as_str());
            return Some(Method::Read { selector });
        }
        if name_is(name, "write") {
            if command.len() < 2 {
                return None;
            }
            let path = guest_path(command[1].as_str());
            let content = if command.len() == 2 {
                None
            } else {
                assert(strings_view(command@).skip(2) =~= cmd.skip(1).skip(1));
                Some(join_from(command, 2))
            };
            return Some(Method::Write { path, content });
        }
        if name_is(name, "bash") {
            if command.len() < 2 {
                return None;
            }
            let script = join_from(command, 1);
            return Some(Method::Bash { script });
        }
        if name_is(name, "find") {
            let args = strings_from(command, 1);
            return Some(Method::Find { args });
        }
        None
    }
}

// ---------------------------------------------------------------------------
// Scripts
// ---------------------------------------------------------------------------

pub open spec fn is_flag(a: Seq<char>) -> bool {
    a.len() > 0 && a[0] == '-'
}

pub open spec fn ls_arg_spec(a: Seq<char>) -> Seq<char> {
    if is_flag(a) {
        a
    } else {
        guest_path_spec(a)
    }
}

/// `ls -la` of the workspace; bare flags apply to the workspace; other
/// arguments are guest paths.
pub open spec fn ls_script_spec(args: Seq<Seq<char>>) -> Seq<char> {
    if args.len() == 0 {
        "ls -la -- "@ + shell_quote_spec(WORKSPACE@)
    } else if forall|i: int| 0 <= i < args.len() ==> is_flag(#[trigger] args[i]) {
        "ls "@ + shell_join_spec(args) + " -- "@ + shell_quote_spec(WORKSPACE@)
    } else {
        "ls -la -- "@ + shell_join_spec(args.map_values(|a: Seq<char>| ls_arg_spec(a)))
    }
}

/// Recursive `grep -n -R` of a pattern under the workspace or a guest path.
pub open spec fn grep_script_spec(pattern: Seq<char>, args: Seq<Seq<char>>) -> Seq<char> {
    let path = if args.len() == 0 {
        WORKSPACE@
    } else {
        guest_path_spec(args[0])
    };
    let extra = if args.len() > 1 {
        " "@ + shell_join_spec(args.skip(1))
    } else {
        Seq::empty()
    };
    "grep -n -R -- "@ + shell_quote_spec(pattern) + " "@ + shell_quote_spec(path) + extra
}

pub open spec fn sat_sub_one(n: nat) -> nat {
    if n == 0 {
        0
    } else {
        (n - 1) as nat
    }
}

pub open spec fn sat_add(a: nat, b: nat) -> nat {
    if a + b > usize::MAX {
        usize::MAX as nat
    } else {
        a + b
    }
}

/// `cat`, `tail -n +N` or `sed -n 'A,Bp'` of the selected lines.
pub open spec fn read_script_spec(path: Seq<char>, lines: LineSpec) -> Seq<char> {
    let p = shell_quote_spec(path);
    match lines {
        LineSpec::All => "cat -- "@ + p,
        LineSpec::From(start) => "tail -n +"@ + decimal(start as nat) + " -- "@ + p,
        LineSpec::Range { start, end } => "sed -n '"@ + decimal(start as nat) + ","@ + decimal(
            end as nat,
        ) + "p' -- "@ + p,
        LineSpec::Count { start, count } => "sed -n '"@ + decimal(start as nat) + ","@ + decimal(
            sat_add(start as nat, sat_sub_one(count as nat)),
        ) + "p' -- "@ + p,
    }
}

/// `find` under the workspace or a guest path, with the remaining arguments.
pub open spec fn find_script_spec(args: Seq<Seq<char>>) -> Seq<char> {
    if args.len() == 0 {
        "find "@ + shell_quote_spec(WORKSPACE@)
    } else if is_flag(args[0]) {
        "find "@ + shell_quote_spec(WORKSPACE@) + " "@ + shell_join_spec(args)
    } else if args.len() == 1 {
        "find "@ + shell_quote_spec(guest_path_spec(args[0]))
    } else {
        "find "@ + shell_quote_spec(guest_path_spec(args[0])) + " "@ + shell_join_spec(
            args.skip(1),
        )
    }
}

/// The script with the user and mise bin directories first on `PATH`.
pub open spec fn bash_script_spec(script: Seq<char>) -> Seq<char> {
    "export PATH=\"/root/.local/bin:/root/.local/share/mise/shims:$PATH\"; "@ + script
}

fn push_quoted_str(out: &mut Vec<char>, s: &str)
    ensures
        final(out)@ == old(out)@ + shell_quote_spec(s@),
{
    let v = chars_of(s);
    push_quoted(out, &v);
}

fn is_flag_str(a: &String) -> (b: bool)
    ensures
        b == is_flag(a@),
{
    let v = chars_of(a.as_str());
    v.len() > 0 && v[0] == '-'
}

/// `ls_script`.
pub fn ls_script(args: &[String]) -> (s: String)
    ensures
        s@ == ls_script_spec(strings_view(args@)),
{
    let ghost words = strings_view(args@);
    let mut out: Vec<char> = Vec::new();
    if args.len() == 0 {
        push_str(&mut out, "ls -la -- ");
        push_quoted_str(&mut out, WORKSPACE);
        return string_from_chars(&out);
    }
    let mut all_flags = true;
    let mut i: usize = 0;
    while i < args.len()
        invariant
            i <= args@.len(),
            words == strings_view(args@),
            all_flags == forall|j: int| 0 <= j < i ==> is_flag(#[trigger] words[j]),
        decreases args@.len() - i,
    {
        let f = is_flag_str(&args[i]);
        assert(words[i as int] == args@[i as int]@);
        if !f {
            all_flags = false;
        }
        i = i + 1;
    }
    if all_flags {
        push_str(&mut out, "ls ");
        push_joined(&mut out, args);
        push_str(&mut out, " -- ");
        push_quoted_str(&mut out, WORKSPACE);
        return string_from_chars(&out);
    }
    let mut mapped: Vec<String> = Vec::new();
    let mut k: usize = 0;
    while k < args.len()
        invariant
            k <= args@.len(),
            words == strings_view(args@),
            strings_view(mapped@) =~= words.take(k as int).map_values(
                |a: Seq<char>| ls_arg_spec(a),
            ),
        decreases args@.len() - k,
    {
        let item = if is_flag_str(&args[k]) {
            args[k].clone()
        } else {
            guest_path(args[k].as_str())
        };
        let ghost before = mapped@;
        mapped.push(item);
        proof {
            assert(strings_view(mapped@) =~= strings_view(before).push(ls_arg_spec(words[k as int])));
            assert(words.take(k + 1).map_values(|a: Seq<char>| ls_arg_spec(a)) =~= words.take(
                k as int,
            ).map_values(|a: Seq<char>| ls_arg_spec(a)).push(ls_arg_spec(words[k as int])));
        }
        k = k + 1;
    }
    assert(words.take(args@.len() as int) =~= words);
    push_str(&mut out, "ls -la -- ");
    push_joined(&mut out, &mapped);
    string_from_chars(&out)
}

/// `grep_script`.
pub fn grep_script(pattern: &str, args: &[String]) -> (s: String)
    ensures
        s@ == grep_script_spec(pattern@, strings_view(args@)),
{
    let path = if args.len() == 0 {
        crate::text::concat(WORKSPACE, "")
    } else {
        guest_path(args[0].as_str())
    };
    proof {
        assert(WORKSPACE@ + ""@ =~= WORKSPACE@) by {
            reveal_strlit("");
        }
    }
    let mut out: Vec<char> = Vec::new();
    push_str(&mut out, "grep -n -R -- ");
    push_quoted_str(&mut out, pattern);
    push_str(&mut out, " ");
    push_quoted_str(&mut out, path.as_str());
    if args.len() > 1 {
        push_str(&mut out, " ");
        let rest = strings_from(args, 1);
        push_joined(&mut out, &rest);
    }
    string_from_chars(&out)
}

/// `read_script`.
pub fn read_script(selector: &Selector) -> (s: String)
    ensures
        s@ == read_script_spec(selector.path@, selector.lines),
{
    let mut p: Vec<char> = Vec::new();
    push_quoted_str(&mut p, selector.path.as_str());
    assert(p@ =~= shell_quote_spec(selector.path@));
    let mut out: Vec<char> = Vec::new();
    match selector.lines {
        LineSpec::All => {
            push_str(&mut out, "cat -- ");
        },
        LineSpec::From(start) => {
            push_str(&mut out, "tail -n +");
            push_decimal(&mut out, start as u64);
            push_str(&mut out, " -- ");
        },
        LineSpec::Range { start, end } => {
            push_str(&mut out, "sed -n '");
            push_decimal(&mut out, start as u64);
            push_str(&mut out, ",");
            push_decimal(&mut out, end as u64);
            push_str(&mut out, "p' -- ");
        },
        LineSpec::Count { start, count } => {
            let end = start.saturating_add(count.saturating_sub(1));
            push_str(&mut out, "sed -n '");
            push_decimal(&mut out, start as u64);
            push_str(&mut out, ",");
            push_decimal(&mut out, end as u64);
            push_str(&mut out, "p' -- ");
        },
    }
    push_chars(&mut out, &p);
    string_from_chars(&out)
}

/// `find_script`.
pub fn find_script(args: &[String]) -> (s: String)
    ensures
        s@ == find_script_spec(strings_view(args@)),
{
    let mut out: Vec<char> = Vec::new();
    push_str(&mut out, "find ");
    if args.len() == 0 {
        push_quoted_str(&mut out, WORKSPACE);
        return string_from_chars(&out);
    }
    if is_flag_str(&args[0]) {
        push_quoted_str(&mut out, WORKSPACE);
        push_str(&mut out, " ");
        push_joined(&mut out, args);
        return string_from_chars(&out);
    }
    let path = guest_path(args[0].as_str());
    push_quoted_str(&mut out, path.as_str());
    if args.len() == 1 {
        return string_from_chars(&out);
    }
    push_str(&mut out, " ");
    let rest = strings_from(args, 1);
    push_joined(&mut out, &rest);
    string_from_chars(&out)
}

/// `bash_script`.
pub fn bash_script(script: &str) -> (s: String)
    ensures
        s@ == bash_script_spec(script@),
{
    let mut out: Vec<char> = Vec::new();
    push_str(&mut out, "export PATH=\"/root/.local/bin:/root/.local/share/mise/shims:$PATH\"; ");
    push_str(&mut out, script);
    string_from_chars(&out)
}

/// `shell_join_local`: quoted words joined by spaces.
pub fn shell_join_local(args: &[String]) -> (s: String)
    ensures
        s@ == shell_join_spec(strings_view(args@)),
{
    crate::shell::shell_join(args)
}

/// What running a method takes: a shell script, or a file write with the
/// given content (standard input when none).
#[derive(Debug)]
pub enum MethodAction {
    Shell(String),
    Write { path: String, content: Option<String> },
}

impl Method {
    /// The action that runs this method in the guest.
    pub fn action(&self) -> (a: MethodAction)
        ensures
            match self.view() {
                MethodSpec::Ls { args } => a matches MethodAction::Shell(s) && s@ == ls_script_spec(args),
                MethodSpec::Grep { pattern, args } => a matches MethodAction::Shell(s) && s@
                    == grep_script_spec(pattern, args),
                MethodSpec::Read { path, lines } => a matches MethodAction::Shell(s) && s@
                    == read_script_spec(path, lines),
                MethodSpec::Write { path, content } => a matches MethodAction::Write {
                    path: p,
                    content: c,
                } && p@ == path && match c {
                    Some(t) => content == Some(t@),
                    None => content is None,
                },
                MethodSpec::Bash { script } => a matches MethodAction::Shell(s) && s@
                    == bash_script_spec(script),
                MethodSpec::Find { args } => a matches MethodAction::Shell(s) && s@
                    == find_script_spec(args),
            },
    {
        match self {
            Method::Ls { args } => MethodAction::Shell(ls_script(args)),
            Method::Grep { pattern, args } => MethodAction::Shell(grep_script(pattern.as_str(), args)),
            Method::Read { selector } => MethodAction::Shell(read_script(selector)),
            Method::Write { path, content } => MethodAction::Write {
                path: path.clone(),
                content: match content {
                    Some(c) => Some(c.clone()),
                    None => None,
                },
            },
            Method::Bash { script } => MethodAction::Shell(bash_script(script.as_str())),
            Method::Find { args } => MethodAction::Shell(find_script(args)),
        }
    }
}

/// What each method takes from the words of its command line: `ls` and
/// `find` take every word after the name as arguments, in order; `grep`
/// takes the first as its pattern and every later word, in order, as its
/// arguments, and needs a pattern; `read` takes its selector from the first
/// word; `write` takes its path from the first word and its content from
/// the later words, joined by spaces, if there are any; `bash` runs all the
/// words after the name joined by spaces.
pub proof fn law_method_words(first: Seq<char>, rest: Seq<Seq<char>>)
    ensures
        method_spec(seq!["ls"@] + rest) == Some(MethodSpec::Ls { args: rest }),
        method_spec(seq!["find"@] + rest) == Some(MethodSpec::Find { args: rest }),
        method_spec(seq!["grep"@, first] + rest) == Some(
            MethodSpec::Grep { pattern: first, args: rest },
        ),
        method_spec(seq!["grep"@]) is None,
        method_spec(seq!["read"@, first] + rest) == Some(
            MethodSpec::Read { path: selector_spec(first).0, lines: selector_spec(first).1 },
        ),
        method_spec(seq!["write"@, first] + rest) == Some(
            MethodSpec::Write {
                path: guest_path_spec(first),
                content: if rest.len() == 0 {
                    None
                } else {
                    Some(join_words(rest))
                },
            },
        ),
        method_spec(seq!["bash"@, first] + rest) == Some(
            MethodSpec::Bash { script: join_words(seq![first] + rest) },
        ),
{
    reveal_strlit("ls");
    reveal_strlit("find");
    reveal_strlit("grep");
    reveal_strlit("read");
    reveal_strlit("write");
    reveal_strlit("bash");
    assert("find"@[0] == 'f' && "ls"@[0] == 'l' && "grep"@[0] == 'g' && "read"@[0] == 'r'
        && "write"@[0] == 'w' && "bash"@[0] == 'b');
    assert((seq!["ls"@] + rest).skip(1) =~= rest);
    assert((seq!["find"@] + rest).skip(1) =~= rest);
    assert((seq!["grep"@, first] + rest).skip(1).skip(1) =~= rest);
    assert((seq!["grep"@, first] + rest)[0] == "grep"@);
    assert((seq!["grep"@, first] + rest).skip(1)[0] == first);
    assert(seq!["grep"@].skip(1).len() == 0);
    assert((seq!["read"@, first] + rest).skip(1)[0] == first);
    assert((seq!["read"@, first] + rest)[0] == "read"@);
    assert((seq!["write"@, first] + rest)[0] == "write"@);
    assert((seq!["write"@, first] + rest).skip(1)[0] == first);
    assert((seq!["write"@, first] + rest).skip(1).skip(1) =~= rest);
    assert((seq!["bash"@, first] + rest)[0] == "bash"@);
    assert((seq!["bash"@, first] + rest).skip(1) =~= seq![first] + rest);
    assert((seq!["ls"@] + rest)[0] == "ls"@);
    assert((seq!["find"@] + rest)[0] == "find"@);
}

/// `fast_method`: a method call unless a lifecycle flag is set.
pub fn fast_method(rebuild: bool, reset: bool, command: &[String]) -> (m: Option<Method>)
    ensures
        (rebuild || reset) ==> m is None,
        !(rebuild || reset) ==> match m {
            Some(m) => method_spec(strings_view(command@)) == Some(m.view()),
            None => method_spec(strings_view(command@)) is None,
        },
{
    if rebuild || reset {
        None
    } else {
        Method::parse(command)
    }
}

} // verus!
