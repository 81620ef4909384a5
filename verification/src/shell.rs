//! POSIX shell quoting and the shape of generated setup scripts.

use vstd::prelude::*;
use crate::text::{chars_of, is_ascii_alnum, is_ascii_alnum_char, push_chars, push_str, string_from_chars};

verus! {

/// Where the host project is mounted in the guest.
pub const WORKSPACE: &'static str = "/workspace";

/// Characters that never need quoting.
pub open spec fn is_shell_safe_char(c: char) -> bool {
    is_ascii_alnum_char(c) || c == '-' || c == '_' || c == '.' || c == '/' || c == ':' || c == '='
}

/// Inside single quotes, a single quote becomes `'"'"'`.
pub open spec fn quote_body(s: Seq<char>) -> Seq<char>
    decreases s.len(),
{
    if s.len() == 0 {
        Seq::empty()
    } else {
        quote_body(s.drop_last()) + if s.last() == '\'' {
            "'\"'\"'"@
        } else {
            seq![s.last()]
        }
    }
}

/// One shell word: `''` for the empty string, the string itself when every
/// character is safe, else the string in single quotes.
pub open spec fn shell_quote_spec(s: Seq<char>) -> Seq<char> {
    if s.len() == 0 {
        "''"@
    } else if forall|i: int| 0 <= i < s.len() ==> is_shell_safe_char(#[trigger] s[i]) {
        s
    } else {
        "'"@ + quote_body(s) + "'"@
    }
}

/// Words quoted and joined by single spaces.
pub open spec fn shell_join_spec(args: Seq<Seq<char>>) -> Seq<char>
    decreases args.len(),
{
    if args.len() == 0 {
        Seq::empty()
    } else if args.len() == 1 {
        shell_quote_spec(args[0])
    } else {
        shell_join_spec(args.drop_last()) + " "@ + shell_quote_spec(args.last())
    }
}

fn is_shell_safe(c: char) -> (b: bool)
    ensures
        b == is_shell_safe_char(c),
{
    is_ascii_alnum(c) || c == '-' || c == '_' || c == '.' || c == '/' || c == ':' || c == '='
}

/// Appends the shell word for `s`.
pub fn push_quoted(out: &mut Vec<char>, s: &[char])
    ensures
        final(out)@ == old(out)@ + shell_quote_spec(s@),
{
    let ghost start = out@;
    if s.len() == 0 {
        push_str(out, "''");
        return;
    }
    let mut safe = true;
    let mut i: usize = 0;
    while i < s.len()
        invariant
            i <= s@.len(),
            safe == forall|j: int| 0 <= j < i ==> is_shell_safe_char(#[trigger] s@[j]),
        decreases s@.len() - i,
    {
        if !is_shell_safe(s[i]) {
            safe = false;
        }
        i = i + 1;
    }
    if safe {
        push_chars(out, s);
        return;
    }
    push_str(out, "'");
    let ghost mid = out@;
    let mut k: usize = 0;
    while k < s.len()
        invariant
            k <= s@.len(),
            out@ == mid + quote_body(s@.take(k as int)),
        decreases s@.len() - k,
    {
        proof {
            assert(s@.take(k + 1).drop_last() =~= s@.take(k as int));
        }
        if s[k] == '\'' {
            push_str(out, "'\"'\"'");
        } else {
            out.push(s[k]);
        }
        k = k + 1;
        assert(out@ =~= mid + quote_body(s@.take(k as int)));
    }
    push_str(out, "'");
    assert(s@.take(s@.len() as int) =~= s@);
    assert(out@ =~= start + shell_quote_spec(s@));
}

/// `shell_quote`: `arg` as one shell word.
pub fn shell_quote(arg: &str) -> (s: String)
    ensures
        s@ == shell_quote_spec(arg@),
{
    let v = chars_of(arg);
    let mut out: Vec<char> = Vec::new();
    push_quoted(&mut out, &v);
    assert(out@ =~= shell_quote_spec(arg@));
    string_from_chars(&out)
}

/// Appends `args`, quoted and joined by spaces.
pub fn push_joined(out: &mut Vec<char>, args: &[String])
    ensures
        final(out)@ == old(out)@ + shell_join_spec(args@.map_values(|a: String| a@)),
{
    let ghost start = out@;
    let ghost words = args@.map_values(|a: String| a@);
    let mut i: usize = 0;
    while i < args.len()
        invariant
            i <= args@.len(),
            words == args@.map_values(|a: String| a@),
            out@ == start + shell_join_spec(words.take(i as int)),
        decreases args@.len() - i,
    {
        if i > 0 {
            push_str(out, " ");
        }
        let v = chars_of(args[i].as_str());
        push_quoted(out, &v);
        proof {
            let t = words.take(i + 1);
            assert(t.drop_last() =~= words.take(i as int));
            assert(t.last() == v@);
            if i == 0 {
                assert(t.len() == 1);
            }
        }
        i = i + 1;
        assert(out@ =~= start + shell_join_spec(words.take(i as int)));
    }
    assert(words.take(args@.len() as int) =~= words);
}

/// `shell_join`: `args` as shell words separated by spaces.
pub fn shell_join(args: &[String]) -> (s: String)
    ensures
        s@ == shell_join_spec(args@.map_values(|a: String| a@)),
{
    let mut out: Vec<char> = Vec::new();
    push_joined(&mut out, args);
    assert(out@ =~= shell_join_spec(args@.map_values(|a: String| a@)));
    string_from_chars(&out)
}

/// `push_shell_arg`: a space and the shell word for `arg`.
pub fn push_shell_arg(script: &mut Vec<char>, arg: &str)
    ensures
        final(script)@ == old(script)@ + " "@ + shell_quote_spec(arg@),
{
    let ghost start = script@;
    push_str(script, " ");
    let v = chars_of(arg);
    push_quoted(script, &v);
    assert(script@ =~= start + " "@ + shell_quote_spec(arg@));
}

/// The preamble of every generated build script.
pub open spec fn build_preamble() -> Seq<char> {
    "set -eu\nexport HOME=/root\nexport USER=root\nexport PATH=\"/root/.local/bin:/root/.local/share/mise/shims:/usr/local/sbin:/usr/local/bin:/usr/sbin:/usr/bin:/sbin:/bin\"\n"@
}

/// `build_script`: a strict root shell preamble followed by `body`.
pub fn build_script(body: &str) -> (s: Vec<char>)
    ensures
        s@ == build_preamble() + body@,
{
    let mut out: Vec<char> = Vec::new();
    push_str(
        &mut out,
        "set -eu\nexport HOME=/root\nexport USER=root\nexport PATH=\"/root/.local/bin:/root/.local/share/mise/shims:/usr/local/sbin:/usr/local/bin:/usr/sbin:/usr/bin:/sbin:/bin\"\n",
    );
    push_str(&mut out, body);
    out
}

// ---------------------------------------------------------------------------
// Reading a word back
// ---------------------------------------------------------------------------

/// Where the POSIX shell's reading of a word stands: outside quotes, inside
/// single quotes, or inside double quotes.
#[derive(PartialEq, Eq, Structural)]
pub enum Quoting {
    Bare,
    Single,
    Double,
}

/// One character of a word as the shell reads it: the next quoting state
/// and the character it contributes, if any. Outside quotes a quote opens
/// quoting and a safe character stands for itself; inside single quotes
/// everything stands for itself up to the closing quote; inside double
/// quotes a single quote stands for itself. Anything else (white space,
/// expansions, escapes) is outside this reading.
pub open spec fn read_step(q: Quoting, c: char) -> Option<(Quoting, Option<char>)> {
    match q {
        Quoting::Bare => if c == '\'' {
            Some((Quoting::Single, None))
        } else if c == '"' {
            Some((Quoting::Double, None))
        } else if is_shell_safe_char(c) {
            Some((Quoting::Bare, Some(c)))
        } else {
            None
        },
        Quoting::Single => if c == '\'' {
            Some((Quoting::Bare, None))
        } else {
            Some((Quoting::Single, Some(c)))
        },
        Quoting::Double => if c == '"' {
            Some((Quoting::Bare, None))
        } else if c == '\'' {
            Some((Quoting::Double, Some(c)))
        } else {
            None
        },
    }
}

/// The characters `w` stands for, read from state `q`, and the state after
/// it.
pub open spec fn read_from(w: Seq<char>, q: Quoting) -> Option<(Seq<char>, Quoting)>
    decreases w.len(),
{
    if w.len() == 0 {
        Some((Seq::empty(), q))
    } else {
        match read_step(q, w[0]) {
            None => None,
            Some((q2, out)) => match read_from(w.drop_first(), q2) {
                None => None,
                Some((rest, end)) => Some(
                    (
                        match out {
                            Some(c) => seq![c] + rest,
                            None => rest,
                        },
                        end,
                    ),
                ),
            },
        }
    }
}

/// The single word the shell reads from `w`, if `w` is one complete word.
pub open spec fn read_word(w: Seq<char>) -> Option<Seq<char>> {
    match read_from(w, Quoting::Bare) {
        Some((v, Quoting::Bare)) => Some(v),
        _ => None,
    }
}

proof fn lemma_read_concat(a: Seq<char>, b: Seq<char>, q: Quoting)
    ensures
        read_from(a + b, q) == match read_from(a, q) {
            None => None,
            Some((v1, q1)) => match read_from(b, q1) {
                None => None,
                Some((v2, q2)) => Some((v1 + v2, q2)),
            },
        },
    decreases a.len(),
{
    if a.len() == 0 {
        assert(a + b =~= b);
        match read_from(b, q) {
            Some((v2, q2)) => {
                assert(Seq::<char>::empty() + v2 =~= v2);
            },
            None => {},
        }
    } else {
        assert((a + b).drop_first() =~= a.drop_first() + b);
        assert((a + b)[0] == a[0]);
        match read_step(q, a[0]) {
            None => {},
            Some((q2, out)) => {
                lemma_read_concat(a.drop_first(), b, q2);
                match read_from(a.drop_first(), q2) {
                    None => {},
                    Some((r1, e1)) => {
                        match read_from(b, e1) {
                            None => {},
                            Some((v2, e2)) => {
                                match out {
                                    Some(c) => {
                                        assert(seq![c] + (r1 + v2) =~= (seq![c] + r1) + v2);
                                    },
                                    None => {},
                                }
                            },
                        }
                    },
                }
            },
        }
    }
}

proof fn lemma_read_safe(s: Seq<char>)
    requires
        forall|i: int| 0 <= i < s.len() ==> is_shell_safe_char(#[trigger] s[i]),
    ensures
        read_from(s, Quoting::Bare) == Some((s, Quoting::Bare)),
    decreases s.len(),
{
    if s.len() > 0 {
        assert(is_shell_safe_char(s[0]));
        lemma_read_safe(s.drop_first());
        assert(seq![s[0]] + s.drop_first() =~= s);
    }
}

proof fn lemma_read_body(s: Seq<char>)
    ensures
        read_from(quote_body(s), Quoting::Single) == Some((s, Quoting::Single)),
    decreases s.len(),
{
    reveal_strlit("'\"'\"'");
    if s.len() > 0 {
        lemma_read_body(s.drop_last());
        let c = s.last();
        let piece = if c == '\'' {
            "'\"'\"'"@
        } else {
            seq![c]
        };
        lemma_read_concat(quote_body(s.drop_last()), piece, Quoting::Single);
        assert(read_from(piece, Quoting::Single) == Some((seq![c], Quoting::Single))) by {
            reveal_with_fuel(read_from, 6);
            if c == '\'' {
                assert(piece.drop_first().drop_first().drop_first().drop_first().drop_first()
                    =~= Seq::<char>::empty());
            } else {
                assert(piece.drop_first() =~= Seq::<char>::empty());
            }
        }
        assert(s.drop_last() + seq![c] =~= s);
    } else {
        assert(quote_body(s) =~= Seq::<char>::empty());
        assert(s =~= Seq::<char>::empty());
    }
}

/// The shell reads a quoted word back as exactly the string that was
/// quoted, the empty string included, and a non-empty string of safe
/// characters stands as it is.
pub proof fn law_quoted_word_reads_back(s: Seq<char>)
    ensures
        read_word(shell_quote_spec(s)) == Some(s),
        s.len() > 0 && (forall|i: int| 0 <= i < s.len() ==> is_shell_safe_char(#[trigger] s[i]))
            ==> shell_quote_spec(s) == s,
{
    reveal_strlit("''");
    reveal_strlit("'");
    if s.len() == 0 {
        assert(read_from("''"@, Quoting::Bare) == Some((Seq::<char>::empty(), Quoting::Bare))) by {
            reveal_with_fuel(read_from, 3);
            assert("''"@.drop_first().drop_first() =~= Seq::<char>::empty());
        }
    } else if forall|i: int| 0 <= i < s.len() ==> is_shell_safe_char(#[trigger] s[i]) {
        lemma_read_safe(s);
    } else {
        let open = "'"@;
        assert(read_from(open, Quoting::Bare) == Some((Seq::<char>::empty(), Quoting::Single))) by {
            reveal_with_fuel(read_from, 2);
            assert(open.drop_first() =~= Seq::<char>::empty());
        }
        assert(read_from(open, Quoting::Single) == Some((Seq::<char>::empty(), Quoting::Bare))) by {
            reveal_with_fuel(read_from, 2);
            assert(open.drop_first() =~= Seq::<char>::empty());
        }
        lemma_read_body(s);
        lemma_read_concat(open, quote_body(s), Quoting::Bare);
        lemma_read_concat(open + quote_body(s), open, Quoting::Bare);
        assert(Seq::<char>::empty() + s =~= s);
        assert(s + Seq::<char>::empty() =~= s);
    }
}

} // verus!
