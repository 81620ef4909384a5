use wrap::methods::{
    fast_method, find_script, grep_script, guest_path, ls_script, parse_selector, read_script,
    LineSpec, Method, MethodAction, Selector,
};
use wrap::shell::{shell_join, shell_quote};

fn words(w: &[&str]) -> Vec<String> {
    w.iter().map(|s| s.to_string()).collect()
}

#[test]
fn parses_omp_selectors() {
    assert_eq!(
        parse_selector("src/main.rs:5:2"),
        Selector {
            path: "/workspace/src/main.rs".into(),
            lines: LineSpec::Count { start: 5, count: 2 },
        }
    );
    assert_eq!(
        parse_selector("/workspace/foo.rs:10-12"),
        Selector {
            path: "/workspace/foo.rs".into(),
            lines: LineSpec::Range { start: 10, end: 12 },
        }
    );
    assert_eq!(
        parse_selector("README.md:3"),
        Selector {
            path: "/workspace/README.md".into(),
            lines: LineSpec::From(3),
        }
    );
    assert_eq!(parse_selector(".").path, "/workspace");
}

#[test]
fn read_script_uses_sed_count() {
    let sel = parse_selector("file:5:2");
    assert_eq!(read_script(&sel), "sed -n '5,6p' -- /workspace/file");
}

#[test]
fn parses_methods() {
    assert!(matches!(
        Method::parse(&["ls".into()]),
        Some(Method::Ls { .. })
    ));
    assert!(Method::parse(&["grep".into()]).is_none());
    assert!(matches!(
        Method::parse(&["grep".into(), "foo".into(), "src".into()]),
        Some(Method::Grep { .. })
    ));
    assert!(Method::parse(&["omp".into()]).is_none());
    assert!(Method::parse(&["bash".into()]).is_none());
    assert!(matches!(
        Method::parse(&["bash".into(), "uname".into(), "-a".into()]),
        Some(Method::Bash { script }) if script == "uname -a"
    ));
}

#[test]
fn lifecycle_flags_bypass_fast_methods() {
    let command = ["bash".to_string(), "true".to_string()];
    assert!(fast_method(false, false, &command).is_some());
    assert!(fast_method(true, false, &command).is_none());
    assert!(fast_method(false, true, &command).is_none());
}

#[test]
fn quotes_shell_args() {
    assert_eq!(shell_join(&["omp".into()]), "omp");
    assert_eq!(shell_join(&["omp".into(), "say hi".into()]), "omp 'say hi'");
}

#[test]
fn quoting_covers_empty_and_single_quotes() {
    assert_eq!(shell_quote(""), "''");
    assert_eq!(shell_quote("a/b-c_d.e:f=g"), "a/b-c_d.e:f=g");
    assert_eq!(shell_quote("it's"), "'it'\"'\"'s'");
    assert_eq!(shell_quote("$HOME"), "'$HOME'");
}

#[test]
fn guest_paths_are_rooted_in_the_workspace() {
    assert_eq!(guest_path(""), "/workspace");
    assert_eq!(guest_path("."), "/workspace");
    assert_eq!(guest_path("/etc/hosts"), "/etc/hosts");
    assert_eq!(guest_path("src/lib.rs"), "/workspace/src/lib.rs");
}

#[test]
fn selectors_without_lines_read_everything() {
    assert_eq!(parse_selector("notes.md").lines, LineSpec::All);
    assert_eq!(parse_selector("notes.md:0").lines, LineSpec::All);
    assert_eq!(parse_selector("notes.md:x").path, "/workspace/notes.md:x");
    assert_eq!(
        read_script(&parse_selector("a:7")),
        "tail -n +7 -- /workspace/a"
    );
    assert_eq!(
        read_script(&parse_selector("a:2-4")),
        "sed -n '2,4p' -- /workspace/a"
    );
    assert_eq!(read_script(&parse_selector("a")), "cat -- /workspace/a");
}

#[test]
fn method_scripts_quote_their_arguments() {
    assert_eq!(ls_script(&[]), "ls -la -- /workspace");
    assert_eq!(ls_script(&words(&["-R"])), "ls -R -- /workspace");
    assert_eq!(ls_script(&words(&["-l", "src"])), "ls -la -- -l /workspace/src");
    assert_eq!(
        grep_script("a b", &words(&["src", "-i"])),
        "grep -n -R -- 'a b' /workspace/src -i"
    );
    assert_eq!(grep_script("x", &[]), "grep -n -R -- x /workspace");
    assert_eq!(find_script(&[]), "find /workspace");
    assert_eq!(find_script(&words(&["-name", "*.rs"])), "find /workspace -name '*.rs'");
    assert_eq!(find_script(&words(&["src", "-type", "f"])), "find /workspace/src -type f");
}

#[test]
fn write_method_carries_path_and_content() {
    let m = Method::parse(&words(&["write", "notes.md", "review notes"])).unwrap();
    match m.action() {
        MethodAction::Write { path, content } => {
            assert_eq!(path, "/workspace/notes.md");
            assert_eq!(content.as_deref(), Some("review notes"));
        }
        MethodAction::Shell(_) => panic!("write is not a shell method"),
    }
    let m = Method::parse(&words(&["bash", "cargo test"])).unwrap();
    match m.action() {
        MethodAction::Shell(s) => assert!(s.ends_with("; cargo test")),
        MethodAction::Write { .. } => panic!("bash is a shell method"),
    }
}

/// Reads one word of POSIX shell text made of plain characters, single
/// quotes and double quotes without expansions; `None` unless exactly one
/// word is there.
fn read_one_word(text: &str) -> Option<String> {
    let mut out = String::new();
    let mut chars = text.chars();
    while let Some(c) = chars.next() {
        match c {
            '\'' => loop {
                match chars.next()? {
                    '\'' => break,
                    d => out.push(d),
                }
            },
            '"' => loop {
                match chars.next()? {
                    '"' => break,
                    '$' | '`' | '\\' => return None,
                    d => out.push(d),
                }
            },
            ' ' | '\t' | '\n' | '$' | '`' | '\\' | ';' | '&' | '|' | '<' | '>' | '(' | ')' | '*'
            | '?' | '[' | '#' | '~' => return None,
            d => out.push(d),
        }
    }
    if text.is_empty() {
        None
    } else {
        Some(out)
    }
}

#[test]
fn quoted_words_read_back_unchanged() {
    for s in ["", "plain", "say hi", "it's", "''", "$HOME", "a\"b", "tab\there", "x'y'z", "*"] {
        assert_eq!(read_one_word(&shell_quote(s)), Some(s.to_string()), "{s:?}");
    }
}
