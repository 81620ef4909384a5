use wrap::config::{
    command_value, env_value, host_value_source, mise_package, resolve_host_copies,
    resolve_secrets, validate, validate_env_name, AgentSpec, BuildConfig, CommandOutcome, Config,
    ConfigError, HostProbe, HostSource, HostValueError, LayerSpec, NetworkConfig, ResolveError, SecretSpec, DEFAULT_CONFIG_YAML,
};
use wrap::config::{env_is_ordered, resolve_host_copy, text_lt};
use wrap::yaml::{merge_documents, overlay_is_blank, Yaml};

fn yaml_of(v: serde_yaml::Value) -> Yaml {
    match v {
        serde_yaml::Value::Null => Yaml::Null,
        serde_yaml::Value::Bool(b) => Yaml::Bool(b),
        serde_yaml::Value::Number(n) => Yaml::Number(n.to_string()),
        serde_yaml::Value::String(s) => Yaml::Str(s),
        serde_yaml::Value::Sequence(items) => Yaml::Sequence(items.into_iter().map(yaml_of).collect()),
        serde_yaml::Value::Mapping(m) => {
            Yaml::Mapping(m.into_iter().map(|(k, v)| (yaml_of(k), yaml_of(v))).collect())
        }
        serde_yaml::Value::Tagged(t) => Yaml::Tagged(t.tag.to_string(), Box::new(yaml_of(t.value))),
    }
}

fn parse(text: &str) -> Yaml {
    yaml_of(serde_yaml::from_str(text).unwrap())
}

fn get<'a>(y: &'a Yaml, key: &str) -> Option<&'a Yaml> {
    match y {
        Yaml::Mapping(entries) => entries.iter().find_map(|(k, v)| match k {
            Yaml::Str(s) if s == key => Some(v),
            _ => None,
        }),
        _ => None,
    }
}

fn text(y: &Yaml) -> String {
    match y {
        Yaml::Str(s) => s.clone(),
        Yaml::Number(n) => n.clone(),
        other => panic!("not a scalar: {other:?}"),
    }
}

fn items(y: Option<&Yaml>) -> Vec<&Yaml> {
    match y {
        Some(Yaml::Sequence(v)) => v.iter().collect(),
        None => Vec::new(),
        Some(other) => panic!("not a list: {other:?}"),
    }
}

fn strings(y: Option<&Yaml>) -> Vec<String> {
    items(y).into_iter().map(text).collect()
}

/// The configuration a merged document describes (only what these tests
/// read; the application decodes it with serde).
fn config_of(y: &Yaml) -> Config {
    let build = get(y, "build");
    let num = |key: &str, default: u32| {
        build
            .and_then(|b| get(b, key))
            .map(|v| text(v).parse::<u32>().unwrap())
            .unwrap_or(default)
    };
    let network = get(y, "network");
    Config {
        build: BuildConfig {
            cpus: num("cpus", 4) as u8,
            memory: num("memory", 4096),
            memory_max: num("memory_max", 8192),
        },
        env: match get(y, "env") {
            Some(Yaml::Mapping(e)) => e.iter().map(|(k, v)| (text(k), text(v))).collect(),
            _ => Vec::new(),
        },
        secrets: items(get(y, "secrets"))
            .into_iter()
            .map(|s| SecretSpec {
                env: text(get(s, "env").unwrap()),
                host_env: text(get(s, "host-env").unwrap()),
                hosts: strings(get(s, "hosts")),
            })
            .collect(),
        network: NetworkConfig {
            allow_everything: matches!(network.and_then(|n| get(n, "allow_everything")), Some(Yaml::Bool(true))),
            allow_host: strings(network.and_then(|n| get(n, "allow_host"))),
            deny_host: strings(network.and_then(|n| get(n, "deny_host"))),
        },
        agents: items(get(y, "agents"))
            .into_iter()
            .map(|a| AgentSpec {
                name: text(get(a, "name").unwrap()),
                package: text(get(a, "package").unwrap()),
                host_copy: get(a, "host-copy").map(text),
                guest: get(a, "guest").map(text),
            })
            .collect(),
        layers: items(get(y, "layers"))
            .into_iter()
            .map(|l| LayerSpec {
                id: text(get(l, "id").unwrap()),
                script: get(l, "script").map(text).unwrap_or_default(),
            })
            .collect(),
    }
}

fn merge_config(overlay: &str) -> Config {
    let defaults = parse(DEFAULT_CONFIG_YAML);
    let overlay = if overlay_is_blank(overlay) { None } else { Some(parse(overlay)) };
    config_of(&merge_documents(defaults, overlay).unwrap())
}

fn empty_config() -> Config {
    Config {
        build: BuildConfig::default(),
        env: Vec::new(),
        secrets: Vec::new(),
        network: NetworkConfig { allow_everything: false, allow_host: Vec::new(), deny_host: Vec::new() },
        agents: Vec::new(),
        layers: Vec::new(),
    }
}

fn agent(name: &str, package: &str) -> AgentSpec {
    AgentSpec { name: name.into(), package: package.into(), host_copy: None, guest: None }
}

fn finished(success: bool, status: &str, stderr: &str, stdout: &str) -> CommandOutcome {
    CommandOutcome::Finished {
        success,
        status: status.into(),
        stderr: stderr.into(),
        stdout: Ok(stdout.into()),
    }
}

#[test]
fn supported_package_prefixes_are_explicit() {
    assert_eq!(mise_package("mise:pi@latest").unwrap(), "pi@latest");
    assert_eq!(
        mise_package("github:can1357/oh-my-pi@latest").unwrap(),
        "github:can1357/oh-my-pi@latest"
    );
    assert!(mise_package("npm:pi@latest").is_err());
    assert!(mise_package("mise:--help").is_err());
}

#[test]
fn resolves_all_three_host_value_forms() {
    match host_value_source("literal").unwrap() {
        HostSource::Literal(v) => assert_eq!(v, "literal"),
        other => panic!("{other:?}"),
    }
    match host_value_source("$(printf command)").unwrap() {
        HostSource::Command(c) => {
            assert_eq!(c, "printf command");
            let value = command_value(&c, &finished(true, "exit status: 0", "", "command")).unwrap();
            assert_eq!(value, "command");
        }
        other => panic!("{other:?}"),
    }
    match host_value_source("$WRAP_TEST_VARIABLE_THAT_MUST_NOT_EXIST").unwrap() {
        HostSource::Env(name) => {
            assert_eq!(name, "WRAP_TEST_VARIABLE_THAT_MUST_NOT_EXIST");
            let err = env_value(&name, &Err("environment variable not found".into())).unwrap_err();
            assert!(err.message().contains("is not set"));
        }
        other => panic!("{other:?}"),
    }
}

#[test]
fn failed_and_empty_secret_commands_are_fatal() {
    let failed = match host_value_source("$(printf denied >&2; exit 7)").unwrap() {
        HostSource::Command(c) => {
            command_value(&c, &finished(false, "exit status: 7", "denied", "")).unwrap_err()
        }
        other => panic!("{other:?}"),
    };
    assert!(failed.message().contains("denied"));
    let empty = match host_value_source("$(printf '')").unwrap() {
        HostSource::Command(c) => command_value(&c, &finished(true, "exit status: 0", "", "")).unwrap_err(),
        other => panic!("{other:?}"),
    };
    assert!(empty.message().contains("empty value"));
}

#[test]
fn merges_keyed_minimal_overlay() {
    let cfg = merge_config(
        "agents:\n  - name: omp\n    package: github:can1357/oh-my-pi@latest\n\
         layers:\n  - id: dotfiles\n    script: echo actual\n",
    );
    validate(&cfg).unwrap();

    assert_eq!(cfg.build.memory_max, 8192);
    assert_eq!(cfg.secrets.len(), 1);
    assert_eq!(cfg.agents.len(), 5);
    let omp = cfg.agents.iter().find(|agent| agent.name == "omp").unwrap();
    assert_eq!(omp.package, "github:can1357/oh-my-pi@latest");
    assert_eq!(omp.host_copy.as_deref(), Some("~/.omp"));
    assert_eq!(cfg.layers.len(), 1);
    assert!(cfg.layers[0].script.contains("echo actual"));
}

#[test]
fn empty_keyed_list_clears_default() {
    let cfg = merge_config("agents: []\n");
    assert!(cfg.agents.is_empty());
}

#[test]
fn parses_embedded_default_verbatim_contract() {
    let cfg = merge_config("");
    validate(&cfg).unwrap();
    assert_eq!(cfg.build.cpus, 4);
    assert_eq!(cfg.build.memory, 4096);
    assert_eq!(cfg.build.memory_max, 8192);
    assert_eq!(cfg.secrets[0].host_env, "$(gh auth token)");
    assert_eq!(cfg.agents[0].package, "mise:pi@latest");
    assert_eq!(cfg.agents[0].host_copy.as_deref(), Some("~/.pi"));
    let try_agent = cfg.agents.iter().find(|agent| agent.name == "try").unwrap();
    assert_eq!(try_agent.package, "github:tobi/try@latest");
    assert_eq!(cfg.layers[0].id, "dotfiles");
}

#[test]
fn overlay_adds_agents_and_replaces_plain_lists() {
    let cfg = merge_config(
        "network:\n  allow_host:\n    - .gitlab.com\nagents:\n  - name: extra\n    package: mise:extra@1\n",
    );
    assert_eq!(cfg.network.allow_host, [".gitlab.com"]);
    assert_eq!(cfg.agents.len(), 6);
    assert_eq!(cfg.agents[5].name, "extra");
    assert_eq!(cfg.agents[0].name, "pi");
}

#[test]
fn keyed_overlay_entry_needs_its_identity() {
    let defaults = parse(DEFAULT_CONFIG_YAML);
    let err = merge_documents(defaults, Some(parse("layers:\n  - script: echo\n"))).unwrap_err();
    assert_eq!(err.message(), "overlay entry in keyed list must have id");
}

#[test]
fn validation_reports_the_first_broken_rule() {
    let mut cfg = empty_config();
    assert!(validate(&cfg).is_ok());
    cfg.build.cpus = 0;
    assert_eq!(validate(&cfg).unwrap_err().message(), "build.cpus must be greater than zero");
    cfg.build.cpus = 2;
    cfg.build.memory = 0;
    assert_eq!(validate(&cfg).unwrap_err().message(), "build.memory must be greater than zero");
    cfg.build.memory = 8192;
    cfg.build.memory_max = 4096;
    assert_eq!(
        validate(&cfg).unwrap_err().message(),
        "build.memory_max (4096) must be at least build.memory (8192)"
    );
    cfg.build.memory_max = 8192;

    cfg.secrets.push(SecretSpec { env: "1BAD".into(), host_env: "x".into(), hosts: vec![] });
    assert_eq!(
        validate(&cfg).unwrap_err().message(),
        "invalid secret env 1BAD: expected an environment variable name"
    );
    cfg.secrets[0].env = "TOKEN".into();
    cfg.secrets[0].host_env = "  ".into();
    assert!(matches!(validate(&cfg), Err(ConfigError::EmptyHostEnv { .. })));
    cfg.secrets[0].host_env = "$TOKEN".into();
    cfg.secrets.push(SecretSpec { env: "TOKEN".into(), host_env: "x".into(), hosts: vec![] });
    assert_eq!(validate(&cfg).unwrap_err().message(), "duplicate secret env TOKEN");
    cfg.secrets.pop();

    cfg.agents.push(agent("bad name", "mise:x"));
    assert_eq!(validate(&cfg).unwrap_err().message(), "invalid agent name bad name");
    cfg.agents[0].name = "ok".into();
    cfg.agents[0].package = "npm:x".into();
    assert_eq!(
        validate(&cfg).unwrap_err().message(),
        "invalid package for agent ok: unsupported package source; expected mise:<tool>@<version> or github:<owner>/<repo>@<version>"
    );
    cfg.agents[0].package = "mise:x".into();
    cfg.agents[0].guest = Some("relative".into());
    assert_eq!(validate(&cfg).unwrap_err().message(), "agent ok guest path must be absolute");
    cfg.agents[0].guest = Some("/root/x".into());
    cfg.agents.push(agent("ok", "mise:y"));
    assert_eq!(validate(&cfg).unwrap_err().message(), "duplicate agent name ok");
    cfg.agents.pop();

    cfg.layers.push(LayerSpec { id: "".into(), script: "".into() });
    assert_eq!(validate(&cfg).unwrap_err().message(), "layer id must not be empty");
    cfg.layers[0].id = "one".into();
    cfg.layers.push(LayerSpec { id: "one".into(), script: "".into() });
    assert_eq!(validate(&cfg).unwrap_err().message(), "duplicate layer id one");
    cfg.layers.pop();
    assert!(validate(&cfg).is_ok());
}

#[test]
fn env_names_and_host_sources() {
    assert!(validate_env_name("_A1").is_ok());
    assert!(validate_env_name("").is_err());
    assert!(validate_env_name("A-B").is_err());
    assert!(matches!(host_value_source("$(echo"), Err(HostValueError::Unterminated)));
    assert_eq!(host_value_source("$( )").unwrap_err().message(), "empty $(command)");
    assert_eq!(
        host_value_source("$9X").unwrap_err().message(),
        "invalid $ENVIRONMENT host value: expected an environment variable name"
    );
    assert_eq!(host_value_source("").unwrap_err().message(), "literal host value must not be empty");
    assert_eq!(
        command_value("gh auth token", &finished(false, "exit status: 1", " \n", "")).unwrap_err().message(),
        "host command \"gh auth token\" exited exit status: 1"
    );
    assert_eq!(
        command_value("x", &CommandOutcome::SpawnFailed { detail: "not found".into() }).unwrap_err().message(),
        "run host command \"x\": not found"
    );
    assert_eq!(
        command_value("x", &CommandOutcome::Finished {
            success: true,
            status: "exit status: 0".into(),
            stderr: String::new(),
            stdout: Err("invalid utf-8 sequence".into()),
        })
        .unwrap_err()
        .message(),
        "host command output is not UTF-8: invalid utf-8 sequence"
    );
    assert_eq!(env_value("T", &Ok("  v \n".into())).unwrap(), "v");
    assert_eq!(env_value("T", &Ok(" ".into())).unwrap_err().message(), "host environment variable T is empty");
}

#[test]
fn secrets_resolve_in_order_and_stop_at_the_first_failure() {
    let mut cfg = empty_config();
    cfg.secrets.push(SecretSpec { env: "A".into(), host_env: "$A".into(), hosts: vec!["a.example".into()] });
    cfg.secrets.push(SecretSpec { env: "B".into(), host_env: "$B".into(), hosts: vec![] });
    let ok = resolve_secrets(&cfg, &[Ok("one".into()), Ok("two".into())]).unwrap();
    assert_eq!(ok.found.len(), 2);
    assert_eq!(ok.found[0].env, "A");
    assert_eq!(ok.found[0].value, "one");
    assert_eq!(ok.found[0].hosts, ["a.example"]);
    assert_eq!(ok.found[1].value, "two");
    let err = resolve_secrets(
        &cfg,
        &[Err(HostValueError::EnvEmpty { name: "A".into() }), Err(HostValueError::EmptyLiteral)],
    )
    .unwrap_err();
    assert_eq!(err.message(), "import secret A from host-env: host environment variable A is empty");
}

#[test]
fn host_copies_expand_home_and_derive_guest_paths() {
    let mut cfg = empty_config();
    cfg.agents.push(AgentSpec {
        name: "pi".into(),
        package: "mise:pi@latest".into(),
        host_copy: Some("~/.pi".into()),
        guest: None,
    });
    cfg.agents.push(agent("try", "github:tobi/try@latest"));
    cfg.agents.push(AgentSpec {
        name: "omp".into(),
        package: "mise:omp".into(),
        host_copy: Some("/etc/omp".into()),
        guest: Some("/opt/omp".into()),
    });
    let probes = vec![
        Some(HostProbe { value: Ok("~/.pi".into()), exists: true }),
        None,
        Some(HostProbe { value: Ok("/etc/omp".into()), exists: true }),
    ];
    let copies = resolve_host_copies(&cfg, "/home/me", &probes).unwrap();
    assert_eq!(copies.len(), 2);
    assert_eq!(copies[0].agent, "pi");
    assert_eq!(copies[0].host, "/home/me/.pi");
    assert_eq!(copies[0].guest, "/root/.pi");
    assert_eq!(copies[1].host, "/etc/omp");
    assert_eq!(copies[1].guest, "/opt/omp");

    let missing = vec![
        Some(HostProbe { value: Ok("~/.pi".into()), exists: false }),
        None,
        Some(HostProbe { value: Ok("/etc/omp".into()), exists: true }),
    ];
    let err = resolve_host_copies(&cfg, "/home/me", &missing).unwrap_err();
    assert!(matches!(err, ResolveError::HostCopyMissing { .. }));
    assert_eq!(err.message(), "agent pi host-copy does not exist: /home/me/.pi");

    let unnamed = vec![
        Some(HostProbe { value: Ok("/".into()), exists: true }),
        None,
        Some(HostProbe { value: Ok("/etc/omp".into()), exists: true }),
    ];
    assert_eq!(
        resolve_host_copies(&cfg, "/home/me", &unnamed).unwrap_err().message(),
        "derive guest path from host-copy /"
    );
}

#[test]
fn env_keys_must_ascend_by_code_point() {
    assert!(text_lt("A", "B"));
    assert!(text_lt("AB", "ABC"));
    assert!(text_lt("Z", "a"));
    assert!(!text_lt("b", "a"));
    assert!(!text_lt("same", "same"));
    assert!(!text_lt("", ""));
    assert!(text_lt("", "x"));
    let ordered = vec![("A".to_string(), "1".to_string()), ("B".to_string(), "2".to_string())];
    assert!(env_is_ordered(&ordered));
    assert!(env_is_ordered(&[]));
    let reversed = vec![("B".to_string(), "2".to_string()), ("A".to_string(), "1".to_string())];
    assert!(!env_is_ordered(&reversed));
    let repeated = vec![("A".to_string(), "1".to_string()), ("A".to_string(), "2".to_string())];
    assert!(!env_is_ordered(&repeated));
}

#[test]
fn one_host_copy_resolves_or_names_its_failure() {
    let pi = AgentSpec {
        name: "pi".into(),
        package: "mise:pi@latest".into(),
        host_copy: Some("~/.pi".into()),
        guest: None,
    };
    let found = HostProbe { value: Ok("~/.pi/agent".into()), exists: true };
    let copy = resolve_host_copy(&pi, &found, "/home/me").unwrap();
    assert_eq!(copy.agent, "pi");
    assert_eq!(copy.host, "/home/me/.pi/agent");
    assert_eq!(copy.guest, "/root/agent");
    let gone = HostProbe { value: Ok("~/.pi".into()), exists: false };
    let err = resolve_host_copy(&pi, &gone, "/home/me").unwrap_err();
    assert_eq!(err.message(), "agent pi host-copy does not exist: /home/me/.pi");
    let root = HostProbe { value: Ok("/".into()), exists: true };
    let err = resolve_host_copy(&pi, &root, "/home/me").unwrap_err();
    assert!(matches!(err, ResolveError::GuestName { .. }));
}
