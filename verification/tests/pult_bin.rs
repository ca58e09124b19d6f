use pult_desktop::pult_bin::{
    choose_pult_path, interpolate_source, join_path, pick_options_from_output, plan_pick_source,
    resolve_pult, resolve_pult_path, run_invocation, shell_quote, sidecar_binary_name, sidecar_path_in, stderr_text,
};
use pult_desktop::types::{CommandInfo, Listing, Param};

fn pairs(items: &[(&str, &str)]) -> Vec<(String, String)> {
    items.iter().map(|(k, v)| (k.to_string(), v.to_string())).collect()
}

#[test]
fn sidecar_path_in_uses_the_platform_binary_name() {
    let dir = "/some/app/dir";
    let candidate = sidecar_path_in(dir, false);
    assert_eq!(candidate, "/some/app/dir/pult");
    assert_eq!(sidecar_binary_name(false), "pult");
    let windows = sidecar_path_in("C:\\app", true);
    assert_eq!(windows, "C:\\app\\pult.exe");
    assert_eq!(sidecar_binary_name(true), "pult.exe");
}

#[test]
fn join_path_adds_a_separator_only_when_needed() {
    assert_eq!(join_path("/a/", "b", false), "/a/b");
    assert_eq!(join_path("", "b", false), "b");
    assert_eq!(join_path("/a", "b", false), "/a/b");
}

#[test]
fn resolve_pult_path_prefers_a_valid_configured_override() {
    let configured = "/bin/sh".to_string();
    let result = resolve_pult_path(
        Some(configured.clone()),
        || panic!("PATH shouldn't be consulted when an override is configured"),
        "/nonexistent/sidecar-should-not-be-used".to_string(),
    );
    assert_eq!(result.unwrap(), configured);
}

#[test]
fn resolve_pult_path_errors_on_a_configured_override_that_does_not_exist() {
    let result = resolve_pult_path(
        Some("/nonexistent/pult".to_string()),
        || panic!("PATH shouldn't be consulted when an override is configured"),
        String::new(),
    );
    let err = result.unwrap_err();
    assert!(err.contains("/nonexistent/pult"), "error was: {err}");
    assert_eq!(
        err,
        "The configured pult path doesn't exist: /nonexistent/pult. Fix it in Settings."
    );
}

#[test]
fn resolve_pult_path_prefers_path_over_sidecar() {
    let result = resolve_pult_path(None, || Some("/usr/bin/path-pult".to_string()), "/bin/sh".to_string());
    assert_eq!(result.unwrap(), "/usr/bin/path-pult");
}

#[test]
fn resolve_pult_path_falls_back_to_the_sidecar_when_present() {
    let result = resolve_pult_path(None, || None, "/bin/sh".to_string());
    assert_eq!(result.unwrap(), "/bin/sh");
}

#[test]
fn resolve_pult_path_errors_when_nothing_resolves() {
    let err = resolve_pult_path(None, || None, "/nonexistent/not-actually-there".to_string())
        .unwrap_err();
    assert!(err.contains("Install pult"), "error was: {err}");
}

#[test]
fn choose_pult_path_follows_the_precedence() {
    assert_eq!(
        choose_pult_path(Some("/c".to_string()), true, Some("/p".to_string()), "/s".to_string(), true),
        Ok("/c".to_string())
    );
    assert!(choose_pult_path(Some("/c".to_string()), false, Some("/p".to_string()), "/s".to_string(), true)
        .is_err());
    assert_eq!(
        choose_pult_path(None, false, Some("/p".to_string()), "/s".to_string(), true),
        Ok("/p".to_string())
    );
    assert_eq!(
        choose_pult_path(None, false, None, "/s".to_string(), true),
        Ok("/s".to_string())
    );
    assert_eq!(
        choose_pult_path(None, false, None, "/s".to_string(), false),
        Err("pult isn't installed, isn't on PATH, and no bundled copy was found. Install pult or set its path in Settings.".to_string())
    );
}

#[test]
fn interpolate_source_substitutes_depends_on_values_shell_quoted() {
    let depends_on = vec!["region".to_string()];
    let values = pairs(&[("region", "eu-west-1")]);

    let script = interpolate_source(
        "echo target-{region}-a; echo target-{region}-b",
        &depends_on,
        &values,
    )
    .unwrap();
    assert_eq!(script, "echo target-'eu-west-1'-a; echo target-'eu-west-1'-b");
}

#[test]
fn interpolate_source_shell_quotes_embedded_single_quotes() {
    let depends_on = vec!["name".to_string()];
    let values = pairs(&[("name", "o'brien")]);

    let script = interpolate_source("echo {name}", &depends_on, &values).unwrap();
    assert_eq!(script, "echo 'o'\\''brien'");
}

#[test]
fn interpolate_source_escapes_doubled_braces() {
    let depends_on: Vec<String> = vec![];
    let values: Vec<(String, String)> = vec![];

    let script = interpolate_source("echo {{literal}}", &depends_on, &values).unwrap();
    assert_eq!(script, "echo {literal}");
}

#[test]
fn interpolate_source_rejects_a_name_outside_depends_on() {
    let depends_on: Vec<String> = vec![];
    let values: Vec<(String, String)> = vec![];

    let err = interpolate_source("echo {region}", &depends_on, &values).unwrap_err();
    assert!(err.contains("region"), "error should name the offending param: {err}");
    assert_eq!(
        err,
        "This param's option source references {region}, which isn't in its depends_on list"
    );
}

#[test]
fn interpolate_source_rejects_unterminated_placeholder() {
    let depends_on: Vec<String> = vec![];
    let values: Vec<(String, String)> = vec![];

    let err = interpolate_source("echo {region", &depends_on, &values).unwrap_err();
    assert!(err.contains("unterminated"), "error was: {err}");
}

#[test]
fn interpolate_source_edge_cases() {
    let depends_on = vec!["a".to_string()];
    let values: Vec<(String, String)> = vec![];
    // A declared name without a value is quoted as empty.
    assert_eq!(interpolate_source("x{a}y", &depends_on, &values).unwrap(), "x''y");
    // A stray `}` is copied; a lone `{` at the end is unterminated.
    assert_eq!(interpolate_source("a}b", &depends_on, &values).unwrap(), "a}b");
    assert!(interpolate_source("ab{", &depends_on, &values).is_err());
    // `{{` wins over a placeholder opening.
    assert_eq!(interpolate_source("{{a}}", &depends_on, &values).unwrap(), "{a}");
    // Without braces the template is unchanged.
    assert_eq!(interpolate_source("ls -la /tmp", &[], &[]).unwrap(), "ls -la /tmp");
}

#[test]
fn shell_quote_wraps_and_escapes() {
    assert_eq!(shell_quote(""), "''");
    assert_eq!(shell_quote("a b;c"), "'a b;c'");
    assert_eq!(shell_quote("'"), "''\\'''");
    assert_eq!(shell_quote("$(rm -rf /)"), "'$(rm -rf /)'");
}

#[test]
fn pick_options_trim_skip_blank_and_cap() {
    let opts = pick_options_from_output(true, b"  a \n\n b\r\n   \nc", b"").unwrap();
    assert_eq!(opts, vec!["a".to_string(), "b".to_string(), "c".to_string()]);

    let many: String = (0..600).map(|i| format!("opt{i}\n")).collect();
    let opts = pick_options_from_output(true, many.as_bytes(), b"").unwrap();
    assert_eq!(opts.len(), 500);
    assert_eq!(opts[0], "opt0");
    assert_eq!(opts[499], "opt499");
}

#[test]
fn pick_options_errors() {
    assert_eq!(
        pick_options_from_output(true, b" \n \n", b""),
        Err("This param's option source returned no options".to_string())
    );
    assert_eq!(
        pick_options_from_output(false, b"a\n", b"  boom \n"),
        Err("This param's option source failed: boom".to_string())
    );
    assert_eq!(
        pick_options_from_output(false, b"a\n", b"   "),
        Err("This param's option source exited with an error".to_string())
    );
}

#[test]
fn stderr_text_decodes_lossily_and_trims() {
    assert_eq!(stderr_text(b"  hello\n"), "hello");
    assert_eq!(stderr_text(b"a\xffb"), "a\u{fffd}b");
}

fn param(name: &str, source: Option<&str>, depends_on: Option<Vec<&str>>) -> Param {
    Param {
        name: name.to_string(),
        kind: "pick".to_string(),
        options: None,
        source: source.map(|s| s.to_string()),
        depends_on: depends_on.map(|d| d.iter().map(|s| s.to_string()).collect()),
        default: None,
        secret: None,
    }
}

fn listing(trusted: bool, run_dir: &str, params: Vec<Param>) -> Listing {
    Listing {
        schema: 1,
        pult_version: "0.4.0".to_string(),
        name: "demo-repo".to_string(),
        manifest: "/repo/pult.yaml".to_string(),
        dir: "/repo".to_string(),
        run_dir: run_dir.to_string(),
        scope: "repo".to_string(),
        trusted,
        includes: vec![],
        commands: vec![CommandInfo {
            id: "aws:deploy".to_string(),
            title: "Deploy".to_string(),
            origin: None,
            category: None,
            description: None,
            params,
            check: None,
            interactive: false,
            steps: None,
        }],
    }
}

#[test]
fn plan_pick_source_refusals_in_order() {
    let target = param("target", Some("echo target-{region}-a"), Some(vec!["region"]));
    let values = pairs(&[("region", "us-east-1")]);

    let l = listing(false, "/repo", vec![target.clone()]);
    let err = plan_pick_source(&l, "/repo", "aws:deploy", "target", &values).unwrap_err();
    assert!(err.contains("Trust"), "refusal should mention trust: {err}");

    let l = listing(true, "/repo", vec![target.clone(), param("plain", None, None)]);
    assert_eq!(
        plan_pick_source(&l, "/repo", "nope", "target", &values).unwrap_err(),
        "Unknown command: nope"
    );
    assert_eq!(
        plan_pick_source(&l, "/repo", "aws:deploy", "nope", &values).unwrap_err(),
        "Unknown param: nope"
    );
    assert_eq!(
        plan_pick_source(&l, "/repo", "aws:deploy", "plain", &values).unwrap_err(),
        "plain isn't a dynamic pick param"
    );
    assert_eq!(
        plan_pick_source(&l, "/repo", "aws:deploy", "target", &[]).unwrap_err(),
        "target depends on region, which has no value yet"
    );
}

#[test]
fn plan_pick_source_interpolates_and_picks_the_run_dir() {
    let target = param("target", Some("echo target-{region}-a"), Some(vec!["region"]));
    let values = pairs(&[("region", "us-east-1")]);
    let l = listing(true, "/repo/run", vec![target.clone()]);
    let (script, cwd) = plan_pick_source(&l, "/given", "aws:deploy", "target", &values).unwrap();
    assert_eq!(script, "echo target-'us-east-1'-a");
    assert_eq!(cwd, "/repo/run");

    let l = listing(true, "", vec![target]);
    let (_, cwd) = plan_pick_source(&l, "/given", "aws:deploy", "target", &values).unwrap();
    assert_eq!(cwd, "/given");
}

#[test]
fn resolve_pult_prefers_the_configured_override() {
    assert_eq!(resolve_pult(Some("/bin/sh".to_string()), None), Ok("/bin/sh".to_string()));
    assert_eq!(
        resolve_pult(Some("/definitely/not/here/pult".to_string()), Some("/bin/sh".to_string())),
        Err("The configured pult path doesn't exist: /definitely/not/here/pult. Fix it in Settings."
            .to_string())
    );
}

#[test]
fn run_invocation_feeds_values_on_stdin() {
    let inv = run_invocation("deploy", "r1", &pairs(&[("target", "prod"), ("token", "s3cr\"t")]));
    assert_eq!(inv.args, vec!["deploy", "--params-json", "--run-id", "r1"]);
    assert_eq!(inv.stdin, r#"{"target":"prod","token":"s3cr\"t"}"#);
    assert!(!inv.args.iter().any(|a| a.contains("s3cr")), "secrets stay out of argv");
    assert_eq!(inv.set_env, ("PULT_ORIGIN".to_string(), "desktop".to_string()));
    assert_eq!(inv.remove_env, "PULT_EVENTS");
    assert_eq!(run_invocation("x", "r2", &[]).stdin, "{}");
}
