use domiform::cli::{
    check_summary, config_to_run, count_text, expand_config, health_response, is_glob, parse_args,
    sleep_for, Args, Found, Parsed, HELP,
};
use domiform::observe::{considered_text, stamp};
use domiform::Truth;

fn strings(s: &[&str]) -> Vec<String> {
    s.iter().map(|x| x.to_string()).collect()
}

#[test]
fn arguments_are_read_in_any_order() {
    assert_eq!(
        parse_args(&strings(&["-v", "a.yaml", "--check", "-c", "-b.yaml"])),
        Parsed::Given(Args {
            configs: strings(&["a.yaml", "-b.yaml"]),
            verbose: true,
            check: true,
        })
    );
    assert_eq!(
        parse_args(&[].to_vec()),
        Parsed::Given(Args {
            configs: vec![],
            verbose: false,
            check: false,
        })
    );
    assert_eq!(parse_args(&strings(&["-h", "--nope"])), Parsed::Help);
    assert_eq!(
        parse_args(&strings(&["--config"])),
        Parsed::Misused("`-c`/`--config` needs a path".to_string())
    );
    assert_eq!(
        parse_args(&strings(&["--nope", "-h"])),
        Parsed::Misused(format!("unknown flag '--nope'\n\n{HELP}"))
    );
}

#[test]
fn one_config_is_run() {
    assert_eq!(config_to_run(&vec![]), Ok("config.yaml".to_string()));
    assert_eq!(config_to_run(&strings(&["a"])), Ok("a".to_string()));
    assert!(config_to_run(&strings(&["a*"])).is_err());
    assert!(config_to_run(&strings(&["a", "b"])).is_err());
    assert!(is_glob("x?") && is_glob("[ab]") && is_glob("*") && !is_glob("config.yaml"));
}

#[test]
fn patterns_are_expanded_once_per_file() {
    let files = expand_config(vec![], "a", &Found::Literal).unwrap();
    let files = expand_config(
        files,
        "*",
        &Found::Entries(vec![Ok("b".to_string()), Ok("a".to_string())]),
    )
    .unwrap();
    assert_eq!(files, strings(&["a", "b"]));
    assert_eq!(
        expand_config(vec![], "z*", &Found::Entries(vec![])),
        Err("no files match pattern 'z*'".to_string())
    );
    assert_eq!(
        expand_config(vec![], "***", &Found::BadPattern("odd".to_string())),
        Err("bad pattern '***': odd".to_string())
    );
    assert_eq!(
        expand_config(
            vec![],
            "*",
            &Found::Entries(vec![Ok("a".to_string()), Err("denied".to_string())])
        ),
        Err("reading '*': denied".to_string())
    );
}

#[test]
fn a_check_is_summed_up() {
    assert_eq!(
        check_summary(2, 1),
        Some("checked 3 file(s): 2 ok, 1 failed".to_string())
    );
    assert_eq!(check_summary(1, 0), None);
    assert_eq!(count_text(1, 2, 3), "1 device(s), 2 scene(s), 3 rule(s)");
}

#[test]
fn the_loop_sleeps_until_the_next_wake_at_most() {
    assert_eq!(sleep_for(None), 5000);
    assert_eq!(sleep_for(Some(20)), 20);
    assert_eq!(sleep_for(Some(60_000)), 5000);
}

#[test]
fn health_is_answered_at_the_root_only() {
    assert!(health_response("GET / HTTP/1.1").ends_with("healthy"));
    assert!(health_response("GET /x HTTP/1.1").ends_with("not found"));
    assert!(health_response("POST / HTTP/1.1").starts_with("HTTP/1.1 404"));
}

#[test]
fn the_trace_lines_up() {
    assert_eq!(stamp(0), "   0.000");
    assert_eq!(stamp(12_345), "  12.345");
    assert_eq!(stamp(123_456_007), "123456.007");
    assert_eq!(
        considered_text("r", Truth::True, true),
        "rule 'r': trigger matched, condition True -> FIRING"
    );
    assert!(considered_text("r", Truth::Unknown, false).contains("UNKNOWN"));
    assert!(considered_text("r", Truth::False, false).contains("condition False"));
}
