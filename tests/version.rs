use tw_config::error::Error;
use tw_config::template::{date_stamp, populate_name_template, render, render_name_template};
use tw_config::lock::SingleVersioned;
use tw_config::version::{find_tag, split_version, tokens_match, version_match};

fn strings(v: &[&str]) -> Vec<String> {
    v.iter().map(|s| s.to_string()).collect()
}

#[test]
fn split_version_takes_word_runs() {
    assert_eq!(split_version("3.10.4"), strings(&["3", "10", "4"]));
    assert_eq!(split_version("1.2."), strings(&["1", "2"]));
    assert_eq!(split_version("v1_2-*"), strings(&["v1_2", "*"]));
    assert_eq!(split_version(""), Vec::<String>::new());
}

#[test]
fn find_tag_pattern_resolution() {
    let tags = strings(&["3.11.0", "3.10.4", "3.9.2"]);
    assert_eq!(find_tag("3.10.*", &tags).unwrap(), "3.10.4");
    assert_eq!(find_tag("3.*", &tags).unwrap(), "3.11.0");
    assert!(matches!(find_tag("4.*", &tags), Err(Error::NoMatchingTag { .. })));
}

#[test]
fn find_tag_latest_is_first_tag() {
    let tags = strings(&["9.9", "1.0"]);
    assert_eq!(find_tag("latest", &tags).unwrap(), "9.9");
    assert!(matches!(find_tag("latest", &Vec::new()), Err(Error::NoTags)));
}

#[test]
fn match_is_deterministic() {
    let first = version_match("1.2.*", "1.2.3");
    let second = version_match("1.2.*", "1.2.3");
    assert!(first);
    assert_eq!(first, second);
}

#[test]
fn fewer_candidate_tokens_never_match() {
    assert!(!version_match("1.2.3", "1.2"));
    assert!(!version_match("*.*.*", "1.2"));
    assert!(version_match("1.2", "1.2.3"));
}

#[test]
fn wildcard_and_literal_tokens() {
    assert!(tokens_match(&strings(&["*", "4"]), &strings(&["3", "4", "1"])));
    assert!(!tokens_match(&strings(&["*", "5"]), &strings(&["3", "4", "1"])));
    assert!(tokens_match(&Vec::new(), &Vec::new()));
}

#[test]
fn render_substitutes_version_and_tokens() {
    assert_eq!(render("v{{version}}", "3.10.4").unwrap(), "v3.10.4");
    assert_eq!(render("{{versions.[1]}}", "3.10.4").unwrap(), "10");
    assert_eq!(render("py{{versions.[0]}}{{versions.[1]}}", "3.10.4").unwrap(), "py310");
}

#[test]
fn render_unknown_placeholder_fails() {
    assert!(matches!(render("{{unknown}}", "1.0"), Err(Error::Template { .. })));
}

#[test]
fn render_quotes_in_version_survive() {
    assert_eq!(render("{{{version}}}", "a\"b\\c").unwrap(), "a\"b\\c");
}

#[test]
fn render_name_template_binds_components() {
    let base = SingleVersioned { name: "al".to_string(), version: "2023".to_string() };
    let features = vec![SingleVersioned { name: "python".to_string(), version: "3.11.2".to_string() }];
    let rendered = render_name_template(
        "{{base.name}}{{base.v.version}}-py{{python.versions.[0]}}{{python.versions.[1]}}-{{date}}",
        &base,
        &features,
        "24-01-31",
    )
    .unwrap();
    assert_eq!(rendered, "al2023-py311-24-01-31");
    assert!(render_name_template("{{missing}}", &base, &features, "24-01-31").is_err());
}

#[test]
fn render_name_later_binding_wins() {
    let base = SingleVersioned { name: "date".to_string(), version: "1".to_string() };
    let rendered = render_name_template("{{date}}", &base, &Vec::new(), "24-01-31").unwrap();
    assert_eq!(rendered, "24-01-31");
}

#[test]
fn date_stamps_are_two_digit_fields() {
    assert_eq!(date_stamp(2024, 1, 31), "24-01-31");
    assert_eq!(date_stamp(2000, 3, 4), "00-03-04");
    assert_eq!(date_stamp(-1, 12, 5), "99-12-05");
}

#[test]
fn name_template_with_todays_date() {
    let base = SingleVersioned { name: "al".to_string(), version: "2".to_string() };
    assert_eq!(populate_name_template("{{base.name}}", &base, &Vec::new()).unwrap(), "al");
    let stamped = populate_name_template("{{date}}", &base, &Vec::new()).unwrap();
    assert_eq!(stamped.len(), 8);
    assert_eq!(&stamped[2..3], "-");
}
