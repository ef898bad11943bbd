use cenv_core::{
    list_available_keywords, parse_env, parse_env_with, step, Config, Dialect, EnvContents,
    ParseStatus,
};

fn select(text: &str, name: &str) -> Result<EnvContents, String> {
    let env = EnvContents::new(String::from(text));
    let config = Config::new(name).unwrap();
    parse_env(&env, &config)
}

const SCENARIO_IN: &str = "# ++ a ++\nKEY=value\n# ++ b ++\nKEY=value\n\n# ++ c ++\nKEY=value";
const SCENARIO_OUT: &str =
    "# ++ a ++\n# KEY=value\n# ++ b ++\nKEY=value\n\n# ++ c ++\n# KEY=value\n";

#[test]
fn selecting_b_switches_the_other_blocks_off() {
    let out = select(SCENARIO_IN, "b").unwrap();
    assert_eq!(out.contents, SCENARIO_OUT);
}

#[test]
fn unknown_name_fails_with_not_found() {
    assert_eq!(
        select(SCENARIO_IN, "missing"),
        Err(String::from("keyword \"missing\" was not found in .env file"))
    );
}

#[test]
fn rewriting_twice_changes_nothing_more() {
    let once = select(SCENARIO_IN, "b").unwrap();
    let twice = select(&once.contents, "b").unwrap();
    assert_eq!(twice.contents, SCENARIO_OUT);
    assert_eq!(once, twice);
}

#[test]
fn switching_between_names_is_stable() {
    let a = select(SCENARIO_IN, "a").unwrap();
    assert_eq!(
        a.contents,
        "# ++ a ++\nKEY=value\n# ++ b ++\n# KEY=value\n\n# ++ c ++\n# KEY=value\n"
    );
    let c = select(&a.contents, "c").unwrap();
    assert_eq!(
        c.contents,
        "# ++ a ++\n# KEY=value\n# ++ b ++\n# KEY=value\n\n# ++ c ++\nKEY=value\n"
    );
    assert_eq!(select(&c.contents, "c").unwrap(), c);
}

#[test]
fn blank_line_ends_a_section() {
    let out = select("# ++ a ++\nA=1\n\nB=2\n# ++ b ++\nC=3\n", "b").unwrap();
    assert_eq!(out.contents, "# ++ a ++\n# A=1\n\nB=2\n# ++ b ++\nC=3\n");
}

#[test]
fn lines_before_the_first_marker_are_untouched() {
    let out = select("# intro\nTOP=1\n# ++ a ++\n# A=1\n", "a").unwrap();
    assert_eq!(out.contents, "# intro\nTOP=1\n# ++ a ++\nA=1\n");
}

#[test]
fn marker_lines_are_never_rewritten() {
    let text = "# ++ a ++\n# ++ b ++\n# ++ a ++\nX=1\n";
    let out = select(text, "b").unwrap();
    assert_eq!(out.contents, "# ++ a ++\n# ++ b ++\n# ++ a ++\n# X=1\n");
}

#[test]
fn prose_comments_stay_commented_in_the_selected_block() {
    let out = select("# ++ a ++\n# some words here\n# K=v\n", "a").unwrap();
    assert_eq!(out.contents, "# ++ a ++\n# some words here\nK=v\n");
}

#[test]
fn no_markers_means_no_names_and_not_found() {
    let env = EnvContents::new(String::from("A=1\n# B=2\n\nC=3\n"));
    assert!(list_available_keywords(&env).is_empty());
    assert_eq!(
        select("A=1\n# B=2\n\nC=3\n", "A"),
        Err(String::from("keyword \"A\" was not found in .env file"))
    );
}

#[test]
fn duplicate_markers_are_listed_once() {
    let env = EnvContents::new(String::from("# ++ x ++\n# ++ x ++\n\n# ++ y ++\n# ++ x ++\n"));
    let mut names = list_available_keywords(&env);
    names.sort();
    assert_eq!(names, vec!["x", "y"]);
}

#[test]
fn empty_text_has_no_sections() {
    let env = EnvContents::new(String::new());
    assert!(list_available_keywords(&env).is_empty());
    assert_eq!(
        select("", "a"),
        Err(String::from("keyword \"a\" was not found in .env file"))
    );
}

#[test]
fn exactly_one_trailing_newline_is_written() {
    assert_eq!(select("# ++ a ++\nA=1", "a").unwrap().contents, "# ++ a ++\nA=1\n");
    assert_eq!(select("# ++ a ++\nA=1\n", "a").unwrap().contents, "# ++ a ++\nA=1\n");
    assert_eq!(
        select("# ++ a ++\nA=1\n\n", "a").unwrap().contents,
        "# ++ a ++\nA=1\n\n"
    );
}

#[test]
fn lenient_dialect_reads_loose_markers() {
    let env = EnvContents::new(String::from("##++ a\nA=1\n#++b\n# B=2\n"));
    let config = Config::new("b").unwrap();
    assert_eq!(
        parse_env_with(&env, &config, Dialect::Lenient).unwrap().contents,
        "##++ a\n# A=1\n#++b\nB=2\n"
    );
    assert_eq!(
        parse_env(&env, &config),
        Err(String::from("keyword \"b\" was not found in .env file"))
    );
}

#[test]
fn step_follows_the_three_states() {
    let name: Vec<char> = "b".chars().collect();
    let marker_b: Vec<char> = "# ++ b ++".chars().collect();
    let marker_a: Vec<char> = "# ++ a ++".chars().collect();
    let plain: Vec<char> = "K=v".chars().collect();
    let commented: Vec<char> = "# K=v".chars().collect();
    let blank: Vec<char> = Vec::new();

    let (s, out) = step(ParseStatus::Ignore, &marker_b, &name, Dialect::Strict);
    assert_eq!(s, ParseStatus::Active);
    assert_eq!(out, marker_b);

    let (s, out) = step(ParseStatus::Active, &marker_a, &name, Dialect::Strict);
    assert_eq!(s, ParseStatus::Inactive);
    assert_eq!(out, marker_a);

    let (s, out) = step(ParseStatus::Active, &commented, &name, Dialect::Strict);
    assert_eq!(s, ParseStatus::Active);
    assert_eq!(out, plain);

    let (s, out) = step(ParseStatus::Inactive, &plain, &name, Dialect::Strict);
    assert_eq!(s, ParseStatus::Inactive);
    assert_eq!(out, commented);

    let (s, out) = step(ParseStatus::Ignore, &plain, &name, Dialect::Strict);
    assert_eq!(s, ParseStatus::Ignore);
    assert_eq!(out, plain);

    let (s, out) = step(ParseStatus::Active, &blank, &name, Dialect::Strict);
    assert_eq!(s, ParseStatus::Ignore);
    assert_eq!(out, blank);
}

#[test]
fn carriage_return_line_endings_are_line_endings() {
    let out = select("# ++ a ++\r\nA=1\r\n", "a").unwrap();
    assert_eq!(out.contents, "# ++ a ++\nA=1\n");
}

#[test]
fn blank_crlf_line_ends_a_section() {
    let text = "# ++ a ++\r\nA=1\r\n\r\nGLOBAL=1\r\n# ++ b ++\r\nB=2\r\n";
    let out = select(text, "b").unwrap();
    assert_eq!(out.contents, "# ++ a ++\n# A=1\n\nGLOBAL=1\n# ++ b ++\nB=2\n");
    assert_eq!(select(&out.contents, "b").unwrap(), out);
}

#[test]
fn lone_carriage_returns_stay_in_the_line() {
    let out = select("# ++ a ++\nA=1\rB\nC=2\r", "a").unwrap();
    assert_eq!(out.contents, "# ++ a ++\nA=1\rB\nC=2\r\n");
}
