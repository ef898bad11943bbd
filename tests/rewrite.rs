use cenv_core::{list_available_keywords, parse_env, parse_env_with, Config, Dialect, EnvContents};

#[test]
fn empty_if_no_keywords() {
    let provided = String::from(
        "
KEY=value
KEY=value

KEY=value
    ",
    );
    let env = EnvContents::new(provided);
    let expected = vec![""; 0];

    assert_eq!(list_available_keywords(&env), expected)
}

#[test]
fn returns_all_keywords() {
    let provided = String::from(
        "
# ++ a ++
# ++ b ++
KEY=value
KEY=value

# ++ c ++
KEY=value
    ",
    );
    let env = EnvContents::new(provided);
    let mut expected = vec!["a", "b", "c"];
    let mut result = list_available_keywords(&env);

    expected.sort();
    result.sort();

    assert_eq!(result, expected)
}

#[test]
fn dedup_keywords() {
    let provided = String::from(
        "
# ++ a ++
# ++ a ++
# ++ a ++
# ++ b ++
# ++ b ++
KEY=value
KEY=value


# ++ c ++
# ++ c ++
KEY=value
    ",
    );
    let env = EnvContents::new(provided);
    let mut expected = vec!["a", "b", "c"];
    let mut result = list_available_keywords(&env);

    expected.sort();
    result.sort();

    assert_eq!(result, expected)
}

#[test]
fn mod_err_if_keyword_not_found() {
    let provided = String::from(
        "
KEY=value
KEY=value

KEY=value
    ",
    );
    let env = EnvContents::new(provided);
    let args = vec![String::from("_"), String::from("keyword")];
    let config = Config::new_from_args(args.into_iter()).unwrap();

    assert_eq!(
        parse_env(&env, &config),
        Err(String::from(
            "keyword \"keyword\" was not found in .env file"
        ))
    );
}

#[test]
fn mod_comment_out_non_matches() {
    let provided = String::from(
        "
# ++ a ++
KEY=value
# ++ b ++
KEY=value

# ++ c ++
KEY=value
",
    );
    let env = EnvContents::new(provided);
    let args = vec![String::from("_"), String::from("b")];
    let config = Config::new_from_args(args.into_iter()).unwrap();

    let expected = String::from(
        "
# ++ a ++
# KEY=value
# ++ b ++
KEY=value

# ++ c ++
# KEY=value
",
    );
    assert_eq!(parse_env(&env, &config), Ok(EnvContents::new(expected)));
}

#[test]
fn mod_leave_matches_if_uncommented() {
    let provided = String::from(
        "
# ++ a ++
KEY=value
# ++ b ++
KEY=value

# ++ c ++
KEY=value
",
    );
    let env = EnvContents::new(provided);
    let args = vec![String::from("_"), String::from("b")];
    let config = Config::new_from_args(args.into_iter()).unwrap();

    let expected = String::from(
        "
# ++ a ++
# KEY=value
# ++ b ++
KEY=value

# ++ c ++
# KEY=value
",
    );
    assert_eq!(parse_env(&env, &config), Ok(EnvContents::new(expected)));
}

#[test]
fn mod_uncomment_matches() {
    let provided = String::from(
        "
# ++ a ++
# KEY=value
# ++ b ++
# KEY=value

# ++ c ++
KEY=value
",
    );
    let env = EnvContents::new(provided);
    let args = vec![String::from("_"), String::from("b")];
    let config = Config::new_from_args(args.into_iter()).unwrap();

    let expected = String::from(
        "
# ++ a ++
# KEY=value
# ++ b ++
KEY=value

# ++ c ++
# KEY=value
",
    );
    assert_eq!(parse_env(&env, &config), Ok(EnvContents::new(expected)));
}

#[test]
fn err_if_keyword_not_found() {
    let provided = String::from(
        "
    KEY=value
    KEY=value

    KEY=value
    ",
    );
    let env = EnvContents::new(provided.clone());
    let args = vec![String::from("_"), String::from("keyword")];
    let config = Config::new_from_args(args.into_iter()).unwrap();

    assert_eq!(
        parse_env_with(&env, &config, Dialect::Lenient),
        Err(String::from(
            "keyword \"keyword\" was not found in .env file"
        ))
    );
}

#[test]
fn comment_out_non_matches() {
    let provided = String::from(
        "
# ++ a ++
KEY=value
# ++ b ++
KEY=value

# ++ c ++
KEY=value
",
    );
    let env = EnvContents::new(provided);
    let args = vec![String::from("_"), String::from("b")];
    let config = Config::new_from_args(args.into_iter()).unwrap();

    let expected = String::from(
        "
# ++ a ++
# KEY=value
# ++ b ++
KEY=value

# ++ c ++
# KEY=value
",
    );
    assert_eq!(
        parse_env_with(&env, &config, Dialect::Lenient),
        Ok(EnvContents::new(expected))
    );
}

#[test]
fn leave_matches_if_uncommented() {
    let provided = String::from(
        "
# ++ a ++
KEY=value
# ++ b ++
KEY=value

# ++ c ++
KEY=value
",
    );
    let env = EnvContents::new(provided);
    let args = vec![String::from("_"), String::from("b")];
    let config = Config::new_from_args(args.into_iter()).unwrap();

    let expected = String::from(
        "
# ++ a ++
# KEY=value
# ++ b ++
KEY=value

# ++ c ++
# KEY=value
",
    );
    assert_eq!(
        parse_env_with(&env, &config, Dialect::Lenient),
        Ok(EnvContents::new(expected))
    );
}

#[test]
fn uncomment_matches() {
    let provided = String::from(
        "
# ++ a ++
# KEY=value
# ++ b ++
# KEY=value

# ++ c ++
KEY=value
",
    );
    let env = EnvContents::new(provided);
    let args = vec![String::from("_"), String::from("b")];
    let config = Config::new_from_args(args.into_iter()).unwrap();

    let expected = String::from(
        "
# ++ a ++
# KEY=value
# ++ b ++
KEY=value

# ++ c ++
# KEY=value
",
    );
    assert_eq!(
        parse_env_with(&env, &config, Dialect::Lenient),
        Ok(EnvContents::new(expected))
    );
}
