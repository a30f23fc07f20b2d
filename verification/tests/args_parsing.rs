use isac::args::{may_be_user, not_a_user_error, parse_uid_arg, split_whitespace, Args};
use isac::error::{IsacError, IsacHelp, IsacInfo};
use isac::player::PartialPlayer;
use isac::region::{Mode, Region};
use regex::Regex;

fn words(a: Args) -> Vec<String> {
    a.into()
}

fn regex_words(input: &str) -> Vec<String> {
    let re = Regex::new(r#""[^"]+"|\S+"#).unwrap();
    re.find_iter(input)
        .map(|m| m.as_str().trim_matches('"').to_string())
        .collect()
}

#[test]
fn args_split_plain_words() {
    let a = Args::parse("asia  B2U   pvp");
    assert_eq!(words(a), vec!["asia", "B2U", "pvp"]);
}

#[test]
fn args_keep_quoted_spaces() {
    let a = Args::parse(r#"eu "some player" 7"#);
    assert_eq!(words(a), vec!["eu", "some player", "7"]);
}

#[test]
fn args_match_the_regex_tokenizer() {
    let inputs = [
        "",
        "   ",
        "a b c",
        r#""a b" c"#,
        r#"x"y z"w"#,
        r#""unterminated quote here"#,
        r#""" a"#,
        "tab\tsep\nnew line",
        r#"he said "hi there" and "bye""#,
        "ünï cödé\u{3000}ideographic",
        r#""""#,
        r#"a"""b"#,
    ];
    for input in inputs {
        let ours = words(Args::parse(input));
        assert_eq!(ours, regex_words(input), "input {:?}", input);
    }
}

#[test]
fn args_from_str_is_parse() {
    let a: Args = "na  Yamato".parse().unwrap();
    assert_eq!(words(a), vec!["na", "Yamato"]);
}

#[test]
fn args_remove_and_check() {
    let mut a = Args::parse("one two three");
    assert_eq!(a.check(0).ok(), Some("one"));
    assert_eq!(a.check(-1).ok(), Some("three"));
    assert_eq!(a.check(-3).ok(), Some("one"));
    assert!(matches!(a.check(-4), Err(IsacError::Help(IsacHelp::LackOfArguments))));
    assert!(matches!(a.check(isize::MIN), Err(IsacError::Help(IsacHelp::LackOfArguments))));
    assert!(matches!(a.check(isize::MAX), Err(IsacError::Help(IsacHelp::LackOfArguments))));
    assert!(matches!(a.check(3), Err(IsacError::Help(IsacHelp::LackOfArguments))));
    assert_eq!(a.remove(1).ok(), Some("two".to_string()));
    assert_eq!(a.len(), 2);
    assert!(matches!(a.remove(5), Err(IsacError::Help(IsacHelp::LackOfArguments))));
    assert_eq!(a.len(), 2);
    assert!(!a.is_empty());
}

#[test]
fn args_parse_mode_takes_last_mode_word() {
    let mut a = Args::parse("solo B2U div2 7");
    assert_eq!(a.parse_mode(), Some(Mode::Div2));
    assert_eq!(words(a), vec!["solo", "B2U", "7"]);
    let mut b = Args::parse("B2U 7");
    assert_eq!(b.parse_mode(), None);
    assert_eq!(b.len(), 2);
}

#[test]
fn args_parse_day_takes_last_number() {
    let mut a = Args::parse("3 B2U 14 pvp");
    assert_eq!(a.parse_day(), Some(14));
    assert_eq!(words(a), vec!["3", "B2U", "pvp"]);
    let mut b = Args::parse("B2U -3 99999999999");
    assert_eq!(b.parse_day(), None);
    let mut c = Args::parse("B2U 5 200 0");
    assert_eq!(c.parse_day(), Some(5));
    assert_eq!(words(c), vec!["B2U", "200", "0"]);
    let mut d = Args::parse("100 101");
    assert_eq!(d.parse_day(), Some(100));
}

#[test]
fn args_parse_region_consumes_region_word() {
    let mut a = Args::parse("EU someone");
    assert_eq!(a.parse_region(Region::Asia).ok(), Some(Region::Eu));
    assert_eq!(words(a), vec!["someone"]);
    let mut b = Args::parse("someone");
    assert_eq!(b.parse_region(Region::Na).ok(), Some(Region::Na));
    assert_eq!(b.len(), 1);
    let mut c = Args::parse("");
    assert!(matches!(c.parse_region(Region::Na), Err(IsacError::Help(IsacHelp::LackOfArguments))));
}

#[test]
fn args_take_rest_joins_everything() {
    let mut a = Args::parse(r#"Des "Moines 2" x"#);
    assert_eq!(a.take_rest().ok(), Some("Des Moines 2 x".to_string()));
    assert!(a.is_empty());
    let mut b = Args::parse("");
    assert!(b.take_rest().is_err());
}

#[test]
fn args_take_linked_consumes_only_when_linked() {
    let p = PartialPlayer { region: Region::Asia, uid: 2022515210 };
    let mut a = Args::parse("me pvp");
    assert_eq!(a.take_linked(Some(p), None).ok(), Some(p));
    assert_eq!(words(a), vec!["pvp"]);
    let mut b = Args::parse("<@123> pvp");
    match b.take_linked(None, Some("someone".to_string())) {
        Err(IsacError::Info(IsacInfo::UserNotLinked { user_name })) => {
            assert_eq!(user_name, Some("someone".to_string()))
        }
        _ => panic!("expected UserNotLinked"),
    }
    assert_eq!(b.len(), 2);
}

#[test]
fn args_take_found_by_candidate_count() {
    let mut a = Args::parse("nobody");
    match a.take_found(Region::Eu, &vec![], 0) {
        Err(IsacError::Info(IsacInfo::PlayerIgnNotFound { ign, region })) => {
            assert_eq!(ign, "nobody");
            assert_eq!(region, Region::Eu);
        }
        _ => panic!("expected PlayerIgnNotFound"),
    }
    assert_eq!(a.len(), 1);
    let mut b = Args::parse("one rest");
    assert_eq!(
        b.take_found(Region::Na, &vec![42], 0).ok(),
        Some(PartialPlayer { region: Region::Na, uid: 42 })
    );
    assert_eq!(words(b), vec!["rest"]);
    let mut c = Args::parse("many");
    assert_eq!(
        c.take_found(Region::Asia, &vec![1, 2, 3], 2).ok(),
        Some(PartialPlayer { region: Region::Asia, uid: 3 })
    );
    assert!(c.is_empty());
}

#[test]
fn split_whitespace_matches_std() {
    for input in ["", " a  b\tc\n", "ünï\u{2003}code", "x"] {
        let ours = split_whitespace(input);
        let std_words: Vec<String> = input.split_whitespace().map(|s| s.to_string()).collect();
        assert_eq!(ours, std_words);
    }
}

#[test]
fn region_and_mode_words() {
    assert_eq!(Region::parse("ASIA"), Some(Region::Asia));
    assert_eq!(Region::parse("Na"), Some(Region::Na));
    assert_eq!(Region::parse("eu"), Some(Region::Eu));
    assert_eq!(Region::parse("ru"), None);
    assert_eq!(Region::Eu.lower(), "eu");
    assert_eq!(Region::Na.upper(), "NA");
    assert_eq!(Region::default(), Region::Asia);
    assert_eq!(Mode::parse("PVP"), Some(Mode::Pvp));
    assert_eq!(Mode::parse("rank"), Some(Mode::Rank));
    assert_eq!(Mode::parse("coop"), None);
    assert_eq!(Mode::default(), Mode::Pvp);
}

#[test]
fn user_words_and_uid_args() {
    assert!(may_be_user("<@930855839961591849>"));
    assert!(may_be_user("930855839961591849"));
    assert!(may_be_user(""));
    assert!(!may_be_user("B2U"));
    match not_a_user_error("B2U") {
        IsacError::Info(IsacInfo::GeneralError { msg }) => assert_eq!(
            msg,
            "`B2U` is not a valid user, please enter a pign like <@930855839961591849> or a Discord User ID"
        ),
        _ => panic!(),
    }
    assert_eq!(parse_uid_arg("2022515210").ok(), Some(2022515210));
    assert_eq!(parse_uid_arg("+7").ok(), Some(7));
    match parse_uid_arg("abc") {
        Err(IsacError::Info(IsacInfo::GeneralError { msg })) => assert_eq!(msg, "Not a valid uid"),
        _ => panic!(),
    }
}

#[test]
fn recent_options_defaults() {
    let mut a = Args::parse("B2U div3 7 Yamato");
    assert_eq!(a.recent_options(), (Mode::Div3, 7));
    assert_eq!(words(a), vec!["B2U", "Yamato"]);
    let mut b = Args::parse("B2U");
    assert_eq!(b.recent_options(), (Mode::Pvp, 1));
    assert_eq!(b.len(), 1);
}
