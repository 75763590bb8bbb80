use tr::arguments::{classify, plan, resolve, scan_flags, Flags, Plan, PlanError, Word};
use tr::escape_parser::ParseError;
use tr::transducer::{Mode, RunConfig, Transducer};

fn words(list: &[&str]) -> Vec<String> {
    list.iter().map(|w| w.to_string()).collect::<Vec<String>>()
}

fn letters(s: &str) -> Vec<char> {
    s.chars().collect::<Vec<char>>()
}

fn none() -> Flags {
    Flags { complement: false, delete: false, squeeze: false, truncate: false }
}

fn planned_run(list: &[&str]) -> Transducer {
    match plan(&words(list)) {
        Ok(Plan::Run(t)) => t,
        Ok(Plan::Usage) => panic!("usage for {:?}", list),
        Err(e) => panic!("{:?} for {:?}", e, list),
    }
}

fn asks_for_usage(list: &[&str]) -> bool {
    matches!(plan(&words(list)), Ok(Plan::Usage))
}

fn error(list: &[&str]) -> PlanError {
    match plan(&words(list)) {
        Err(e) => e,
        Ok(_) => panic!("no error for {:?}", list),
    }
}

fn transduce(list: &[&str], input: &str) -> String {
    let t = planned_run(list);
    let input = letters(input);
    assert!(t.can_run(&input));
    t.run(&input).into_iter().collect::<String>()
}

#[test]
fn words_are_classified() {
    for w in ["-c", "-C", "--complement"] {
        assert_eq!(classify(&w.to_string()), Word::Complement);
    }
    for w in ["-d", "--delete"] {
        assert_eq!(classify(&w.to_string()), Word::Delete);
    }
    for w in ["-s", "--squeeze-repeats"] {
        assert_eq!(classify(&w.to_string()), Word::Squeeze);
    }
    for w in ["-t", "--truncate-set1"] {
        assert_eq!(classify(&w.to_string()), Word::Truncate);
    }
    assert_eq!(classify(&"--".to_string()), Word::EndOfFlags);
    for w in ["-", "-x", "-D", "--help", "-cd", "---", "--delete "] {
        assert_eq!(classify(&w.to_string()), Word::Unknown, "{:?}", w);
    }
    for w in ["", "abc", "a-z", "c", " -c", "\\-"] {
        assert_eq!(classify(&w.to_string()), Word::Operand, "{:?}", w);
    }
}

#[test]
fn flags_are_read_up_to_the_first_operand() {
    assert_eq!(scan_flags(&words(&["a", "-d"])), Ok((none(), 0)));
    assert_eq!(
        scan_flags(&words(&["-d", "-s", "a", "-c"])),
        Ok((Flags { delete: true, squeeze: true, ..none() }, 2))
    );
    assert_eq!(
        scan_flags(&words(&["--truncate-set1", "-C", "-c"])),
        Ok((Flags { truncate: true, complement: true, ..none() }, 3))
    );
    assert_eq!(scan_flags(&words(&["-d", "--", "-s", "x"])), Ok((Flags { delete: true, ..none() }, 2)));
    assert_eq!(scan_flags(&words(&["--"])), Ok((none(), 1)));
    assert_eq!(scan_flags(&words(&[])), Ok((none(), 0)));
    assert_eq!(scan_flags(&words(&["-d", "-x", "-y"])), Err(1));
}

#[test]
fn flags_resolve_into_settings() {
    assert_eq!(
        resolve(none(), true),
        RunConfig {
            mode: Mode::Replace,
            complement: false,
            squeeze: false,
            truncate: false,
            only_squeeze: false
        }
    );
    let squeezing = Flags { squeeze: true, complement: true, ..none() };
    assert!(resolve(squeezing, false).only_squeeze);
    assert!(!resolve(squeezing, true).only_squeeze);
    assert!(resolve(squeezing, false).complement);
    let deleting = Flags { delete: true, squeeze: true, truncate: true, ..none() };
    assert_eq!(resolve(deleting, true).mode, Mode::Delete);
    assert!(!resolve(deleting, false).only_squeeze);
    assert!(resolve(deleting, true).truncate);
}

#[test]
fn too_few_operands_ask_for_usage() {
    assert!(asks_for_usage(&[]));
    assert!(asks_for_usage(&["abc"]));
    assert!(asks_for_usage(&["-d"]));
    assert!(asks_for_usage(&["-d", "-s"]));
    assert!(asks_for_usage(&["-c", "abc"]));
    assert!(asks_for_usage(&["-t", "--", "abc"]));
    assert!(asks_for_usage(&["-d", "--"]));
}

#[test]
fn unknown_argument() {
    assert_eq!(error(&["-x", "abc", "xyz"]), PlanError::UnknownArgument("-x".to_string()));
    assert_eq!(error(&["-d", "--help"]), PlanError::UnknownArgument("--help".to_string()));
    assert_eq!(error(&["-", "a"]), PlanError::UnknownArgument("-".to_string()));
    assert_eq!(error(&["-x"]), PlanError::UnknownArgument("-x".to_string()));
    assert_eq!(error(&["-d", "-s", "-x", "-y"]), PlanError::UnknownArgument("-x".to_string()));
}

#[test]
fn missing_operand() {
    assert_eq!(error(&["-d", "-s", "abc"]), PlanError::MissingOperand);
    assert_eq!(error(&["-ds", "abc"]), PlanError::UnknownArgument("-ds".to_string()));
    assert_eq!(error(&["-s", "--delete", "--", "-"]), PlanError::MissingOperand);
}

#[test]
fn rejected_sets() {
    assert_eq!(error(&["z-a", "abc"]), PlanError::Invalid(ParseError::RangeOrder('z', 'a')));
    assert_eq!(error(&["abc", "\\q"]), PlanError::Invalid(ParseError::UnknownEscape('q')));
    assert_eq!(error(&["b-a", "\\q"]), PlanError::Invalid(ParseError::RangeOrder('b', 'a')));
    assert_eq!(error(&["-d", "-s", "a", "b-a"]), PlanError::Invalid(ParseError::RangeOrder('b', 'a')));
    assert_eq!(error(&["-s", "\\q"]), PlanError::Invalid(ParseError::UnknownEscape('q')));
}

#[test]
fn second_operand_is_not_read_when_only_deleting() {
    let t = planned_run(&["-d", "abc", "z-a"]);
    assert_eq!(t.set1, letters("abc"));
    assert_eq!(t.set2, Vec::new());
}

#[test]
fn replace_from_the_command_line() {
    let t = planned_run(&["abc", "xyz"]);
    assert_eq!(t.config, resolve(none(), true));
    assert_eq!(t.set1, letters("abc"));
    assert_eq!(t.set2, letters("xyz"));
    assert_eq!(transduce(&["abc", "xyz"], "cab"), "zxy");
    assert_eq!(transduce(&["a-c", "x-z"], "cab"), "zxy");
    assert_eq!(transduce(&["a-z", "A-Z"], "hello, world"), "HELLO, WORLD");
    assert_eq!(transduce(&["\\n", " "], "a\nb\n"), "a b ");
}

#[test]
fn delete_with_complement_from_the_command_line() {
    assert_eq!(transduce(&["-c", "-d", "abc"], "abcdef"), "abc");
    assert_eq!(transduce(&["-d", "-C", "abc"], "abcdef"), "abc");
    assert_eq!(transduce(&["--delete", "--complement", "abc"], "abcdef"), "abc");
}

#[test]
fn squeeze_only_from_the_command_line() {
    let t = planned_run(&["-s", "a"]);
    assert!(t.config.only_squeeze);
    assert_eq!(t.config.mode, Mode::Replace);
    assert_eq!(transduce(&["-s", "a"], "aaabbb"), "abbb");
    assert_eq!(transduce(&["--squeeze-repeats", "a"], "aaabbb"), "abbb");
}

#[test]
fn truncate_from_the_command_line() {
    let t = planned_run(&["-t", "abcd", "xy"]);
    assert_eq!(t.set1, letters("ab"));
    assert_eq!(transduce(&["-t", "abcd", "xy"], "abcd"), "xycd");
    assert_eq!(transduce(&["--truncate-set1", "abcd", "xy"], "abcd"), "xycd");
    assert_eq!(transduce(&["abcd", "xy"], "abcd"), "xyyy");
}

#[test]
fn operands_behind_the_end_of_flags() {
    assert_eq!(transduce(&["--", "-d", "xy"], "a-d"), "axy");
    assert_eq!(transduce(&["-d", "--", "-s"], "a-s-"), "a");
}

#[test]
fn flags_behind_the_first_operand_are_operands() {
    let t = planned_run(&["abc", "-d"]);
    assert_eq!(t.config.mode, Mode::Replace);
    assert_eq!(t.set2, letters("-d"));
}

#[test]
fn delete_and_squeeze_from_the_command_line() {
    assert_eq!(transduce(&["-d", "-s", "--", "-", "o"], "fo-ot--baall"), "fotbaall");
}

#[test]
fn replace_and_squeeze_from_the_command_line() {
    assert_eq!(transduce(&["-s", "abc", "xxz"], "aabbccdd"), "xzdd");
}
