use tr::escape_parser::{
    expand_ranges, is_escaped, is_octal_digit, octal_digits_to_char, parse, unescape, ParseError,
};

fn chars(s: &str) -> Vec<char> {
    s.chars().collect::<Vec<char>>()
}

#[test]
fn literal_input() {
    assert_eq!(parse("abcd".to_string()), Ok("abcd".chars().collect::<Vec<char>>()));
    assert_eq!(parse("абвг".to_string()), Ok("абвг".chars().collect::<Vec<char>>()));
}

#[test]
fn character_ranges() {
    assert_eq!(parse("ab-d".to_string()), Ok("abcd".chars().collect::<Vec<char>>()));
    assert_eq!(parse("a-def".to_string()), Ok("abcdef".chars().collect::<Vec<char>>()));
    assert_eq!(parse("a-a".to_string()), Ok("a".chars().collect::<Vec<char>>()));
    assert_eq!(parse("a-".to_string()), Ok("a-".chars().collect::<Vec<char>>()));
    assert_eq!(parse("-a".to_string()), Ok("-a".chars().collect::<Vec<char>>()));
}

#[test]
fn invalid_character_range() {
    assert_eq!(parse("d-a".to_string()), Err(ParseError::RangeOrder('d', 'a')));
}

#[test]
fn escape_sequences() {
    assert_eq!(parse("a\\nb".to_string()), Ok("a\nb".chars().collect::<Vec<char>>()));
    assert_eq!(parse("a\\12b".to_string()), Ok("a\nb".chars().collect::<Vec<char>>()));
    assert_eq!(parse("a\\123".to_string()), Ok("aS".chars().collect::<Vec<char>>()));
    assert_eq!(parse("\\123".to_string()), Ok("S".chars().collect::<Vec<char>>()));
    assert_eq!(parse("a\\12".to_string()), Ok("a\n".chars().collect::<Vec<char>>()));
    assert_eq!(parse("\\53".to_string()), Ok("+".chars().collect::<Vec<char>>()));
}

#[test]
fn escaped_escape_sequences() {
    assert_eq!(parse("a\\\\nb".to_string()), Ok("a\\nb".chars().collect::<Vec<char>>()));
    assert_eq!(parse("\\\\123".to_string()), Ok("\\123".chars().collect::<Vec<char>>()));
}

#[test]
fn invalid_escape_sequences() {
    // A backslash before a character that names no escape is rejected, and
    // the error carries that character.
    assert_eq!(parse("\\m".to_string()), Err(ParseError::UnknownEscape('m')));
}

#[test]
fn overflown_octals() {
    // An octal code that would pass 255 with a third digit stops at two.
    assert_eq!(parse("\\525".to_string()), Ok("*5".chars().collect::<Vec<char>>()));
}

#[test]
fn trailing_slashes() {
    assert_eq!(parse("\\\\".to_string()), Ok("\\".chars().collect::<Vec<char>>()));
    assert_eq!(parse("\\".to_string()), Ok("\\".chars().collect::<Vec<char>>()));
    assert_eq!(parse("a\\".to_string()), Ok("a\\".chars().collect::<Vec<char>>()));
}

#[test]
fn ranges_on_escape_sequences() {
    assert_eq!(parse("\\120-\\123".to_string()), Ok("PQRS".chars().collect::<Vec<char>>()));
    assert_eq!(parse("\\50-\\57".to_string()), Ok("()*+,-./".chars().collect::<Vec<char>>()));
    assert_eq!(parse("\\53-\\53".to_string()), Ok("+".chars().collect::<Vec<char>>()));
}

#[test]
fn empty_expression() {
    assert_eq!(parse(String::new()), Ok(Vec::new()));
}

#[test]
fn literal_input_with_edge_dashes() {
    for s in ["", "-", "--", "x", "-x-", "hello world", "-9", "é-"] {
        assert_eq!(parse(s.to_string()), Ok(chars(s)), "{:?}", s);
    }
}

#[test]
fn named_escapes() {
    assert_eq!(
        parse("\\\\\\n\\r\\t\\a\\b\\f\\v".to_string()),
        Ok(vec!['\\', '\n', '\r', '\t', '\x07', '\x08', '\x0C', '\x0B'])
    );
}

#[test]
fn unknown_escapes_are_rejected() {
    assert_eq!(parse("\\[".to_string()), Err(ParseError::UnknownEscape('[')));
    assert_eq!(parse("ab\\8".to_string()), Err(ParseError::UnknownEscape('8')));
    assert_eq!(parse("\\-".to_string()), Err(ParseError::UnknownEscape('-')));
    assert_eq!(parse("a\\xb\\y".to_string()), Err(ParseError::UnknownEscape('x')));
}

#[test]
fn unknown_escape_comes_before_range_order() {
    assert_eq!(parse("z-a\\q".to_string()), Err(ParseError::UnknownEscape('q')));
}

#[test]
fn first_descending_range_is_reported() {
    assert_eq!(parse("a-cz-y9-0".to_string()), Err(ParseError::RangeOrder('z', 'y')));
}

#[test]
fn neighbouring_endpoints() {
    assert_eq!(parse("a-b".to_string()), Ok(chars("ab")));
    assert_eq!(parse("b-a".to_string()), Err(ParseError::RangeOrder('b', 'a')));
}

#[test]
fn octal_lengths() {
    assert_eq!(parse("\\0".to_string()), Ok(vec!['\0']));
    assert_eq!(parse("\\7".to_string()), Ok(vec!['\x07']));
    assert_eq!(parse("\\18".to_string()), Ok(vec!['\x01', '8']));
    assert_eq!(parse("\\101".to_string()), Ok(vec!['A']));
    assert_eq!(parse("\\1011".to_string()), Ok(vec!['A', '1']));
    assert_eq!(parse("\\377".to_string()), Ok(vec!['\u{FF}']));
    assert_eq!(parse("\\400".to_string()), Ok(vec![' ', '0']));
    assert_eq!(parse("\\77".to_string()), Ok(vec!['?']));
    assert_eq!(parse("\\777".to_string()), Ok(vec!['?', '7']));
}

#[test]
fn octal_code_stops_at_the_first_other_character() {
    // The third digit is taken only directly behind the second.
    assert_eq!(parse("\\1x2".to_string()), Ok(vec!['\x01', 'x', '2']));
    assert_eq!(parse("\\12x3".to_string()), Ok(vec!['\n', 'x', '3']));
}

#[test]
fn octal_code_then_escape() {
    assert_eq!(parse("\\12\\n".to_string()), Ok(vec!['\n', '\n']));
    assert_eq!(parse("\\1\\\\".to_string()), Ok(vec!['\x01', '\\']));
    assert_eq!(parse("\\1\\".to_string()), Ok(vec!['\x01', '\\']));
}

#[test]
fn runs_of_backslashes() {
    assert_eq!(parse("\\\\\\n".to_string()), Ok(vec!['\\', '\n']));
    assert_eq!(parse("\\\\\\\\n".to_string()), Ok(vec!['\\', '\\', 'n']));
    assert_eq!(parse("\\\\\\".to_string()), Ok(vec!['\\', '\\']));
}

#[test]
fn range_between_escaped_backslashes() {
    assert_eq!(parse("\\\\-^".to_string()), Ok(chars("\\]^")));
}

#[test]
fn chained_ranges() {
    assert_eq!(parse("a-c-e".to_string()), Ok(chars("abcde")));
    assert_eq!(parse("a-cx-z".to_string()), Ok(chars("abcxyz")));
}

#[test]
fn dash_as_endpoint() {
    // The middle dash is the operator; the dashes beside it are endpoints.
    assert_eq!(parse("---".to_string()), Ok(chars("-")));
    assert_eq!(parse("+--".to_string()), Ok(chars("+,-")));
}

#[test]
fn equal_endpoints_take_back_the_last_character() {
    assert_eq!(parse("a-a-a".to_string()), Ok(chars("a")));
    assert_eq!(parse("xa-ay".to_string()), Ok(chars("xay")));
    assert_eq!(parse("-----".to_string()), Ok(chars("-")));
}

#[test]
fn range_across_the_surrogates() {
    let set = parse("\u{D7FE}-\u{E001}".to_string()).unwrap();
    assert_eq!(set, vec!['\u{D7FE}', '\u{D7FF}', '\u{E000}', '\u{E001}']);
}

#[test]
fn long_range() {
    let set = parse("\\0-\\377".to_string()).unwrap();
    assert_eq!(set.len(), 256);
    for (i, c) in set.iter().enumerate() {
        assert_eq!(*c as usize, i);
    }
}

#[test]
fn compiler_passes_apart() {
    assert_eq!(unescape(&chars("\\120-\\123")), Ok(chars("P-S")));
    assert_eq!(unescape(&chars("a-\\")), Ok(chars("a-\\")));
    assert_eq!(unescape(&chars("\\q")), Err(ParseError::UnknownEscape('q')));
    assert_eq!(expand_ranges(&chars("P-S")), Ok(chars("PQRS")));
    assert_eq!(expand_ranges(&chars("\\-^")), Ok(chars("\\]^")));
    assert_eq!(expand_ranges(&chars("S-P")), Err(ParseError::RangeOrder('S', 'P')));
}

#[test]
fn octal_digits() {
    for c in ['0', '1', '2', '3', '4', '5', '6', '7'] {
        assert!(is_octal_digit(c));
    }
    for c in ['8', '9', '/', 'a', ' ', '٣'] {
        assert!(!is_octal_digit(c));
    }
    assert_eq!(octal_digits_to_char(&vec![]), '\0');
    assert_eq!(octal_digits_to_char(&vec!['7']), '\x07');
    assert_eq!(octal_digits_to_char(&vec!['1', '2']), '\n');
    assert_eq!(octal_digits_to_char(&vec!['1', '2', '3']), 'S');
    assert_eq!(octal_digits_to_char(&vec!['7', '7', '7']), '\u{1FF}');
}

#[test]
fn look_back_rule() {
    let context = chars("a\\\\b\\c");
    let expected = [false, false, true, false, false, true, false];
    for (index, want) in expected.iter().enumerate() {
        assert_eq!(is_escaped(index, &context), *want, "index {}", index);
    }
    assert!(is_escaped(1, &chars("\\n")));
    assert!(!is_escaped(0, &Vec::new()));
}
