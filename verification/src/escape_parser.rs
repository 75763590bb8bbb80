//! The set compiler: from a set expression to the ordered list of
//! characters.
//!
//! Compilation runs in two passes. The first resolves backslash escapes and
//! octal codes; the second expands ranges over the characters that the first
//! produced, so that an escaped character can serve as a range endpoint.
use vstd::prelude::*;

verus! {

/// Why a set expression was rejected.
#[derive(Debug, Clone, Copy, PartialEq, Eq, Structural)]
pub enum ParseError {
    /// A backslash was followed by this character, which names no escape.
    UnknownEscape(char),
    /// A range whose first endpoint lies after its second.
    RangeOrder(char, char),
}

/// The outcome of a compilation step as a mathematical value.
pub open spec fn outcome(r: Result<Vec<char>, ParseError>) -> Result<Seq<char>, ParseError> {
    match r {
        Ok(v) => Ok(v@),
        Err(e) => Err(e),
    }
}

/// `rest` with `prefix` put in front of what it produced; an error stays.
pub open spec fn after(prefix: Seq<char>, rest: Result<Seq<char>, ParseError>) -> Result<
    Seq<char>,
    ParseError,
> {
    match rest {
        Ok(tail) => Ok(prefix + tail),
        Err(e) => Err(e),
    }
}

// ---------------------------------------------------------------------------
// Octal codes
// ---------------------------------------------------------------------------
/// Whether `c` is one of the digits `0` to `7`.
pub open spec fn octal_digit(c: char) -> bool {
    '0' <= c && c <= '7'
}

/// Whether every character of `digits` is an octal digit.
pub open spec fn all_octal(digits: Seq<char>) -> bool {
    forall|i: int| 0 <= i < digits.len() ==> octal_digit(#[trigger] digits[i])
}

/// The number that `digits` denotes in base 8, most significant digit first.
pub open spec fn octal_number(digits: Seq<char>) -> int
    decreases digits.len(),
{
    if digits.len() == 0 {
        0
    } else {
        8 * octal_number(digits.drop_last()) + (digits.last() as int - '0' as int)
    }
}

/// How many digits the octal code that starts at `first` takes: a second
/// digit whenever one follows, a third only behind a first digit of at most
/// `3`, so that the code stays below 256.
pub open spec fn octal_len(s: Seq<char>, first: int) -> int {
    if first + 1 < s.len() && octal_digit(s[first + 1]) {
        if s[first] <= '3' && first + 2 < s.len() && octal_digit(s[first + 2]) {
            3
        } else {
            2
        }
    } else {
        1
    }
}

/// Tells whether `character` is an octal digit.
pub fn is_octal_digit(character: char) -> (r: bool)
    ensures
        r == octal_digit(character),
{
    '0' <= character && character <= '7'
}

/// Up to three octal digits denote a number below 512.
pub proof fn lemma_octal_number_bound(digits: Seq<char>)
    requires
        all_octal(digits),
        digits.len() <= 3,
    ensures
        0 <= octal_number(digits) < 512,
        digits.len() <= 2 ==> octal_number(digits) < 64,
        digits.len() <= 1 ==> octal_number(digits) < 8,
    decreases digits.len(),
{
    if digits.len() > 0 {
        let front = digits.drop_last();
        assert(octal_digit(digits[digits.len() - 1]));
        assert forall|i: int| 0 <= i < front.len() implies octal_digit(#[trigger] front[i]) by {
            assert(front[i] == digits[i]);
        }
        lemma_octal_number_bound(front);
    }
}

/// The character whose code the given octal digits denote.
pub fn octal_digits_to_char(octal_digits: &Vec<char>) -> (r: char)
    requires
        all_octal(octal_digits@),
        octal_digits.len() <= 3,
    ensures
        r as int == octal_number(octal_digits@),
{
    let mut code: u32 = 0;
    let mut i: usize = 0;
    while i < octal_digits.len()
        invariant
            i <= octal_digits.len() <= 3,
            all_octal(octal_digits@),
            code as int == octal_number(octal_digits@.take(i as int)),
        decreases octal_digits.len() - i,
    {
        let digit = octal_digits[i];
        proof {
            let before = octal_digits@.take(i as int);
            assert(octal_digits@.take(i + 1).drop_last() =~= before);
            assert(octal_digit(octal_digits@[i as int]));
            lemma_octal_number_bound(before);
        }
        code = code * 8 + (digit as u32 - '0' as u32);
        i += 1;
    }
    proof {
        assert(octal_digits@.take(i as int) =~= octal_digits@);
        lemma_octal_number_bound(octal_digits@);
    }
    char::from_u32(code).unwrap()
}

// ---------------------------------------------------------------------------
// Unicode scalar values
// ---------------------------------------------------------------------------
/// Whether `code` is a Unicode scalar value: a code point that is no
/// surrogate.
pub open spec fn scalar(code: int) -> bool {
    0 <= code < 0xD800 || 0xDFFF < code <= 0x10FFFF
}

/// Every character is a Unicode scalar value, and its code names it.
pub proof fn lemma_char_is_scalar(c: char)
    ensures
        scalar(c as int),
        (c as int) as char == c,
        c as u32 as int == c as int,
{
}

/// `char::from_u32` of the standard library: the character with the given
/// code where the code is a Unicode scalar value, and nothing otherwise.
pub assume_specification[ char::from_u32 ](code: u32) -> (r: Option<char>)
    ensures
        r == if scalar(code as int) {
            Some(code as char)
        } else {
            None::<char>
        },
;

// ---------------------------------------------------------------------------
// First pass: escapes
// ---------------------------------------------------------------------------
/// The character that a backslash followed by `c` stands for, where `c`
/// names an escape other than an octal code.
pub open spec fn escape_target(c: char) -> Option<char> {
    if c == '\\' {
        Some('\\')
    } else if c == 'n' {
        Some('\n')
    } else if c == 'r' {
        Some('\r')
    } else if c == 't' {
        Some('\t')
    } else if c == 'a' {
        Some('\x07')
    } else if c == 'b' {
        Some('\x08')
    } else if c == 'f' {
        Some('\x0C')
    } else if c == 'v' {
        Some('\x0B')
    } else {
        None
    }
}

/// How many input characters the escape pass takes in one step when it
/// stands at position `i` of `s`: a live backslash together with what it
/// governs, or else a single character.
pub open spec fn token_len(s: Seq<char>, i: int) -> int {
    if s[i] != '\\' || i == s.len() - 1 {
        1
    } else if octal_digit(s[i + 1]) {
        1 + octal_len(s, i + 1)
    } else {
        2
    }
}

/// The character that the escape pass produces when it stands at position
/// `i` of `s`.
///
/// A character other than a backslash stands for itself. A backslash that
/// ends the input is literal. Any other backslash is live: it produces
/// nothing itself and decides how the next character is read, as the start of
/// an octal code, as a named escape, or else as an error.
pub open spec fn token_value(s: Seq<char>, i: int) -> Result<char, ParseError> {
    if s[i] != '\\' || i == s.len() - 1 {
        Ok(s[i])
    } else if octal_digit(s[i + 1]) {
        Ok(octal_number(s.subrange(i + 1, i + 1 + octal_len(s, i + 1))) as char)
    } else {
        match escape_target(s[i + 1]) {
            Some(c) => Ok(c),
            None => Err(ParseError::UnknownEscape(s[i + 1])),
        }
    }
}

/// What the escape pass produces from position `i` of `s` onwards, standing
/// at `i` outside any escape: one character for each step, up to the end of
/// the input or the first error.
pub open spec fn unescaped_from(s: Seq<char>, i: int) -> Result<Seq<char>, ParseError>
    decreases s.len() - i,
{
    if i < 0 || i >= s.len() {
        Ok(Seq::empty())
    } else {
        match token_value(s, i) {
            Ok(c) => after(seq![c], unescaped_from(s, i + token_len(s, i))),
            Err(e) => Err(e),
        }
    }
}

/// Whether the escape pass, started at the front of `s`, comes to stand at
/// position `i`: at the front, or directly behind a step that began where it
/// stood before.
pub open spec fn stands_at(s: Seq<char>, i: int) -> bool
    decreases i,
{
    i == 0 || (0 < i <= s.len() && exists|h: int|
        #![trigger token_len(s, h)]
        0 <= h < i && stands_at(s, h) && token_value(s, h) is Ok && h + token_len(s, h) == i)
}

/// The look-back rule for escaped characters: the character at `index` is
/// escaped when a backslash stands before it and no backslash stands before
/// that one.
pub open spec fn escaped(context: Seq<char>, index: int) -> bool {
    if index <= 0 {
        false
    } else if index == 1 {
        context[0] == '\\'
    } else {
        context[index - 1] == '\\' && context[index - 2] != '\\'
    }
}

/// Whether the character with the given index is escaped by the look-back
/// rule. `index` may be the length of `context`, for the position behind its
/// last character.
pub fn is_escaped(index: usize, context: &Vec<char>) -> (r: bool)
    requires
        index <= context.len(),
    ensures
        r == escaped(context@, index as int),
{
    if index == 0 {
        false
    } else if index == 1 {
        context[0] == '\\'
    } else {
        context[index - 1] == '\\' && !(context[index - 2] == '\\')
    }
}

/// What the escape pass makes of the whole of `s`.
pub open spec fn unescaped(s: Seq<char>) -> Result<Seq<char>, ParseError> {
    unescaped_from(s, 0)
}

/// Putting `c` behind `prefix` and then `rest` behind both is putting `rest`
/// behind `prefix` with `c` in front.
proof fn lemma_after_push(prefix: Seq<char>, c: char, rest: Result<Seq<char>, ParseError>)
    ensures
        after(prefix, after(seq![c], rest)) == after(prefix.push(c), rest),
{
    match rest {
        Ok(tail) => {
            assert(prefix + (seq![c] + tail) =~= prefix.push(c) + tail);
        },
        Err(_) => {},
    }
}

/// Resolves the named escape `\c`, if `c` names one.
pub fn resolve_escape(c: char) -> (r: Option<char>)
    ensures
        r == escape_target(c),
{
    match c {
        '\\' => Some('\\'),
        'n' => Some('\n'),
        'r' => Some('\r'),
        't' => Some('\t'),
        'a' => Some('\x07'),
        'b' => Some('\x08'),
        'f' => Some('\x0C'),
        'v' => Some('\x0B'),
        _ => None,
    }
}

/// Reads the octal code whose first digit stands at `first`: the character
/// it denotes and the number of digits it took.
pub fn read_octal(input: &Vec<char>, first: usize) -> (r: (char, usize))
    requires
        first < input.len(),
        octal_digit(input@[first as int]),
    ensures
        r.1 as int == octal_len(input@, first as int),
        r.0 as int == octal_number(input@.subrange(first as int, first as int + r.1 as int)),
        first + r.1 <= input.len(),
{
    let n = input.len();
    let digit = input[first];
    let long_octal_possible = digit <= '3';
    let mut escaped_octal_digits: Vec<char> = Vec::with_capacity(3);
    escaped_octal_digits.push(digit);
    if first + 1 < n && is_octal_digit(input[first + 1]) {
        escaped_octal_digits.push(input[first + 1]);
        if long_octal_possible && first + 2 < n && is_octal_digit(input[first + 2]) {
            escaped_octal_digits.push(input[first + 2]);
        }
    }
    let taken = escaped_octal_digits.len();
    proof {
        assert(escaped_octal_digits@ =~= input@.subrange(first as int, first as int + taken as int));
    }
    (octal_digits_to_char(&escaped_octal_digits), taken)
}

/// The first pass: resolves escapes and octal codes, and keeps every other
/// character, a `-` too, as it is.
pub fn unescape(input: &Vec<char>) -> (r: Result<Vec<char>, ParseError>)
    ensures
        outcome(r) == unescaped(input@),
{
    let n = input.len();
    let mut unescaped_characters: Vec<char> = Vec::with_capacity(n);
    let mut index: usize = 0;
    while index < n
        invariant
            n == input.len(),
            index <= n,
            unescaped(input@) == after(
                unescaped_characters@,
                unescaped_from(input@, index as int),
            ),
        decreases n - index,
    {
        let ghost produced = unescaped_characters@;
        let character = input[index];
        if character != '\\' || index == n - 1 {
            proof {
                lemma_after_push(produced, character, unescaped_from(input@, index + 1));
            }
            unescaped_characters.push(character);
            index += 1;
        } else if is_octal_digit(input[index + 1]) {
            let octal = read_octal(input, index + 1);
            let code: char = octal.0;
            let taken: usize = octal.1;
            proof {
                lemma_char_is_scalar(code);
                lemma_after_push(produced, code, unescaped_from(input@, index + 1 + taken));
            }
            unescaped_characters.push(code);
            index += 1 + taken;
        } else {
            match resolve_escape(input[index + 1]) {
                Some(target) => {
                    proof {
                        lemma_after_push(produced, target, unescaped_from(input@, index + 2));
                    }
                    unescaped_characters.push(target);
                    index += 2;
                },
                None => {
                    return Err(ParseError::UnknownEscape(input[index + 1]));
                },
            }
        }
    }
    proof {
        assert(unescaped_characters@ + Seq::<char>::empty() =~= unescaped_characters@);
    }
    Ok(unescaped_characters)
}

// ---------------------------------------------------------------------------
// Second pass: ranges
// ---------------------------------------------------------------------------
/// The Unicode scalar values from `lo` up to but not including `hi`, in
/// ascending order. Code points that are no scalar values are passed over.
pub open spec fn scalar_run(lo: int, hi: int) -> Seq<char>
    decreases hi - lo,
{
    if lo >= hi {
        Seq::empty()
    } else if scalar(hi - 1) {
        scalar_run(lo, hi - 1).push((hi - 1) as char)
    } else {
        scalar_run(lo, hi - 1)
    }
}

/// Whether the character at `i` of `u` is a range operator: a `-` with a
/// character on either side.
pub open spec fn range_operator(u: Seq<char>, i: int) -> bool {
    0 < i < u.len() - 1 && u[i] == '-'
}

/// What the range pass has produced once it has handled position `i` of `u`,
/// having produced `out` up to there.
///
/// A character that is no range operator is appended. A range operator
/// contributes the characters strictly between its endpoints; the endpoints
/// come from their own positions. Between equal endpoints it takes back the
/// character produced last, so that `a-a` leaves one `a`. Between endpoints
/// in descending order it is an error.
pub open spec fn expand_step(out: Seq<char>, u: Seq<char>, i: int) -> Result<
    Seq<char>,
    ParseError,
> {
    if range_operator(u, i) {
        let lo = u[i - 1];
        let hi = u[i + 1];
        if lo < hi {
            Ok(out + scalar_run(lo as int + 1, hi as int))
        } else if lo == hi {
            Ok(
                if out.len() > 0 {
                    out.drop_last()
                } else {
                    out
                },
            )
        } else {
            Err(ParseError::RangeOrder(lo, hi))
        }
    } else {
        Ok(out.push(u[i]))
    }
}

/// What the range pass produces from the first `k` positions of `u`.
pub open spec fn expanded_prefix(u: Seq<char>, k: nat) -> Result<Seq<char>, ParseError>
    decreases k,
{
    if k == 0 {
        Ok(Seq::empty())
    } else {
        match expanded_prefix(u, (k - 1) as nat) {
            Ok(out) => expand_step(out, u, k - 1),
            Err(e) => Err(e),
        }
    }
}

/// What the range pass makes of the whole of `u`.
pub open spec fn expanded(u: Seq<char>) -> Result<Seq<char>, ParseError> {
    expanded_prefix(u, u.len())
}

/// The character list that the set expression `s` denotes: its escapes
/// resolved, then its ranges expanded.
pub open spec fn compiled(s: Seq<char>) -> Result<Seq<char>, ParseError> {
    match unescaped(s) {
        Ok(u) => expanded(u),
        Err(e) => Err(e),
    }
}

/// An error of the range pass at some position is the error of the whole
/// pass.
proof fn lemma_expanded_error_stays(u: Seq<char>, k: nat, n: nat)
    requires
        k <= n,
        expanded_prefix(u, k) is Err,
    ensures
        expanded_prefix(u, n) == expanded_prefix(u, k),
    decreases n - k,
{
    if k < n {
        lemma_expanded_error_stays(u, k, (n - 1) as nat);
    }
}

/// Appends to `out` the scalar values from `lo` up to but not including
/// `hi`, in ascending order.
pub fn push_scalar_run(out: &mut Vec<char>, lo: u32, hi: u32)
    ensures
        final(out)@ == old(out)@ + scalar_run(lo as int, hi as int),
{
    let mut code: u32 = lo;
    proof {
        assert(out@ + Seq::<char>::empty() =~= out@);
    }
    while code < hi
        invariant
            lo <= code,
            lo < hi ==> code <= hi,
            lo >= hi ==> code == lo,
            out@ == old(out)@ + scalar_run(lo as int, code as int),
        decreases hi - code,
    {
        let ghost before = scalar_run(lo as int, code as int);
        match char::from_u32(code) {
            Some(c) => {
                out.push(c);
                proof {
                    assert((old(out)@ + before).push(c) =~= old(out)@ + before.push(c));
                }
            },
            None => {},
        }
        code += 1;
    }
}

/// The second pass: expands the ranges of an unescaped set expression.
pub fn expand_ranges(unescaped_characters: &Vec<char>) -> (r: Result<Vec<char>, ParseError>)
    ensures
        outcome(r) == expanded(unescaped_characters@),
{
    let n = unescaped_characters.len();
    let mut final_character_set: Vec<char> = Vec::with_capacity(n);
    let mut index: usize = 0;
    while index < n
        invariant
            n == unescaped_characters.len(),
            index <= n,
            expanded_prefix(unescaped_characters@, index as nat) == Ok::<Seq<char>, ParseError>(
                final_character_set@,
            ),
        decreases n - index,
    {
        let unescaped_char = unescaped_characters[index];
        if unescaped_char == '-' && index > 0 && index < n - 1 {
            let lo = unescaped_characters[index - 1];
            let hi = unescaped_characters[index + 1];
            proof {
                lemma_char_is_scalar(lo);
                lemma_char_is_scalar(hi);
            }
            if lo < hi {
                push_scalar_run(&mut final_character_set, lo as u32 + 1, hi as u32);
            } else if lo == hi {
                final_character_set.pop();
            } else {
                proof {
                    lemma_expanded_error_stays(
                        unescaped_characters@,
                        (index + 1) as nat,
                        n as nat,
                    );
                }
                return Err(ParseError::RangeOrder(lo, hi));
            }
        } else {
            final_character_set.push(unescaped_char);
        }
        index += 1;
    }
    Ok(final_character_set)
}

/// The characters of a string, in order.
pub fn characters(s: &str) -> (r: Vec<char>)
    ensures
        r@ == s@,
{
    let mut out: Vec<char> = Vec::new();
    for c in it: s.chars()
        invariant
            out@ == it.seq().take(it.index()),
    {
        out.push(c);
    }
    out
}

/// Compiles a set expression into the ordered list of characters it
/// denotes, duplicates kept.
pub fn parse(input_string: String) -> (r: Result<Vec<char>, ParseError>)
    ensures
        outcome(r) == compiled(input_string@),
{
    let input_chars = characters(input_string.as_str());
    match unescape(&input_chars) {
        Ok(unescaped_characters) => expand_ranges(&unescaped_characters),
        Err(e) => Err(e),
    }
}

} // verus!
