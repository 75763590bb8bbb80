//! Laws of the set compiler and of the transducer, stated over their
//! mathematical models and proved once and for all.
use crate::escape_parser::{
    compiled, escaped, expanded, expanded_prefix, lemma_char_is_scalar, range_operator, scalar,
    scalar_run, stands_at, token_len, token_value, unescaped, unescaped_from, ParseError,
};
use crate::transducer::{
    last_or, last_position, mapped, mapped_char, predecessor, selected, squeezed_after,
    translated, Mode, Transducer,
};
use vstd::prelude::*;

verus! {

/// Whether `s` holds no backslash.
pub open spec fn no_backslash(s: Seq<char>) -> bool {
    forall|i: int| 0 <= i < s.len() ==> #[trigger] s[i] != '\\'
}

/// Whether `u` holds no range operator: no `-` with a character on either
/// side.
pub open spec fn no_range_operator(u: Seq<char>) -> bool {
    forall|i: int| 0 <= i < u.len() ==> !#[trigger] range_operator(u, i)
}

/// The scan of the escape pass never comes to stand on a character that the
/// look-back rule calls escaped. So a backslash on which it stands is live
/// unless it ends the input.
pub proof fn lemma_scan_never_stands_on_escaped(s: Seq<char>, i: int)
    requires
        stands_at(s, i),
        i < s.len(),
    ensures
        !escaped(s, i),
{
    if i > 0 {
        let h = choose|h: int|
            #![trigger token_len(s, h)]
            0 <= h < i && stands_at(s, h) && token_value(s, h) is Ok && h + token_len(s, h) == i;
        assert(h + token_len(s, h) == i);
    }
}

proof fn lemma_unescaped_plain_from(s: Seq<char>, i: int)
    requires
        no_backslash(s),
        0 <= i <= s.len(),
    ensures
        unescaped_from(s, i) == Ok::<Seq<char>, ParseError>(s.subrange(i, s.len() as int)),
    decreases s.len() - i,
{
    if i < s.len() {
        lemma_unescaped_plain_from(s, i + 1);
        assert(s[i] != '\\');
        assert(seq![s[i]] + s.subrange(i + 1, s.len() as int) =~= s.subrange(i, s.len() as int));
    } else {
        assert(s.subrange(i, s.len() as int) =~= Seq::<char>::empty());
    }
}

/// A set expression without a backslash passes the escape pass unchanged.
pub proof fn lemma_unescaped_without_backslash(s: Seq<char>)
    requires
        no_backslash(s),
    ensures
        unescaped(s) == Ok::<Seq<char>, ParseError>(s),
{
    lemma_unescaped_plain_from(s, 0);
    assert(s.subrange(0, s.len() as int) =~= s);
}

proof fn lemma_expanded_plain_prefix(u: Seq<char>, k: nat)
    requires
        no_range_operator(u),
        k <= u.len(),
    ensures
        expanded_prefix(u, k) == Ok::<Seq<char>, ParseError>(u.take(k as int)),
    decreases k,
{
    if k > 0 {
        lemma_expanded_plain_prefix(u, (k - 1) as nat);
        assert(!range_operator(u, k - 1));
        assert(u.take(k - 1).push(u[k - 1]) =~= u.take(k as int));
    } else {
        assert(u.take(0) =~= Seq::<char>::empty());
    }
}

/// Characters without a range operator among them pass the range pass
/// unchanged.
pub proof fn lemma_expanded_without_operator(u: Seq<char>)
    requires
        no_range_operator(u),
    ensures
        expanded(u) == Ok::<Seq<char>, ParseError>(u),
{
    lemma_expanded_plain_prefix(u, u.len());
    assert(u.take(u.len() as int) =~= u);
}

/// A set expression that holds no backslash, and no `-` but at its front or
/// its end, denotes its own characters.
pub proof fn lemma_literal_compiles_to_itself(s: Seq<char>)
    requires
        no_backslash(s),
        no_range_operator(s),
    ensures
        compiled(s) == Ok::<Seq<char>, ParseError>(s),
{
    lemma_unescaped_without_backslash(s);
    lemma_expanded_without_operator(s);
}

/// A run of scalar values holds exactly the characters whose codes lie in
/// its bounds, each once and in ascending order.
pub proof fn lemma_scalar_run_holds_exactly(lo: int, hi: int)
    ensures
        forall|c: char| #[trigger] scalar_run(lo, hi).contains(c) <==> lo <= (c as int) < hi,
        forall|i: int, j: int|
            0 <= i < j < scalar_run(lo, hi).len() ==> (#[trigger] scalar_run(lo, hi)[i] as int) < (
            #[trigger] scalar_run(lo, hi)[j] as int),
        forall|i: int|
            0 <= i < scalar_run(lo, hi).len() ==> lo <= (#[trigger] scalar_run(lo, hi)[i] as int)
                && (scalar_run(lo, hi)[i] as int) < hi,
    decreases hi - lo,
{
    let run = scalar_run(lo, hi);
    if lo < hi {
        let front = scalar_run(lo, hi - 1);
        lemma_scalar_run_holds_exactly(lo, hi - 1);
        assert forall|c: char| #[trigger] run.contains(c) <==> lo <= (c as int) < hi by {
            lemma_char_is_scalar(c);
            if scalar(hi - 1) {
                let top = (hi - 1) as char;
                if run.contains(c) {
                    let k = choose|k: int| 0 <= k < run.len() && run[k] == c;
                    if k < front.len() {
                        assert(front[k] == c);
                        assert(front.contains(c));
                    }
                }
                if lo <= (c as int) < hi {
                    if c as int == hi - 1 {
                        assert(run[run.len() - 1] == c);
                    } else {
                        assert(front.contains(c));
                        let k = choose|k: int| 0 <= k < front.len() && front[k] == c;
                        assert(run[k] == c);
                    }
                }
            } else {
                assert(run == front);
            }
        }
        assert forall|i: int| 0 <= i < run.len() implies lo <= (#[trigger] run[i] as int) && (run[i] as int)
            < hi by {
            if i < front.len() {
                assert(run[i] == front[i]);
            }
        }
        assert forall|i: int, j: int| 0 <= i < j < run.len() implies (#[trigger] run[i] as int) < (
        #[trigger] run[j] as int) by {
            if j < front.len() {
                assert(run[i] == front[i]);
                assert(run[j] == front[j]);
            } else {
                assert(run[i] == front[i]);
            }
        }
    } else {
        assert forall|c: char| #[trigger] run.contains(c) <==> lo <= (c as int) < hi by {
            if run.contains(c) {
                let k = choose|k: int| 0 <= k < run.len() && run[k] == c;
            }
        }
    }
}

proof fn lemma_scalar_run_front(lo: int, hi: int)
    requires
        lo < hi,
        scalar(lo),
    ensures
        scalar_run(lo, hi) == seq![lo as char] + scalar_run(lo + 1, hi),
    decreases hi - lo,
{
    if lo + 1 < hi {
        lemma_scalar_run_front(lo, hi - 1);
        let rest = scalar_run(lo + 1, hi - 1);
        if scalar(hi - 1) {
            assert((seq![lo as char] + rest).push((hi - 1) as char) =~= seq![lo as char]
                + rest.push((hi - 1) as char));
        }
    } else {
        assert(scalar_run(lo, lo) =~= Seq::<char>::empty());
        assert(scalar_run(lo + 1, hi) =~= Seq::<char>::empty());
        assert(scalar_run(lo, hi) =~= seq![lo as char] + scalar_run(lo + 1, hi));
    }
}

/// A range on its own denotes every character from its first endpoint to
/// its second, both included, in ascending order; with the endpoints in
/// descending order it is rejected, and the error names them.
pub proof fn lemma_single_range(lo: char, hi: char)
    requires
        lo != '\\',
        hi != '\\',
    ensures
        compiled(seq![lo, '-', hi]) == if lo <= hi {
            Ok::<Seq<char>, ParseError>(scalar_run(lo as int, hi as int + 1))
        } else {
            Err::<Seq<char>, ParseError>(ParseError::RangeOrder(lo, hi))
        },
{
    let s = seq![lo, '-', hi];
    lemma_char_is_scalar(lo);
    lemma_char_is_scalar(hi);
    lemma_unescaped_without_backslash(s);
    reveal_with_fuel(expanded_prefix, 4);
    assert(!range_operator(s, 0));
    assert(range_operator(s, 1));
    assert(!range_operator(s, 2));
    let first = Seq::<char>::empty().push(lo);
    assert(expanded_prefix(s, 1) == Ok::<Seq<char>, ParseError>(first));
    if lo < hi {
        lemma_scalar_run_front(lo as int, hi as int);
        assert(first + scalar_run(lo as int + 1, hi as int) =~= scalar_run(lo as int, hi as int));
    } else if lo == hi {
        assert(first.drop_last() =~= scalar_run(hi as int, hi as int));
    }
}

// ---------------------------------------------------------------------------
// The transducer
// ---------------------------------------------------------------------------
/// The last occurrence decides: `last_position` finds an index that holds
/// `c` with no `c` behind it, and finds none only where there is no `c`.
pub proof fn lemma_last_position(set: Seq<char>, c: char)
    ensures
        match last_position(set, c) {
            Some(i) => 0 <= i < set.len() && set[i] == c && forall|j: int|
                i < j < set.len() ==> set[j] != c,
            None => !set.contains(c),
        },
    decreases set.len(),
{
    if set.len() > 0 && set.last() != c {
        let front = set.drop_last();
        lemma_last_position(front, c);
        match last_position(front, c) {
            Some(i) => {
                assert(set[i] == front[i]);
                assert forall|j: int| i < j < set.len() implies set[j] != c by {
                    if j < front.len() {
                        assert(set[j] == front[j]);
                    }
                }
            },
            None => {
                if set.contains(c) {
                    let k = choose|k: int| 0 <= k < set.len() && set[k] == c;
                    assert(front[k] == c);
                }
            },
        }
    }
}

/// The first pass works character by character: what it makes of two
/// inputs in a row is what it makes of the first, followed by what it
/// makes of the second.
pub proof fn lemma_mapped_concat(
    mode: Mode,
    complement: bool,
    set1: Seq<char>,
    set2: Seq<char>,
    a: Seq<char>,
    b: Seq<char>,
)
    ensures
        mapped(mode, complement, set1, set2, a + b) == mapped(mode, complement, set1, set2, a)
            + mapped(mode, complement, set1, set2, b),
    decreases b.len(),
{
    let left = mapped(mode, complement, set1, set2, a);
    if b.len() == 0 {
        assert(a + b =~= a);
        assert(left + Seq::<char>::empty() =~= left);
    } else {
        let front = b.drop_last();
        lemma_mapped_concat(mode, complement, set1, set2, a, front);
        assert((a + b).drop_last() =~= a + front);
        assert((a + b).last() == b.last());
        let middle = mapped(mode, complement, set1, set2, front);
        match mapped_char(mode, complement, set1, set2, b.last()) {
            Some(d) => {
                assert((left + middle).push(d) =~= left + middle.push(d));
            },
            None => {},
        }
    }
}

/// Replacing keeps the length of the input, and changes a character only
/// where the first set selects it.
pub proof fn lemma_replace_is_pointwise(
    complement: bool,
    set1: Seq<char>,
    set2: Seq<char>,
    input: Seq<char>,
)
    ensures
        mapped(Mode::Replace, complement, set1, set2, input).len() == input.len(),
        forall|i: int|
            0 <= i < input.len() ==> #[trigger] mapped(
                Mode::Replace,
                complement,
                set1,
                set2,
                input,
            )[i] == if selected(set1, complement, input[i]) {
                translated(input[i], set1, set2)
            } else {
                input[i]
            },
    decreases input.len(),
{
    if input.len() > 0 {
        lemma_replace_is_pointwise(complement, set1, set2, input.drop_last());
    }
}

/// Deleting keeps exactly the characters that the first set does not
/// select, in their order.
pub proof fn lemma_delete_is_filter(
    complement: bool,
    set1: Seq<char>,
    set2: Seq<char>,
    input: Seq<char>,
)
    ensures
        mapped(Mode::Delete, complement, set1, set2, input) == input.filter(
            |c: char| !selected(set1, complement, c),
        ),
    decreases input.len(),
{
    reveal(Seq::filter);
    if input.len() > 0 {
        lemma_delete_is_filter(complement, set1, set2, input.drop_last());
    }
}

/// Squeezing may be cut anywhere: what it makes of two inputs in a row is
/// what it makes of the first, followed by what it makes of the second
/// when told how the first one ended.
pub proof fn lemma_squeezed_concat(
    set: Seq<char>,
    complement: bool,
    previous: Option<char>,
    a: Seq<char>,
    b: Seq<char>,
)
    ensures
        squeezed_after(set, complement, previous, a + b) == squeezed_after(
            set,
            complement,
            previous,
            a,
        ) + squeezed_after(set, complement, last_or(previous, a), b),
    decreases b.len(),
{
    let left = squeezed_after(set, complement, previous, a);
    let carry = last_or(previous, a);
    if b.len() == 0 {
        assert(a + b =~= a);
        assert(left + Seq::<char>::empty() =~= left);
    } else {
        let front = b.drop_last();
        lemma_squeezed_concat(set, complement, previous, a, front);
        assert((a + b).drop_last() =~= a + front);
        assert((a + b).last() == b.last());
        assert(predecessor(previous, a + b, (a + b).len() - 1) == predecessor(
            carry,
            b,
            b.len() - 1,
        ));
        let middle = squeezed_after(set, complement, carry, front);
        assert((left + middle).push(b.last()) =~= left + middle.push(b.last()));
    }
}

/// What squeezing leaves holds no selected character directly behind an
/// equal one, and does not begin with a selected character equal to the
/// one that came before the input.
pub proof fn lemma_squeezed_has_no_repeats(
    set: Seq<char>,
    complement: bool,
    previous: Option<char>,
    input: Seq<char>,
)
    ensures
        forall|i: int|
            0 <= i < squeezed_after(set, complement, previous, input).len() && selected(
                set,
                complement,
                #[trigger] squeezed_after(set, complement, previous, input)[i],
            ) ==> predecessor(previous, squeezed_after(set, complement, previous, input), i)
                != Some(squeezed_after(set, complement, previous, input)[i]),
        last_or(previous, squeezed_after(set, complement, previous, input)) == last_or(
            previous,
            input,
        ),
    decreases input.len(),
{
    if input.len() > 0 {
        lemma_squeezed_has_no_repeats(set, complement, previous, input.drop_last());
    }
}

/// Squeezing without a predecessor changes nothing where no selected
/// character stands directly behind an equal one.
pub proof fn lemma_squeezed_without_repeats(set: Seq<char>, complement: bool, input: Seq<char>)
    requires
        forall|i: int|
            0 < i < input.len() && selected(set, complement, #[trigger] input[i]) ==> input[i - 1]
                != input[i],
    ensures
        squeezed_after(set, complement, None, input) == input,
    decreases input.len(),
{
    if input.len() > 0 {
        let front = input.drop_last();
        assert forall|i: int|
            0 < i < front.len() && selected(set, complement, #[trigger] front[i]) implies front[i
                - 1] != front[i] by {
            assert(front[i] == input[i]);
        }
        lemma_squeezed_without_repeats(set, complement, front);
        assert(front.push(input.last()) =~= input);
        let i = input.len() - 1;
        if i > 0 && selected(set, complement, input[i]) {
            assert(input[i - 1] != input[i]);
        }
    } else {
        assert(input =~= Seq::<char>::empty());
    }
}

/// Squeezing twice is squeezing once.
pub proof fn lemma_squeezed_twice(set: Seq<char>, complement: bool, input: Seq<char>)
    ensures
        squeezed_after(set, complement, None, squeezed_after(set, complement, None, input))
            == squeezed_after(set, complement, None, input),
{
    let once = squeezed_after(set, complement, None, input);
    lemma_squeezed_has_no_repeats(set, complement, None, input);
    assert forall|i: int| 0 < i < once.len() && selected(set, complement, #[trigger] once[i])
        implies once[i - 1] != once[i] by {
        assert(predecessor(None, once, i) == Some(once[i - 1]));
    }
    lemma_squeezed_without_repeats(set, complement, once);
}

/// A transducer takes a stream in chunks: with the carry handed from each
/// chunk to the next, the output for two chunks in a row is the output for
/// both as one, and so is the carry. The run accepts both as one exactly
/// where it accepts each.
pub proof fn lemma_chunks_compose(t: Transducer, previous: Option<char>, a: Seq<char>, b: Seq<char>)
    ensures
        t.output_after(previous, a + b) == t.output_after(previous, a) + t.output_after(
            t.carry_after(previous, a),
            b,
        ),
        t.carry_after(previous, a + b) == t.carry_after(t.carry_after(previous, a), b),
        t.accepts(a + b) <==> t.accepts(a) && t.accepts(b),
{
    lemma_mapped_concat(t.config.mode, t.config.complement, t.set1@, t.set2@, a, b);
    let first_a = t.first_pass(a);
    let first_b = t.first_pass(b);
    assert(t.first_pass(a + b) == first_a + first_b);
    lemma_squeezed_concat(t.squeeze_set(), t.config.complement, previous, first_a, first_b);
    if first_b.len() > 0 {
        assert((first_a + first_b).last() == first_b.last());
    } else {
        assert(first_a + first_b =~= first_a);
    }
    if t.accepts(a + b) {
        assert forall|i: int| 0 <= i < a.len() implies (a + b)[i] == a[i] by {}
        assert forall|i: int| 0 <= i < b.len() implies (a + b)[a.len() + i] == b[i] by {}
        if !t.config.only_squeeze && t.config.mode == Mode::Replace && !t.config.complement
            && t.set2@.len() == 0 {
            assert forall|i: int| 0 <= i < a.len() implies !t.set1@.contains(#[trigger] a[i]) by {
                assert((a + b)[i] == a[i]);
            }
            assert forall|i: int| 0 <= i < b.len() implies !t.set1@.contains(#[trigger] b[i]) by {
                assert((a + b)[a.len() + i] == b[i]);
            }
        }
    }
    if t.accepts(a) && t.accepts(b) {
        if !t.config.only_squeeze && t.config.mode == Mode::Replace && !t.config.complement
            && t.set2@.len() == 0 {
            assert forall|i: int| 0 <= i < (a + b).len() implies !t.set1@.contains(
                #[trigger] (a + b)[i],
            ) by {
                if i < a.len() {
                    assert((a + b)[i] == a[i]);
                } else {
                    assert((a + b)[i] == b[i - a.len()]);
                }
            }
        }
    }
}

} // verus!
