//! The stream transducer: translation, deletion and squeezing of a stream
//! of characters, given the compiled sets.
//!
//! The work is two passes. The first replaces or deletes the characters that
//! the first set selects. The second, where squeezing is asked for, drops a
//! selected character that repeats the one before it.
use vstd::prelude::*;

verus! {

/// What is done to a character that the first set selects.
#[derive(Debug, Clone, Copy, PartialEq, Eq, Structural)]
pub enum Mode {
    /// It is replaced by its counterpart in the second set.
    Replace,
    /// It is dropped.
    Delete,
}

/// The settings of one run.
#[derive(Debug, Clone, Copy, PartialEq, Eq, Structural)]
pub struct RunConfig {
    /// What happens to a selected character.
    pub mode: Mode,
    /// Whether the sets select the characters they do not hold.
    pub complement: bool,
    /// Whether repeats are squeezed.
    pub squeeze: bool,
    /// Whether the first set is cut down to the length of the second.
    pub truncate: bool,
    /// Whether the run only squeezes: there is no second set, and the first
    /// pass leaves every character as it is.
    pub only_squeeze: bool,
}

// ---------------------------------------------------------------------------
// The model
// ---------------------------------------------------------------------------
/// Whether `set` selects `c`: it holds `c`, or, complemented, it does not.
pub open spec fn selected(set: Seq<char>, complement: bool, c: char) -> bool {
    set.contains(c) != complement
}

/// The highest index at which `set` holds `c`, if it holds `c` at all.
pub open spec fn last_position(set: Seq<char>, c: char) -> Option<int>
    decreases set.len(),
{
    if set.len() == 0 {
        None
    } else if set.last() == c {
        Some(set.len() - 1)
    } else {
        last_position(set.drop_last(), c)
    }
}

/// The counterpart of `c`: the character of `set2` at the index of the last
/// occurrence of `c` in `set1`, or the last character of `set2` where `set2`
/// is too short for that; `c` itself where `set1` does not hold it.
pub open spec fn translated(c: char, set1: Seq<char>, set2: Seq<char>) -> char {
    match last_position(set1, c) {
        None => c,
        Some(i) => if i < set2.len() {
            set2[i]
        } else {
            set2.last()
        },
    }
}

/// What the first pass makes of one character: its replacement, the
/// character itself, or nothing.
pub open spec fn mapped_char(
    mode: Mode,
    complement: bool,
    set1: Seq<char>,
    set2: Seq<char>,
    c: char,
) -> Option<char> {
    if selected(set1, complement, c) {
        match mode {
            Mode::Replace => Some(translated(c, set1, set2)),
            Mode::Delete => None,
        }
    } else {
        Some(c)
    }
}

/// What the first pass makes of `input`: each character in turn replaced,
/// kept or dropped.
pub open spec fn mapped(
    mode: Mode,
    complement: bool,
    set1: Seq<char>,
    set2: Seq<char>,
    input: Seq<char>,
) -> Seq<char>
    decreases input.len(),
{
    if input.len() == 0 {
        Seq::empty()
    } else {
        let front = mapped(mode, complement, set1, set2, input.drop_last());
        match mapped_char(mode, complement, set1, set2, input.last()) {
            Some(d) => front.push(d),
            None => front,
        }
    }
}

/// The character that comes before position `i` of `input`, where `previous`
/// is what came before the input.
pub open spec fn predecessor(previous: Option<char>, input: Seq<char>, i: int) -> Option<char> {
    if i > 0 {
        Some(input[i - 1])
    } else {
        previous
    }
}

/// What squeezing makes of `input` when `previous` came before it: a
/// character is dropped where it repeats its predecessor and `set` selects
/// it, and kept otherwise.
pub open spec fn squeezed_after(
    set: Seq<char>,
    complement: bool,
    previous: Option<char>,
    input: Seq<char>,
) -> Seq<char>
    decreases input.len(),
{
    if input.len() == 0 {
        Seq::empty()
    } else {
        let front = squeezed_after(set, complement, previous, input.drop_last());
        let c = input.last();
        if predecessor(previous, input, input.len() - 1) == Some(c) && selected(
            set,
            complement,
            c,
        ) {
            front
        } else {
            front.push(c)
        }
    }
}

/// The last character of `input`, or `previous` where there is none.
pub open spec fn last_or(previous: Option<char>, input: Seq<char>) -> Option<char> {
    predecessor(previous, input, input.len() as int)
}

/// The first set as the run uses it: cut down to the length of the second
/// where truncation is asked for and the run replaces.
pub open spec fn effective_set1(config: RunConfig, set1: Seq<char>, set2: Seq<char>) -> Seq<char> {
    if config.truncate && config.mode == Mode::Replace && !config.only_squeeze && set2.len()
        < set1.len() {
        set1.take(set2.len() as int)
    } else {
        set1
    }
}

// ---------------------------------------------------------------------------
// Single characters
// ---------------------------------------------------------------------------
/// Tells whether `set` holds `c`.
pub fn contains(set: &Vec<char>, c: char) -> (r: bool)
    ensures
        r == set@.contains(c),
{
    let mut i: usize = 0;
    while i < set.len()
        invariant
            i <= set.len(),
            forall|j: int| 0 <= j < i ==> set@[j] != c,
        decreases set.len() - i,
    {
        if set[i] == c {
            return true;
        }
        i += 1;
    }
    false
}

/// The counterpart of `character` under the mapping from `set1` to `set2`.
/// Where `set1` holds the character, `set2` must hold a character too.
pub fn translate(character: char, set1: &Vec<char>, set2: &Vec<char>) -> (r: char)
    requires
        set2.len() > 0 || !set1@.contains(character),
    ensures
        r == translated(character, set1@, set2@),
{
    proof {
        assert(set1@.take(set1.len() as int) =~= set1@);
    }
    let mut index: usize = set1.len();
    while index > 0
        invariant
            index <= set1.len(),
            set2.len() > 0 || !set1@.contains(character),
            last_position(set1@, character) == last_position(set1@.take(index as int), character),
        decreases index,
    {
        index -= 1;
        proof {
            assert(set1@.take(index + 1).drop_last() =~= set1@.take(index as int));
        }
        if set1[index] == character {
            assert(set1@[index as int] == character);
            return if index < set2.len() {
                set2[index]
            } else {
                set2[set2.len() - 1]
            };
        }
    }
    character
}

// ---------------------------------------------------------------------------
// The two passes
// ---------------------------------------------------------------------------
/// Whether the first pass can handle `input`: no character of it has to be
/// replaced from an empty second set.
pub open spec fn replaceable(
    mode: Mode,
    complement: bool,
    set1: Seq<char>,
    set2: Seq<char>,
    input: Seq<char>,
) -> bool {
    mode == Mode::Replace && !complement && set2.len() == 0 ==> forall|i: int|
        0 <= i < input.len() ==> !set1.contains(#[trigger] input[i])
}

/// The first pass over `input`: replaces or deletes what `set1` selects.
pub fn map_characters(
    mode: Mode,
    complement: bool,
    set1: &Vec<char>,
    set2: &Vec<char>,
    input: &Vec<char>,
) -> (r: Vec<char>)
    requires
        replaceable(mode, complement, set1@, set2@, input@),
    ensures
        r@ == mapped(mode, complement, set1@, set2@, input@),
{
    let mut result: Vec<char> = Vec::with_capacity(input.len());
    let mut i: usize = 0;
    while i < input.len()
        invariant
            i <= input.len(),
            replaceable(mode, complement, set1@, set2@, input@),
            result@ == mapped(mode, complement, set1@, set2@, input@.take(i as int)),
        decreases input.len() - i,
    {
        let character = input[i];
        proof {
            assert(input@.take(i + 1).drop_last() =~= input@.take(i as int));
            assert(input@[i as int] == character);
        }
        if contains(set1, character) != complement {
            match mode {
                Mode::Replace => result.push(translate(character, set1, set2)),
                Mode::Delete => {},
            }
        } else {
            result.push(character);
        }
        i += 1;
    }
    proof {
        assert(input@.take(input.len() as int) =~= input@);
    }
    result
}

/// The squeezing pass over `input`, `previous` being the character that
/// came before it, if any.
pub fn squeeze_characters(
    set: &Vec<char>,
    complement: bool,
    previous: Option<char>,
    input: &Vec<char>,
) -> (r: Vec<char>)
    ensures
        r@ == squeezed_after(set@, complement, previous, input@),
{
    let mut squeezed_result: Vec<char> = Vec::with_capacity(input.len());
    let mut previous_character: Option<char> = previous;
    let mut i: usize = 0;
    while i < input.len()
        invariant
            i <= input.len(),
            previous_character == predecessor(previous, input@, i as int),
            squeezed_result@ == squeezed_after(set@, complement, previous, input@.take(i as int)),
        decreases input.len() - i,
    {
        let character = input[i];
        proof {
            assert(input@.take(i + 1).drop_last() =~= input@.take(i as int));
        }
        let repeats = match previous_character {
            Some(before) => before == character,
            None => false,
        };
        if repeats && (contains(set, character) != complement) {
        } else {
            squeezed_result.push(character);
        }
        previous_character = Some(character);
        i += 1;
    }
    proof {
        assert(input@.take(input.len() as int) =~= input@);
    }
    squeezed_result
}

// ---------------------------------------------------------------------------
// The transducer
// ---------------------------------------------------------------------------
/// A run that is ready to take input: its settings and its two sets. The
/// second set is empty where none was given.
#[derive(Debug, Clone, PartialEq, Eq)]
pub struct Transducer {
    /// The settings of the run.
    pub config: RunConfig,
    /// The first set, which selects the characters to work on.
    pub set1: Vec<char>,
    /// The second set, which holds the replacements, or selects what is
    /// squeezed.
    pub set2: Vec<char>,
}

impl Transducer {
    /// What the first pass makes of `input`.
    pub open spec fn first_pass(&self, input: Seq<char>) -> Seq<char> {
        if self.config.only_squeeze {
            input
        } else {
            mapped(self.config.mode, self.config.complement, self.set1@, self.set2@, input)
        }
    }

    /// The set that selects what is squeezed: the only set there is where
    /// the run only squeezes, and the second set otherwise.
    pub open spec fn squeeze_set(&self) -> Seq<char> {
        if self.config.only_squeeze {
            self.set1@
        } else {
            self.set2@
        }
    }

    /// The output for `input` where `previous` was the last character that
    /// went into the squeezing pass before it.
    pub open spec fn output_after(&self, previous: Option<char>, input: Seq<char>) -> Seq<char> {
        if self.config.squeeze {
            squeezed_after(
                self.squeeze_set(),
                self.config.complement,
                previous,
                self.first_pass(input),
            )
        } else {
            self.first_pass(input)
        }
    }

    /// The last character that has gone into the squeezing pass once `input`
    /// is done.
    pub open spec fn carry_after(&self, previous: Option<char>, input: Seq<char>) -> Option<char> {
        last_or(previous, self.first_pass(input))
    }

    /// The output for `input` taken as a whole stream.
    pub open spec fn output(&self, input: Seq<char>) -> Seq<char> {
        self.output_after(None, input)
    }

    /// Whether the run can take `input`: it does not have to replace a
    /// character of it from an empty second set.
    pub open spec fn accepts(&self, input: Seq<char>) -> bool {
        self.config.only_squeeze || replaceable(
            self.config.mode,
            self.config.complement,
            self.set1@,
            self.set2@,
            input,
        )
    }

    /// Makes a transducer of the settings and the compiled sets, cutting the
    /// first set down where the settings ask for it. `set2` is empty where
    /// no second set was given.
    pub fn new(config: RunConfig, set1: Vec<char>, set2: Vec<char>) -> (r: Transducer)
        ensures
            r.config == config,
            r.set1@ == effective_set1(config, set1@, set2@),
            r.set2@ == set2@,
    {
        let mut set1 = set1;
        let truncates = match config.mode {
            Mode::Replace => config.truncate && !config.only_squeeze,
            Mode::Delete => false,
        };
        if truncates {
            set1.truncate(set2.len());
        }
        Transducer { config, set1, set2 }
    }

    /// Tells whether the run can take `input`.
    pub fn can_run(&self, input: &Vec<char>) -> (r: bool)
        ensures
            r == self.accepts(input@),
    {
        let replaces = match self.config.mode {
            Mode::Replace => true,
            Mode::Delete => false,
        };
        if self.config.only_squeeze || !replaces || self.config.complement || self.set2.len() > 0 {
            return true;
        }
        let mut i: usize = 0;
        while i < input.len()
            invariant
                i <= input.len(),
                !self.config.only_squeeze,
                self.config.mode == Mode::Replace,
                !self.config.complement,
                self.set2.len() == 0,
                forall|j: int| 0 <= j < i ==> !self.set1@.contains(#[trigger] input@[j]),
            decreases input.len() - i,
        {
            if contains(&self.set1, input[i]) {
                return false;
            }
            i += 1;
        }
        true
    }

    /// Transduces one chunk of a stream. `previous` is the carry that the
    /// call for the chunk before returned, and nothing for the first chunk.
    /// The result is the output for this chunk and the carry for the next.
    ///
    /// With the carry handed on, a run of equal characters is squeezed
    /// across the boundary between two chunks too, so that the output does
    /// not depend on where the stream was cut.
    pub fn run_chunk(&self, previous: Option<char>, input: &Vec<char>) -> (r: (
        Vec<char>,
        Option<char>,
    ))
        requires
            self.accepts(input@),
        ensures
            r.0@ == self.output_after(previous, input@),
            r.1 == self.carry_after(previous, input@),
    {
        if self.config.only_squeeze {
            let carry = last_character(previous, input);
            if self.config.squeeze {
                (squeeze_characters(&self.set1, self.config.complement, previous, input), carry)
            } else {
                (input.clone(), carry)
            }
        } else {
            let result = map_characters(
                self.config.mode,
                self.config.complement,
                &self.set1,
                &self.set2,
                input,
            );
            let carry = last_character(previous, &result);
            if self.config.squeeze {
                (squeeze_characters(&self.set2, self.config.complement, previous, &result), carry)
            } else {
                (result, carry)
            }
        }
    }

    /// Transduces one chunk of a stream where the run can take it, as
    /// `run_chunk` does, and returns nothing where it cannot.
    pub fn try_run_chunk(&self, previous: Option<char>, input: &Vec<char>) -> (r: Option<
        (Vec<char>, Option<char>),
    >)
        ensures
            r is Some <==> self.accepts(input@),
            r matches Some(done) ==> done.0@ == self.output_after(previous, input@) && done.1
                == self.carry_after(previous, input@),
    {
        if self.can_run(input) {
            Some(self.run_chunk(previous, input))
        } else {
            None
        }
    }

    /// Transduces `input` as a stream of its own: nothing is carried in
    /// from an earlier call, so a run of equal characters that began in
    /// the input of an earlier call is not squeezed together with its
    /// continuation here.
    pub fn run(&self, input: &Vec<char>) -> (r: Vec<char>)
        requires
            self.accepts(input@),
        ensures
            r@ == self.output(input@),
    {
        self.run_chunk(None, input).0
    }
}

/// The last character of `input`, or `previous` where `input` is empty.
pub fn last_character(previous: Option<char>, input: &Vec<char>) -> (r: Option<char>)
    ensures
        r == last_or(previous, input@),
{
    if input.len() > 0 {
        Some(input[input.len() - 1])
    } else {
        previous
    }
}

} // verus!
