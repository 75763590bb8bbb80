//! From the words of a command line to a run that is ready to take input:
//! the flags, the operands, and the rules on how they go together.
use crate::escape_parser::{compiled, parse, ParseError};
use crate::transducer::{effective_set1, Mode, RunConfig, Transducer};
use vstd::prelude::*;
use vstd::string::{StrSliceExecFns, StringExecFns};

verus! {

/// The flags that precede the operands.
#[derive(Debug, Clone, Copy, PartialEq, Eq, Structural)]
pub struct Flags {
    /// `-c`, `-C` or `--complement`.
    pub complement: bool,
    /// `-d` or `--delete`.
    pub delete: bool,
    /// `-s` or `--squeeze-repeats`.
    pub squeeze: bool,
    /// `-t` or `--truncate-set1`.
    pub truncate: bool,
}

/// What a word of the command line is, read where a flag may stand.
#[derive(Debug, Clone, Copy, PartialEq, Eq, Structural)]
pub enum Word {
    /// The flag that complements the sets.
    Complement,
    /// The flag that deletes in place of replacing.
    Delete,
    /// The flag that squeezes repeats.
    Squeeze,
    /// The flag that cuts the first set down to the length of the second.
    Truncate,
    /// `--`: the words behind it are operands whatever they begin with.
    EndOfFlags,
    /// A word that begins with `-` and names no flag.
    Unknown,
    /// Any other word: the first operand.
    Operand,
}

/// Why no run could be planned.
#[derive(Debug, Clone, PartialEq, Eq)]
pub enum PlanError {
    /// This word stands among the flags and names none.
    UnknownArgument(String),
    /// Deleting and squeezing were both asked for with a single set.
    MissingOperand,
    /// A set expression was rejected.
    Invalid(ParseError),
}

/// What is to be done for a command line.
#[derive(Debug, Clone, PartialEq, Eq)]
pub enum Plan {
    /// Too few operands were given: the usage line is to be shown, and no
    /// input read.
    Usage,
    /// Input is to be run through this transducer.
    Run(Transducer),
}

// ---------------------------------------------------------------------------
// The model
// ---------------------------------------------------------------------------
/// What the word `w` is.
pub open spec fn word_kind(w: Seq<char>) -> Word {
    if w == "-c"@ || w == "-C"@ || w == "--complement"@ {
        Word::Complement
    } else if w == "-d"@ || w == "--delete"@ {
        Word::Delete
    } else if w == "-s"@ || w == "--squeeze-repeats"@ {
        Word::Squeeze
    } else if w == "-t"@ || w == "--truncate-set1"@ {
        Word::Truncate
    } else if w == "--"@ {
        Word::EndOfFlags
    } else if w.len() > 0 && w[0] == '-' {
        Word::Unknown
    } else {
        Word::Operand
    }
}

/// No flag set.
pub open spec fn no_flags() -> Flags {
    Flags { complement: false, delete: false, squeeze: false, truncate: false }
}

/// `flags` with the flag that `kind` names set too.
pub open spec fn with_flag(flags: Flags, kind: Word) -> Flags {
    match kind {
        Word::Complement => Flags { complement: true, ..flags },
        Word::Delete => Flags { delete: true, ..flags },
        Word::Squeeze => Flags { squeeze: true, ..flags },
        Word::Truncate => Flags { truncate: true, ..flags },
        _ => flags,
    }
}

/// The flags of `args` from word `i` on, `flags` being set already, and the
/// index of the first operand; or the index of the first word that begins
/// with `-` and names no flag. Flags are read up to the first word that is
/// none, or up to and including `--`.
pub open spec fn scanned_from(args: Seq<String>, i: int, flags: Flags) -> Result<(Flags, int), int>
    decreases args.len() - i,
{
    if i < 0 || i >= args.len() {
        Ok((flags, i))
    } else {
        match word_kind(args[i]@) {
            Word::Operand => Ok((flags, i)),
            Word::EndOfFlags => Ok((flags, i + 1)),
            Word::Unknown => Err(i),
            kind => scanned_from(args, i + 1, with_flag(flags, kind)),
        }
    }
}

/// The settings of the run that the flags ask for, by whether a second set
/// was given. Squeezing without deleting and without a second set is a run
/// that only squeezes.
pub open spec fn resolved(flags: Flags, second_set: bool) -> RunConfig {
    RunConfig {
        mode: if flags.delete {
            Mode::Delete
        } else {
            Mode::Replace
        },
        complement: flags.complement,
        squeeze: flags.squeeze,
        truncate: flags.truncate,
        only_squeeze: !flags.delete && flags.squeeze && !second_set,
    }
}

/// Whether the run reads its second operand: always when it replaces, and
/// when it deletes only for squeezing.
pub open spec fn reads_second_set(flags: Flags) -> bool {
    !flags.delete || flags.squeeze
}

/// A plan, or the reason why there is none, as a mathematical value.
pub enum Planned {
    /// The usage line is to be shown.
    Usage,
    /// This word stands among the flags and names none.
    UnknownArgument(Seq<char>),
    /// Deleting and squeezing were both asked for with a single set.
    MissingOperand,
    /// A set expression was rejected.
    Invalid(ParseError),
    /// A run with these settings and sets.
    Run { config: RunConfig, set1: Seq<char>, set2: Seq<char> },
}

/// The run for `flags` and the operands of `args` from `first` on, of which
/// there is at least one, and two where the flags need two.
pub open spec fn planned_run(args: Seq<String>, flags: Flags, first: int) -> Planned {
    let second_set = first + 1 < args.len() && reads_second_set(flags);
    let config = resolved(flags, first + 1 < args.len());
    match compiled(args[first]@) {
        Err(e) => Planned::Invalid(e),
        Ok(set1) => if second_set {
            match compiled(args[first + 1]@) {
                Err(e) => Planned::Invalid(e),
                Ok(set2) => Planned::Run { config, set1: effective_set1(config, set1, set2), set2 },
            }
        } else {
            Planned::Run { config, set1, set2: Seq::empty() }
        },
    }
}

/// What is to be done for the words `args`, the program's name not among
/// them.
///
/// A word among the flags that begins with `-` and names none is an error.
/// With no operand the usage line is asked for; so it is with a single
/// operand where the run is to replace without squeezing. Deleting and
/// squeezing with a single operand is an error. Otherwise the operands are
/// compiled, the first one first, and the run is made of them.
pub open spec fn planned(args: Seq<String>) -> Planned {
    match scanned_from(args, 0, no_flags()) {
        Err(k) => Planned::UnknownArgument(args[k]@),
        Ok((flags, first)) => {
            let operands = args.len() - first;
            if operands <= 0 {
                Planned::Usage
            } else if operands < 2 && flags.delete && flags.squeeze {
                Planned::MissingOperand
            } else if operands < 2 && !flags.delete && !flags.squeeze {
                Planned::Usage
            } else {
                planned_run(args, flags, first)
            }
        },
    }
}

/// The mathematical value of what `plan` returned.
pub open spec fn plan_view(r: Result<Plan, PlanError>) -> Planned {
    match r {
        Ok(Plan::Usage) => Planned::Usage,
        Ok(Plan::Run(t)) => Planned::Run { config: t.config, set1: t.set1@, set2: t.set2@ },
        Err(PlanError::UnknownArgument(word)) => Planned::UnknownArgument(word@),
        Err(PlanError::MissingOperand) => Planned::MissingOperand,
        Err(PlanError::Invalid(e)) => Planned::Invalid(e),
    }
}

// ---------------------------------------------------------------------------
// Reading the words
// ---------------------------------------------------------------------------
/// Tells whether `word` is spelled `name`.
fn is_spelled(word: &String, name: &str) -> (r: bool)
    ensures
        r == (word@ == name@),
{
    *word == String::from_str(name)
}

/// Tells what `word` is.
pub fn classify(word: &String) -> (r: Word)
    ensures
        r == word_kind(word@),
{
    if is_spelled(word, "-c") || is_spelled(word, "-C") || is_spelled(word, "--complement") {
        Word::Complement
    } else if is_spelled(word, "-d") || is_spelled(word, "--delete") {
        Word::Delete
    } else if is_spelled(word, "-s") || is_spelled(word, "--squeeze-repeats") {
        Word::Squeeze
    } else if is_spelled(word, "-t") || is_spelled(word, "--truncate-set1") {
        Word::Truncate
    } else if is_spelled(word, "--") {
        Word::EndOfFlags
    } else if word.as_str().unicode_len() > 0 && word.as_str().get_char(0) == '-' {
        Word::Unknown
    } else {
        Word::Operand
    }
}

/// Reads the flags at the front of `args`: the flags and the index of the
/// first operand, or the index of the word that names no flag.
pub fn scan_flags(args: &Vec<String>) -> (r: Result<(Flags, usize), usize>)
    ensures
        match (r, scanned_from(args@, 0, no_flags())) {
            (Ok((flags, first)), Ok((f, i))) => flags == f && first == i && first <= args.len(),
            (Err(index), Err(k)) => index == k && index < args.len(),
            _ => false,
        },
{
    let mut flags = Flags { complement: false, delete: false, squeeze: false, truncate: false };
    let mut i: usize = 0;
    while i < args.len()
        invariant
            i <= args.len(),
            scanned_from(args@, 0, no_flags()) == scanned_from(args@, i as int, flags),
        decreases args.len() - i,
    {
        match classify(&args[i]) {
            Word::Complement => {
                flags.complement = true;
            },
            Word::Delete => {
                flags.delete = true;
            },
            Word::Squeeze => {
                flags.squeeze = true;
            },
            Word::Truncate => {
                flags.truncate = true;
            },
            Word::EndOfFlags => {
                return Ok((flags, i + 1));
            },
            Word::Unknown => {
                return Err(i);
            },
            Word::Operand => {
                return Ok((flags, i));
            },
        }
        i += 1;
    }
    Ok((flags, i))
}

/// Resolves the flags into the settings of a run.
pub fn resolve(flags: Flags, second_set: bool) -> (r: RunConfig)
    ensures
        r == resolved(flags, second_set),
{
    RunConfig {
        mode: if flags.delete {
            Mode::Delete
        } else {
            Mode::Replace
        },
        complement: flags.complement,
        squeeze: flags.squeeze,
        truncate: flags.truncate,
        only_squeeze: !flags.delete && flags.squeeze && !second_set,
    }
}

/// Plans the run for the words `args` of a command line, the program's name
/// not among them.
pub fn plan(args: &Vec<String>) -> (r: Result<Plan, PlanError>)
    ensures
        plan_view(r) == planned(args@),
{
    let (flags, first) = match scan_flags(args) {
        Ok(scan) => scan,
        Err(index) => {
            return Err(PlanError::UnknownArgument(args[index].clone()));
        },
    };
    let operands = args.len() - first;
    if operands == 0 {
        return Ok(Plan::Usage);
    }
    if operands < 2 && flags.delete && flags.squeeze {
        return Err(PlanError::MissingOperand);
    }
    if operands < 2 && !flags.delete && !flags.squeeze {
        return Ok(Plan::Usage);
    }
    let config = resolve(flags, operands >= 2);
    let set1 = match parse(args[first].clone()) {
        Ok(set) => set,
        Err(e) => {
            return Err(PlanError::Invalid(e));
        },
    };
    let set2 = if operands >= 2 && (!flags.delete || flags.squeeze) {
        match parse(args[first + 1].clone()) {
            Ok(set) => set,
            Err(e) => {
                return Err(PlanError::Invalid(e));
            },
        }
    } else {
        Vec::new()
    };
    Ok(Plan::Run(Transducer::new(config, set1, set2)))
}

} // verus!
