//! The command line: the program's name, then the chunk size, the pause in
//! milliseconds and the port, then, each optional, the payload file's name,
//! the repeat flag and the byte cap.

use vstd::prelude::*;
use vstd::string::is_ascii_spec_bytes;
use crate::decimal::{number, parse_number};
use crate::error::ConfigError;
use crate::plan::planned;

verus! {

/// The fewest arguments that may follow the program's name.
pub const MIN_ARG_COUNT: usize = 3;

/// The most arguments that may follow the program's name.
pub const MAX_ARG_COUNT: usize = 6;

/// Place of the chunk size on the command line, the program's name being at
/// place 0.
pub const RATE_CHUNK: usize = 1;

/// Place of the pause between chunks, in milliseconds.
pub const RATE_TIME: usize = 2;

/// Place of the port.
pub const PORT: usize = 3;

/// Place of the payload file's name, which may be left out.
pub const FILENAME: usize = 4;

/// Place of the repeat flag, which may be left out.
pub const REPEAT: usize = 5;

/// Place of the byte cap, which may be left out.
pub const MAX_BYTES: usize = 6;

/// The lower-case form of an upper-case Latin letter; any other character
/// unchanged.
pub open spec fn lower(c: char) -> char {
    if 'A' <= c <= 'Z' {
        ((c as u8) + 32) as char
    } else {
        c
    }
}

/// Whether `s` is `word` but for the case of its Latin letters.
pub open spec fn spells(s: Seq<char>, word: Seq<char>) -> bool {
    &&& s.len() == word.len()
    &&& forall|i: int| 0 <= i < s.len() ==> lower(#[trigger] s[i]) == word[i]
}

/// The truth value that `s` spells: `true` or `false`, in any case.
pub open spec fn flag(s: Seq<char>) -> Option<bool> {
    if spells(s, seq!['t', 'r', 'u', 'e']) {
        Some(true)
    } else if spells(s, seq!['f', 'a', 'l', 's', 'e']) {
        Some(false)
    } else {
        None
    }
}

/// Whether a command line of `n` words, the program's name included, has an
/// acceptable number of arguments.
pub open spec fn valid_count(n: nat) -> bool {
    MIN_ARG_COUNT + 1 <= n <= MAX_ARG_COUNT + 1
}

/// The port that a command line names, or why it names none.
pub open spec fn port_of(args: Seq<Seq<char>>) -> Result<u16, ConfigError> {
    if !valid_count(args.len()) {
        Err(ConfigError::ArgumentCount)
    } else {
        match number(args[PORT as int], u16::MAX as nat) {
            Some(v) => Ok(v as u16),
            None => Err(ConfigError::InvalidPort),
        }
    }
}

/// The mathematical content of [`CommandLineArguments`].
pub struct ArgumentsView {
    pub rate_chunk: nat,
    pub rate_time: nat,
    pub filename: Option<Seq<char>>,
    pub repeat: bool,
    pub max_bytes: Option<nat>,
}

/// The settings that a command line gives, or the first reason, from left
/// to right, why it gives none. The chunk size is a positive number, and so
/// is the cap where one is given: for each, what is not a number is refused
/// before zero is. The repeat flag defaults to `false`, and without a cap
/// there is no limit.
pub open spec fn arguments_of(args: Seq<Seq<char>>) -> Result<ArgumentsView, ConfigError> {
    if !valid_count(args.len()) {
        Err(ConfigError::ArgumentCount)
    } else if number(args[RATE_CHUNK as int], usize::MAX as nat) is None {
        Err(ConfigError::InvalidRateChunk)
    } else if number(args[RATE_CHUNK as int], usize::MAX as nat) == Some(0nat) {
        Err(ConfigError::ZeroChunkSize)
    } else if number(args[RATE_TIME as int], u64::MAX as nat) is None {
        Err(ConfigError::InvalidRateTime)
    } else if args.len() > REPEAT && flag(args[REPEAT as int]) is None {
        Err(ConfigError::InvalidRepeat)
    } else if args.len() > MAX_BYTES && number(args[MAX_BYTES as int], usize::MAX as nat) is None {
        Err(ConfigError::InvalidMaxBytes)
    } else if args.len() > MAX_BYTES && number(args[MAX_BYTES as int], usize::MAX as nat) == Some(
        0nat,
    ) {
        Err(ConfigError::ZeroMaxBytes)
    } else {
        Ok(
            ArgumentsView {
                rate_chunk: number(args[RATE_CHUNK as int], usize::MAX as nat)->Some_0,
                rate_time: number(args[RATE_TIME as int], u64::MAX as nat)->Some_0,
                filename: if args.len() > FILENAME {
                    Some(args[FILENAME as int])
                } else {
                    None
                },
                repeat: if args.len() > REPEAT {
                    flag(args[REPEAT as int])->Some_0
                } else {
                    false
                },
                max_bytes: if args.len() > MAX_BYTES {
                    Some(number(args[MAX_BYTES as int], usize::MAX as nat)->Some_0)
                } else {
                    None
                },
            },
        )
    }
}

/// What the command line says of the transmission, the payload not yet
/// loaded.
#[derive(Debug)]
pub struct CommandLineArguments {
    /// Bytes per chunk.
    pub rate_chunk: usize,
    /// Milliseconds between chunks.
    pub rate_time: u64,
    /// The file that holds the payload, where one was named.
    pub filename: Option<String>,
    /// Whether the payload is sent again after each pass.
    pub repeat: bool,
    /// The cap on the bytes of one pass, if any.
    pub max_bytes: Option<usize>,
}

impl View for CommandLineArguments {
    type V = ArgumentsView;

    open spec fn view(&self) -> ArgumentsView {
        ArgumentsView {
            rate_chunk: self.rate_chunk as nat,
            rate_time: self.rate_time as nat,
            filename: match self.filename {
                Some(name) => Some(name@),
                None => None,
            },
            repeat: self.repeat,
            max_bytes: match self.max_bytes {
                Some(m) => Some(m as nat),
                None => None,
            },
        }
    }
}

fn spells_word(text: &str, word: &str) -> (r: bool)
    requires
        vstd::string::is_ascii(word),
    ensures
        r == spells(text@, word@),
{
    if !text.is_ascii() {
        proof {
            let i = choose|i: int| 0 <= i < text@.len() && !('\0' <= #[trigger] text@[i] <= '\u{7f}');
            if text@.len() == word@.len() {
                assert(lower(text@[i]) != word@[i]);
            }
        }
        return false;
    }
    let t = text.as_bytes();
    let w = word.as_bytes();
    proof {
        is_ascii_spec_bytes(text);
        is_ascii_spec_bytes(word);
    }
    let n: usize = t.len();
    if n != w.len() {
        return false;
    }
    let mut i: usize = 0;
    while i < n
        invariant
            i <= n,
            n == text@.len(),
            n == word@.len(),
            n == t@.len(),
            n == w@.len(),
            forall|j: int| 0 <= j < n ==> '\0' <= #[trigger] text@[j] <= '\u{7f}',
            forall|j: int| 0 <= j < n ==> '\0' <= #[trigger] word@[j] <= '\u{7f}',
            forall|j: int| 0 <= j < n ==> t@[j] == text@[j] as u8,
            forall|j: int| 0 <= j < n ==> w@[j] == word@[j] as u8,
            forall|j: int| 0 <= j < i ==> lower(#[trigger] text@[j]) == word@[j],
        decreases n - i,
    {
        let b: u8 = t[i];
        let folded: u8 = if 65u8 <= b && b <= 90u8 {
            b + 32u8
        } else {
            b
        };
        assert(folded == lower(text@[i as int]) as u8);
        if folded != w[i] {
            assert(lower(text@[i as int]) != word@[i as int]);
            return false;
        }
        i = i + 1;
    }
    true
}

/// Reads `text` as a truth value.
pub fn parse_flag(text: &str) -> (r: Option<bool>)
    ensures
        r == flag(text@),
{
    proof {
        reveal_strlit("true");
        reveal_strlit("false");
        assert("true"@ =~= seq!['t', 'r', 'u', 'e']);
        assert("false"@ =~= seq!['f', 'a', 'l', 's', 'e']);
    }
    if spells_word(text, "true") {
        Some(true)
    } else if spells_word(text, "false") {
        Some(false)
    } else {
        None
    }
}

/// Checks the number of arguments.
pub fn validate_args(args: &Vec<String>) -> (r: Result<(), ConfigError>)
    ensures
        r == if valid_count(args@.len()) {
            Ok::<(), ConfigError>(())
        } else {
            Err::<(), ConfigError>(ConfigError::ArgumentCount)
        },
{
    if args.len() < MIN_ARG_COUNT + 1 || args.len() > MAX_ARG_COUNT + 1 {
        Err(ConfigError::ArgumentCount)
    } else {
        Ok(())
    }
}

/// Reads the port off the command line.
pub fn read_port(args: &Vec<String>) -> (r: Result<u16, ConfigError>)
    ensures
        r == port_of(args.deep_view()),
{
    match validate_args(args) {
        Err(e) => return Err(e),
        Ok(_) => {},
    }
    match parse_number(args[PORT].as_str(), u16::MAX as u64) {
        Some(v) => Ok(v as u16),
        None => Err(ConfigError::InvalidPort),
    }
}

/// Reads the transmission's settings off the command line. The port is not
/// among them. Settings that are read suit a plan: the chunk size is at
/// least 1, and so is the cap where there is one.
pub fn read_args(args: &Vec<String>) -> (r: Result<CommandLineArguments, ConfigError>)
    ensures
        match r {
            Ok(found) => arguments_of(args.deep_view()) == Ok::<ArgumentsView, ConfigError>(found@)
                && found.rate_chunk >= 1 && found.max_bytes != Some(0usize),
            Err(e) => arguments_of(args.deep_view()) == Err::<ArgumentsView, ConfigError>(e),
        },
{
    match validate_args(args) {
        Err(e) => return Err(e),
        Ok(_) => {},
    }
    let rate_chunk: usize = match parse_number(args[RATE_CHUNK].as_str(), usize::MAX as u64) {
        Some(v) => v as usize,
        None => return Err(ConfigError::InvalidRateChunk),
    };
    if rate_chunk == 0 {
        return Err(ConfigError::ZeroChunkSize);
    }
    let rate_time: u64 = match parse_number(args[RATE_TIME].as_str(), u64::MAX) {
        Some(v) => v,
        None => return Err(ConfigError::InvalidRateTime),
    };
    let filename: Option<String> = if args.len() > FILENAME {
        Some(args[FILENAME].clone())
    } else {
        None
    };
    let repeat: bool = if args.len() > REPEAT {
        match parse_flag(args[REPEAT].as_str()) {
            Some(b) => b,
            None => return Err(ConfigError::InvalidRepeat),
        }
    } else {
        false
    };
    let max_bytes: Option<usize> = if args.len() > MAX_BYTES {
        match parse_number(args[MAX_BYTES].as_str(), usize::MAX as u64) {
            Some(v) => if v == 0 {
                return Err(ConfigError::ZeroMaxBytes);
            } else {
                Some(v as usize)
            },
            None => return Err(ConfigError::InvalidMaxBytes),
        }
    } else {
        None
    };
    Ok(CommandLineArguments { rate_chunk, rate_time, filename, repeat, max_bytes })
}

/// Settings that a command line gives make a plan, whatever the payload:
/// building the plan from them refuses nothing.
pub proof fn lemma_settings_make_a_plan(
    args: Seq<Seq<char>>,
    found: CommandLineArguments,
    payload: Seq<u8>,
)
    requires
        arguments_of(args) == Ok::<ArgumentsView, ConfigError>(found@),
    ensures
        found.rate_chunk >= 1,
        found.max_bytes != Some(0usize),
        planned(payload, found.rate_chunk, found.rate_time, found.repeat, found.max_bytes) is Ok,
        planned(
            payload,
            found.rate_chunk,
            found.rate_time,
            found.repeat,
            found.max_bytes,
        )->Ok_0.wf(),
{
}

} // verus!
