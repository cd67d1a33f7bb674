//! Pipeline steps: how a command string is cut into steps, the closed set
//! of operations that a step can name, and what each needs before it can run.
//!
//! A step is resolved here and performed by the caller: reading a file and
//! writing to the terminal are not the library's business.

use vstd::prelude::*;
use crate::engine::Engine;
use crate::frame::DataFrame;
use crate::records::{trim_text, trimmed};
use crate::scan::split_on;

verus! {

/// Number of workers that the multithreaded log-return command asks for.
pub const DEFAULT_WORKERS: usize = 4;

/// A frame with this many rows or more is summed up in one line instead of
/// being written out in full.
pub const PRINT_ROW_LIMIT: usize = 300000;

/// The operations that a pipeline step can name.
#[derive(Clone, Copy, Debug, PartialEq, Eq, Structural)]
pub enum Command {
    /// `load`: read a frame from a file.
    Load,
    /// `dlog`: log-return, block after block.
    Dlog,
    /// `dlog_multithread`: log-return on a pool of workers.
    DlogMultithread,
    /// `print`: write the frame out.
    Print,
}

/// Why a pipeline step was turned down.
#[derive(Clone, Copy, Debug, PartialEq, Eq, Structural)]
pub enum EngineError {
    /// The step names no known operation.
    UnknownCommand,
    /// `load` was given no file path.
    MissingPath,
    /// The operation needs a current frame and there is none.
    NoFrame,
}

impl EngineError {
    /// What to tell the user, but for the offending name, which the caller
    /// puts behind the message of an unknown command.
    pub fn message(&self) -> (text: String)
        ensures
            text@ == match *self {
                EngineError::UnknownCommand => "Unknown command: "@,
                EngineError::MissingPath => "File path missing for load"@,
                EngineError::NoFrame => "No current DataFrame to process for dlog"@,
            },
    {
        match self {
            EngineError::UnknownCommand => "Unknown command: ".to_owned(),
            EngineError::MissingPath => "File path missing for load".to_owned(),
            EngineError::NoFrame => "No current DataFrame to process for dlog".to_owned(),
        }
    }
}

/// What a pipeline step asks to be done, with what it is to be done to.
pub enum Step {
    /// Read the file at `path`, row-major.
    Load { path: String },
    /// Take the log-return of `frame`.
    Dlog { frame: DataFrame },
    /// Take the log-return of `frame` with at most `max_threads` workers.
    DlogParallel { frame: DataFrame, max_threads: usize },
    /// Write `frame` out and keep it as the current frame.
    Print { frame: DataFrame },
}

/// The bar that separates the steps of a pipeline.
pub const BAR: char = '|';

/// The words of `text`: its runs of characters that are not white space.
pub uninterp spec fn words_of(text: Seq<char>) -> Seq<Seq<char>>;

/// `str::split` of std with a character for a pattern, each piece copied
/// into a string: the pieces of `text` between occurrences of `sep`, with an
/// empty piece wherever two of them meet or one stands at an end.
#[verifier::external_body]
fn split_at_char(text: &str, sep: char) -> (pieces: Vec<String>)
    ensures
        pieces.deep_view() == split_on(text@, sep),
{
    text.split(sep).map(String::from).collect()
}

/// `str::split_whitespace` of std, each word copied into a string. The
/// contract only gives the result its name, `words_of`.
#[verifier::external_body]
fn split_words(text: &str) -> (words: Vec<String>)
    ensures
        words.deep_view() == words_of(text@),
{
    text.split_whitespace().map(String::from).collect()
}

/// The steps among the first `upto` pieces of a pipeline: the words of each
/// piece, pieces without a word left out.
pub open spec fn steps_among(pieces: Seq<Seq<char>>, upto: int) -> Seq<Seq<Seq<char>>>
    decreases upto,
{
    if upto <= 0 {
        Seq::<Seq<Seq<char>>>::empty()
    } else {
        let before = steps_among(pieces, upto - 1);
        let words = words_of(trim_text(pieces[upto - 1]));
        if words.len() == 0 {
            before
        } else {
            before.push(words)
        }
    }
}

/// The steps of a command string: it is cut at each bar, and each piece that
/// holds a word is a step, its first word the command and the others the
/// arguments.
pub open spec fn steps_of(text: Seq<char>) -> Seq<Seq<Seq<char>>> {
    steps_among(split_on(text, BAR), split_on(text, BAR).len() as int)
}

/// The operation that `name` stands for, if any.
pub open spec fn spec_lookup(name: Seq<char>) -> Option<Command> {
    if name == "load"@ {
        Some(Command::Load)
    } else if name == "dlog"@ {
        Some(Command::Dlog)
    } else if name == "dlog_multithread"@ {
        Some(Command::DlogMultithread)
    } else if name == "print"@ {
        Some(Command::Print)
    } else {
        None
    }
}

/// What is due for a step that names `command`, given its arguments and the
/// current frame.
pub open spec fn step_matches(
    command: Seq<char>,
    args: Seq<String>,
    df: Option<DataFrame>,
    res: Result<Step, EngineError>,
) -> bool {
    match spec_lookup(command) {
        None => res matches Err(e) && e == EngineError::UnknownCommand,
        Some(Command::Load) => if args.len() == 0 {
            res matches Err(e) && e == EngineError::MissingPath
        } else {
            res matches Ok(Step::Load { path }) && path == args[0]
        },
        Some(Command::Dlog) => match df {
            None => res matches Err(e) && e == EngineError::NoFrame,
            Some(current) => res matches Ok(Step::Dlog { frame }) && frame == current,
        },
        Some(Command::DlogMultithread) => match df {
            None => res matches Err(e) && e == EngineError::NoFrame,
            Some(current) => res matches Ok(Step::DlogParallel { frame, max_threads }) && frame
                == current && max_threads == DEFAULT_WORKERS,
        },
        Some(Command::Print) => match df {
            None => res matches Err(e) && e == EngineError::NoFrame,
            Some(current) => res matches Ok(Step::Print { frame }) && frame == current,
        },
    }
}

impl Engine {
    /// Cuts a command string into its steps, each a command word followed by
    /// its arguments. Pieces between bars that hold no word are passed over.
    pub fn parse_pipeline(command_string: &str) -> (steps: Vec<Vec<String>>)
        ensures
            steps.deep_view() == steps_of(command_string@),
            forall|i: int| 0 <= i < steps@.len() ==> (#[trigger] steps@[i])@.len() >= 1,
    {
        let pieces = split_at_char(command_string, BAR);
        let ghost texts = pieces.deep_view();
        let mut steps: Vec<Vec<String>> = Vec::new();
        let mut i: usize = 0;
        while i < pieces.len()
            invariant
                i <= pieces@.len(),
                texts == pieces.deep_view(),
                steps.deep_view() == steps_among(texts, i as int),
                forall|k: int| 0 <= k < steps@.len() ==> (#[trigger] steps@[k])@.len() >= 1,
            decreases pieces@.len() - i,
        {
            assert(texts[i as int] == pieces@[i as int]@);
            let words = split_words(trimmed(pieces[i].as_str()));
            let ghost before = steps.deep_view();
            if words.len() > 0 {
                let ghost text = words.deep_view();
                steps.push(words);
                assert(steps.deep_view() =~= before.push(text));
            }
            i += 1;
        }
        steps
    }

    /// The operation that `name` stands for: `load`, `dlog`,
    /// `dlog_multithread` or `print`, and nothing else.
    pub fn lookup(name: &str) -> (found: Option<Command>)
        ensures
            found == spec_lookup(name@),
    {
        let name: String = name.to_owned();
        if name == "load".to_owned() {
            Some(Command::Load)
        } else if name == "dlog".to_owned() {
            Some(Command::Dlog)
        } else if name == "dlog_multithread".to_owned() {
            Some(Command::DlogMultithread)
        } else if name == "print".to_owned() {
            Some(Command::Print)
        } else {
            None
        }
    }

    /// Resolves one pipeline step: the operation that `command` names, checked
    /// against what it needs, with the path or the frame it is to work on.
    /// An unknown name is turned down before anything else is looked at.
    pub fn execute_command(&mut self, command: &str, args: &[String], df: Option<DataFrame>) -> (res:
        Result<Step, EngineError>)
        ensures
            step_matches(command@, args@, df, res),
    {
        match Engine::lookup(command) {
            None => Err(EngineError::UnknownCommand),
            Some(Command::Load) => {
                if args.len() == 0 {
                    Err(EngineError::MissingPath)
                } else {
                    Ok(Step::Load { path: args[0].clone() })
                }
            },
            Some(Command::Dlog) => match df {
                None => Err(EngineError::NoFrame),
                Some(frame) => Ok(Step::Dlog { frame }),
            },
            Some(Command::DlogMultithread) => match df {
                None => Err(EngineError::NoFrame),
                Some(frame) => Ok(Step::DlogParallel { frame, max_threads: DEFAULT_WORKERS }),
            },
            Some(Command::Print) => match df {
                None => Err(EngineError::NoFrame),
                Some(frame) => Ok(Step::Print { frame }),
            },
        }
    }

    /// Whether a frame of `num_rows` rows is written out in full: only below
    /// `PRINT_ROW_LIMIT` rows.
    pub fn should_print(num_rows: usize) -> (yes: bool)
        ensures
            yes == (num_rows < PRINT_ROW_LIMIT),
    {
        num_rows < PRINT_ROW_LIMIT
    }
}

} // verus!
