//! The commands of the program and the grammar of its arguments.

use vstd::prelude::*;
use crate::text::{same_text, texts_view};
use std::sync::Arc;

verus! {

/// How a materials list is written out.
#[derive(Clone, Copy, Debug, PartialEq, Eq, Structural)]
pub enum OutputFormat {
    Json,
    Text,
}

/// The materials list of one structure file.
#[derive(Clone, Debug, PartialEq, Eq)]
pub struct StructureConfig {
    pub file: String,
    pub format: OutputFormat,
}

/// The name table built from a list of block identities at an address.
#[derive(Clone, Debug, PartialEq, Eq)]
pub struct BlockgenConfig {
    pub file: String,
}

/// What the program is asked to do.
#[derive(Clone, Debug, PartialEq, Eq)]
pub enum SubCommand {
    /// Generates a materials list for a structure file.
    Structure(StructureConfig),
    /// Generates the table of display names.
    BlockGen(BlockgenConfig),
}

/// The arguments of the program, read.
#[derive(Clone, Debug, PartialEq, Eq)]
pub struct Config {
    /// The command to execute.
    pub cmd: SubCommand,
}

/// A command as what it holds.
pub enum CommandView {
    Structure { file: Seq<char>, format: OutputFormat },
    BlockGen { file: Seq<char> },
}

impl View for SubCommand {
    type V = CommandView;

    open spec fn view(&self) -> CommandView {
        match self {
            SubCommand::Structure(c) => CommandView::Structure { file: c.file@, format: c.format },
            SubCommand::BlockGen(c) => CommandView::BlockGen { file: c.file@ },
        }
    }
}

impl View for Config {
    type V = CommandView;

    open spec fn view(&self) -> CommandView {
        self.cmd@
    }
}

/// Why a list of arguments is no command.
#[derive(Clone, Copy, Debug, PartialEq, Eq, Structural)]
pub enum UsageError {
    /// There is no argument at all.
    MissingCommand,
    /// The first argument is neither `structure` nor `block-gen`.
    UnknownCommand,
    /// An option stands last, without its value.
    MissingValue,
    /// An option is given twice.
    RepeatedOption,
    /// An argument is no option of the command.
    UnexpectedArgument,
    /// The command has no `--file`.
    MissingFile,
    /// The value of `--format` is neither `json` nor `text`.
    InvalidFormat,
}

/// The options read so far.
pub struct Options {
    pub file: Option<Seq<char>>,
    pub format: Option<OutputFormat>,
}

/// Whether a word is the flag of the file option.
pub open spec fn is_file_flag(word: Seq<char>) -> bool {
    word == "-f"@ || word == "--file"@
}

/// Whether a word is the flag of the format option.
pub open spec fn is_format_flag(word: Seq<char>) -> bool {
    word == "--format"@
}

/// The format that a word names.
pub open spec fn format_of(word: Seq<char>) -> Option<OutputFormat> {
    if word == "json"@ {
        Some(OutputFormat::Json)
    } else if word == "text"@ {
        Some(OutputFormat::Text)
    } else {
        None
    }
}

/// The options that the words from `from` on add to those seen: each option
/// is a flag followed by its value, `-f` or `--file` with any value and,
/// where the command has it, `--format` with `json` or `text`. The first
/// word that breaks this decides the error.
pub open spec fn options_of(words: Seq<Seq<char>>, from: int, with_format: bool, seen: Options)
    -> Result<Options, UsageError>
    decreases words.len() - from,
{
    if from >= words.len() {
        Ok(seen)
    } else if is_file_flag(words[from]) {
        if from + 1 >= words.len() {
            Err(UsageError::MissingValue)
        } else if seen.file is Some {
            Err(UsageError::RepeatedOption)
        } else {
            options_of(
                words,
                from + 2,
                with_format,
                Options { file: Some(words[from + 1]), format: seen.format },
            )
        }
    } else if with_format && is_format_flag(words[from]) {
        if from + 1 >= words.len() {
            Err(UsageError::MissingValue)
        } else if seen.format is Some {
            Err(UsageError::RepeatedOption)
        } else if format_of(words[from + 1]) is None {
            Err(UsageError::InvalidFormat)
        } else {
            options_of(
                words,
                from + 2,
                with_format,
                Options { file: seen.file, format: format_of(words[from + 1]) },
            )
        }
    } else {
        Err(UsageError::UnexpectedArgument)
    }
}

/// The command that a list of arguments stands for. The first word names
/// it; its options follow. `structure` needs a file and writes text unless
/// told otherwise; `block-gen` needs a file.
pub open spec fn parsed(words: Seq<Seq<char>>) -> Result<CommandView, UsageError> {
    if words.len() == 0 {
        Err(UsageError::MissingCommand)
    } else if words[0] == "structure"@ {
        match options_of(words, 1, true, Options { file: None, format: None }) {
            Err(e) => Err(e),
            Ok(options) => match options.file {
                None => Err(UsageError::MissingFile),
                Some(file) => Ok(
                    CommandView::Structure {
                        file,
                        format: match options.format {
                            Some(format) => format,
                            None => OutputFormat::Text,
                        },
                    },
                ),
            },
        }
    } else if words[0] == "block-gen"@ {
        match options_of(words, 1, false, Options { file: None, format: None }) {
            Err(e) => Err(e),
            Ok(options) => match options.file {
                None => Err(UsageError::MissingFile),
                Some(file) => Ok(CommandView::BlockGen { file }),
            },
        }
    } else {
        Err(UsageError::UnknownCommand)
    }
}

/// The format that a word names.
pub fn parse_format(word: &str) -> (r: Option<OutputFormat>)
    ensures
        r == format_of(word@),
{
    if same_text(word, "json") {
        Some(OutputFormat::Json)
    } else if same_text(word, "text") {
        Some(OutputFormat::Text)
    } else {
        None
    }
}

/// The options that follow the first argument, the name of a command.
pub fn parse_options(args: &Vec<String>, with_format: bool) -> (r: Result<
    (Option<String>, Option<OutputFormat>),
    UsageError,
>)
    ensures
        match r {
            Ok(found) => options_of(
                texts_view(args@),
                1,
                with_format,
                Options { file: None, format: None },
            ) == Ok::<Options, UsageError>(
                Options {
                    file: match found.0 {
                        Some(f) => Some(f@),
                        None => None,
                    },
                    format: found.1,
                },
            ),
            Err(e) => options_of(
                texts_view(args@),
                1,
                with_format,
                Options { file: None, format: None },
            ) == Err::<Options, UsageError>(e),
        },
{
    let ghost words = texts_view(args@);
    let mut file: Option<String> = None;
    let mut format: Option<OutputFormat> = None;
    let mut i: usize = 1;
    while i < args.len()
        invariant
            1 <= i,
            words == texts_view(args@),
            options_of(words, 1, with_format, Options { file: None, format: None }) == options_of(
                words,
                i as int,
                with_format,
                Options {
                    file: match file {
                        Some(f) => Some(f@),
                        None => None,
                    },
                    format: format,
                },
            ),
        decreases args.len() - i,
    {
        assert(words[i as int] == args@[i as int]@);
        let word = args[i].as_str();
        if same_text(word, "-f") || same_text(word, "--file") {
            if i + 1 >= args.len() {
                return Err(UsageError::MissingValue);
            }
            if file.is_some() {
                return Err(UsageError::RepeatedOption);
            }
            assert(words[i as int + 1] == args@[i as int + 1]@);
            file = Some(args[i + 1].clone());
        } else if with_format && same_text(word, "--format") {
            if i + 1 >= args.len() {
                return Err(UsageError::MissingValue);
            }
            if format.is_some() {
                return Err(UsageError::RepeatedOption);
            }
            assert(words[i as int + 1] == args@[i as int + 1]@);
            match parse_format(args[i + 1].as_str()) {
                Some(f) => {
                    format = Some(f);
                },
                None => {
                    return Err(UsageError::InvalidFormat);
                },
            }
        } else {
            return Err(UsageError::UnexpectedArgument);
        }
        i += 2;
    }
    Ok((file, format))
}

/// Reads the command from the arguments of the program, without the
/// program's own name.
pub fn parse(args: &Vec<String>) -> (r: Result<Arc<Config>, UsageError>)
    ensures
        match r {
            Ok(config) => parsed(texts_view(args@)) == Ok::<CommandView, UsageError>(config@),
            Err(e) => parsed(texts_view(args@)) == Err::<CommandView, UsageError>(e),
        },
{
    if args.len() == 0 {
        return Err(UsageError::MissingCommand);
    }
    assert(texts_view(args@)[0] == args@[0]@);
    if same_text(args[0].as_str(), "structure") {
        match parse_options(args, true) {
            Err(e) => Err(e),
            Ok(found) => match found.0 {
                None => Err(UsageError::MissingFile),
                Some(file) => {
                    let format = match found.1 {
                        Some(f) => f,
                        None => OutputFormat::Text,
                    };
                    Ok(Arc::new(Config { cmd: SubCommand::Structure(StructureConfig { file, format }) }))
                },
            },
        }
    } else if same_text(args[0].as_str(), "block-gen") {
        match parse_options(args, false) {
            Err(e) => Err(e),
            Ok(found) => match found.0 {
                None => Err(UsageError::MissingFile),
                Some(file) => Ok(
                    Arc::new(Config { cmd: SubCommand::BlockGen(BlockgenConfig { file }) }),
                ),
            },
        }
    } else {
        Err(UsageError::UnknownCommand)
    }
}

} // verus!
