use mcstructure_materials::cli::{
    parse, parse_format, parse_options, BlockgenConfig, Config, OutputFormat, StructureConfig,
    SubCommand, UsageError,
};

fn ar_words(words: &[&str]) -> Vec<String> {
    words.iter().map(|w| w.to_string()).collect()
}

fn ar_parse(words: &[&str]) -> Result<Config, UsageError> {
    parse(&ar_words(words)).map(|config| (*config).clone())
}

fn ar_structure(file: &str, format: OutputFormat) -> Config {
    Config { cmd: SubCommand::Structure(StructureConfig { file: file.to_string(), format }) }
}

fn ar_blockgen(file: &str) -> Config {
    Config { cmd: SubCommand::BlockGen(BlockgenConfig { file: file.to_string() }) }
}

#[test]
fn a_structure_command_writes_text_unless_told_otherwise() {
    assert_eq!(
        ar_parse(&["structure", "--file", "house.mcstructure"]),
        Ok(ar_structure("house.mcstructure", OutputFormat::Text))
    );
    assert_eq!(
        ar_parse(&["structure", "-f", "house.mcstructure", "--format", "text"]),
        Ok(ar_structure("house.mcstructure", OutputFormat::Text))
    );
    assert_eq!(
        ar_parse(&["structure", "--format", "json", "-f", "house.mcstructure"]),
        Ok(ar_structure("house.mcstructure", OutputFormat::Json))
    );
}

#[test]
fn a_block_gen_command_takes_a_file() {
    assert_eq!(
        ar_parse(&["block-gen", "-f", "https://example.invalid/blocks.json"]),
        Ok(ar_blockgen("https://example.invalid/blocks.json"))
    );
    assert_eq!(ar_parse(&["block-gen", "--file", "-f"]), Ok(ar_blockgen("-f")));
}

#[test]
fn no_argument_is_a_missing_command() {
    assert_eq!(ar_parse(&[]), Err(UsageError::MissingCommand));
}

#[test]
fn another_first_word_is_an_unknown_command() {
    assert_eq!(ar_parse(&["materials"]), Err(UsageError::UnknownCommand));
    assert_eq!(ar_parse(&["--file", "x"]), Err(UsageError::UnknownCommand));
    assert_eq!(ar_parse(&["Structure", "-f", "x"]), Err(UsageError::UnknownCommand));
    assert_eq!(ar_parse(&["blockgen", "-f", "x"]), Err(UsageError::UnknownCommand));
}

#[test]
fn an_option_without_value_is_a_missing_value() {
    assert_eq!(ar_parse(&["structure", "-f"]), Err(UsageError::MissingValue));
    assert_eq!(ar_parse(&["structure", "-f", "x", "--format"]), Err(UsageError::MissingValue));
    assert_eq!(ar_parse(&["block-gen", "--file"]), Err(UsageError::MissingValue));
}

#[test]
fn an_option_given_twice_is_repeated() {
    assert_eq!(ar_parse(&["structure", "-f", "x", "--file", "y"]), Err(UsageError::RepeatedOption));
    assert_eq!(
        ar_parse(&["structure", "--format", "json", "--format", "json"]),
        Err(UsageError::RepeatedOption)
    );
}

#[test]
fn a_word_that_is_no_option_is_unexpected() {
    assert_eq!(ar_parse(&["structure", "house.mcstructure"]), Err(UsageError::UnexpectedArgument));
    assert_eq!(
        ar_parse(&["structure", "-f", "x", "extra"]),
        Err(UsageError::UnexpectedArgument)
    );
    assert_eq!(
        ar_parse(&["block-gen", "-f", "x", "--format", "json"]),
        Err(UsageError::UnexpectedArgument)
    );
}

#[test]
fn a_command_without_file_misses_it() {
    assert_eq!(ar_parse(&["structure"]), Err(UsageError::MissingFile));
    assert_eq!(ar_parse(&["structure", "--format", "json"]), Err(UsageError::MissingFile));
    assert_eq!(ar_parse(&["block-gen"]), Err(UsageError::MissingFile));
}

#[test]
fn a_format_is_json_or_text() {
    assert_eq!(parse_format("json"), Some(OutputFormat::Json));
    assert_eq!(parse_format("text"), Some(OutputFormat::Text));
    assert_eq!(parse_format("JSON"), None);
    assert_eq!(parse_format(""), None);
    assert_eq!(
        ar_parse(&["structure", "-f", "x", "--format", "yaml"]),
        Err(UsageError::InvalidFormat)
    );
}

#[test]
fn the_first_word_that_breaks_the_grammar_decides() {
    assert_eq!(
        ar_parse(&["structure", "--format", "yaml", "extra"]),
        Err(UsageError::InvalidFormat)
    );
    assert_eq!(ar_parse(&["structure", "extra", "--format"]), Err(UsageError::UnexpectedArgument));
}

#[test]
fn options_are_read_behind_the_name_of_the_command() {
    assert_eq!(
        parse_options(&ar_words(&["anything", "-f", "x", "--format", "json"]), true),
        Ok((Some("x".to_string()), Some(OutputFormat::Json)))
    );
    assert_eq!(parse_options(&ar_words(&["anything"]), false), Ok((None, None)));
}
