use den_scan::block::{Block, BlockError};
use den_scan::matcher::{Find, Matcher};
use den_scan::parser::{Parser, Warning};

fn block<'a>(
    name: &'a str,
    call: usize,
    attributes: Option<usize>,
    items: Option<usize>,
    start: Option<usize>,
    output: Option<usize>,
    end: Option<usize>,
) -> Block<'a> {
    Block {
        name: name.as_bytes(),
        call,
        attributes,
        items,
        start,
        output,
        end,
    }
}

#[test]
fn scenario_bare_call() {
    let content = "// @den::macro!";
    let parsed = Parser::new(content.as_bytes()).parse().unwrap();
    assert_eq!(parsed.blocks, vec![block("macro", 0, None, None, None, None, None)]);
    assert_eq!(parsed.warnings, vec![]);
}

#[test]
fn scenario_start_only() {
    let content = "// @den::macro!\n// ```@den```";
    let parsed = Parser::new(content.as_bytes()).parse().unwrap();
    assert_eq!(parsed.blocks, vec![block("macro", 0, None, None, Some(1), None, None)]);
    assert_eq!(parsed.warnings, vec![]);
}

#[test]
fn scenario_with_output() {
    let content = "// @den::macro!\n// ```@den```\nstruct Output;\n// ```@den```end:macro!";
    let parsed = Parser::new(content.as_bytes()).parse().unwrap();
    assert_eq!(
        parsed.blocks,
        vec![block("macro", 0, None, None, Some(1), Some(2), Some(3))]
    );
    assert_eq!(parsed.warnings, vec![]);
}

#[test]
fn scenario_missing_start_at_end_of_input() {
    let content = "// @den::macro!\nfn output1() {}";
    let parsed = Parser::new(content.as_bytes()).parse();
    assert_eq!(
        parsed,
        Err((
            BlockError::MissingStart,
            block("macro", 0, None, Some(1), None, None, None),
            None
        ))
    );
}

#[test]
fn scenario_missing_start_at_second_call() {
    let content = "// @den::macro1!\nfn output1() {}\n// @den::macro2!";
    let parsed = Parser::new(content.as_bytes()).parse();
    assert_eq!(
        parsed,
        Err((
            BlockError::MissingStart,
            block("macro1", 0, None, Some(1), None, None, None),
            Some(2)
        ))
    );
}

#[test]
fn scenario_end_without_call() {
    let content = "// ```@den```end:macro!";
    let parsed = Parser::new(content.as_bytes()).parse().unwrap();
    assert_eq!(parsed.blocks, vec![]);
    assert_eq!(parsed.warnings, vec![Warning::UnexpectedEnd(0)]);
}

#[test]
fn scenario_name_mismatch_still_closes() {
    let content = "// @den::macro!\n// ```@den```\n// ```@den``` end:other!";
    let parsed = Parser::new(content.as_bytes()).parse().unwrap();
    assert_eq!(parsed.blocks, vec![block("macro", 0, None, None, Some(1), None, Some(2))]);
    assert_eq!(parsed.warnings, vec![Warning::NameMismatch(2)]);
}

#[test]
fn warns_call_without_bang() {
    let content = "// @den::macro";
    let parsed = Parser::new(content.as_bytes()).parse().unwrap();
    assert_eq!(parsed.blocks, vec![]);
    assert_eq!(parsed.warnings, vec![Warning::CallNoBang(0)]);
}

#[test]
fn warns_end_without_bang() {
    let content = "// ```@den``` end:macro";
    let parsed = Parser::new(content.as_bytes()).parse().unwrap();
    assert_eq!(parsed.blocks, vec![]);
    assert_eq!(parsed.warnings, vec![Warning::EndNoBang(0)]);
}

#[test]
fn warns_start_without_call() {
    let content = "// ```@den```";
    let parsed = Parser::new(content.as_bytes()).parse().unwrap();
    assert_eq!(parsed.blocks, vec![]);
    assert_eq!(parsed.warnings, vec![Warning::UnexpectedStart(0)]);
}

#[test]
fn warns_second_start() {
    let content = "// @den::m!\n// ```@den```\n// ```@den```";
    let parsed = Parser::new(content.as_bytes()).parse().unwrap();
    assert_eq!(parsed.blocks, vec![block("m", 0, None, None, Some(1), None, None)]);
    assert_eq!(parsed.warnings, vec![Warning::UnexpectedStart(2)]);
}

#[test]
fn warns_second_end() {
    let content = "// @den::m!\n// ```@den```\n// ```@den``` end:m!\n// ```@den``` end:m!";
    let parsed = Parser::new(content.as_bytes()).parse().unwrap();
    assert_eq!(parsed.blocks, vec![block("m", 0, None, None, Some(1), None, Some(2))]);
    assert_eq!(parsed.warnings, vec![Warning::UnexpectedEnd(3)]);
}

#[test]
fn items_after_end_are_ignored() {
    let content = "// @den::m!\n// ```@den```\n// ```@den``` end:m!\nstruct X;";
    let parsed = Parser::new(content.as_bytes()).parse().unwrap();
    assert_eq!(parsed.blocks, vec![block("m", 0, None, None, Some(1), None, Some(2))]);
    assert_eq!(parsed.warnings, vec![]);
}

#[test]
fn attribute_outside_region_is_ignored() {
    let content = "// just a comment\nfn code() {}";
    let parsed = Parser::new(content.as_bytes()).parse().unwrap();
    assert_eq!(parsed.blocks, vec![]);
    assert_eq!(parsed.warnings, vec![]);
}

#[test]
fn empty_input_parses_to_nothing() {
    let parsed = Parser::new("".as_bytes()).parse().unwrap();
    assert_eq!(parsed.blocks, vec![]);
    assert_eq!(parsed.warnings, vec![]);
}

#[test]
fn carriage_return_line_endings_split_alike() {
    let content = "// @den::macro!\r\n// ```@den```\r\n";
    let parsed = Parser::new(content.as_bytes()).parse().unwrap();
    assert_eq!(parsed.blocks, vec![block("macro", 0, None, None, Some(1), None, None)]);
    assert_eq!(parsed.warnings, vec![]);
}

#[test]
fn classifier_is_deterministic() {
    let line = "  //  @den:: spaced name !";
    assert_eq!(Matcher::find(line.as_bytes()), Matcher::find(line.as_bytes()));
    assert_eq!(Matcher::find(line.as_bytes()), Find::Call("spaced name".as_bytes()));
}

#[test]
fn second_region_after_valid_first() {
    let content = "// @den::a!\n// ```@den```\n// ```@den``` end:a!\n// @den::b!";
    let parsed = Parser::new(content.as_bytes()).parse().unwrap();
    assert_eq!(
        parsed.blocks,
        vec![
            block("a", 0, None, None, Some(1), None, Some(2)),
            block("b", 3, None, None, None, None, None),
        ]
    );
    assert_eq!(parsed.warnings, vec![]);
}
