use cdenv::parse::{parse_environment, Parser};

fn parse(lines: &[&str]) -> Parser {
    let v: Vec<String> = lines.iter().map(|s| s.to_string()).collect();
    parse_environment(&v)
}

fn var_text(p: &Parser, name: &str) -> Option<String> {
    p.snapshot.vars.get_text(name)
}

fn func_text(p: &Parser, name: &str) -> Option<String> {
    p.snapshot.funcs.get_text(name)
}

#[test]
fn bare_declaration_is_recorded_with_global_flag() {
    let p = parse(&["declare -x FOO"]);
    assert_eq!(var_text(&p, "FOO"), Some(String::from("declare -gx FOO\n")));
}

#[test]
fn bare_declaration_with_double_dash() {
    let p = parse(&["declare -- BAR"]);
    assert_eq!(var_text(&p, "BAR"), Some(String::from("declare -g BAR\n")));
}

#[test]
fn single_line_scalar_is_complete() {
    let p = parse(&["declare -x FOO=\"bar\""]);
    assert_eq!(var_text(&p, "FOO"), Some(String::from("declare -gx FOO=\"bar\"\n")));
}

#[test]
fn empty_scalar_value_is_complete() {
    let p = parse(&["declare -- E=\"\""]);
    assert_eq!(var_text(&p, "E"), Some(String::from("declare -g E=\"\"\n")));
}

#[test]
fn multiline_scalar_with_escaped_quotes_keeps_accumulating() {
    // Every intermediate line ends with a quote preceded by a backslash, so
    // only the last line terminates the value.
    let p = parse(&["declare -x V=\"a\\\"", "b\\\"", "c\""]);
    assert_eq!(
        var_text(&p, "V"),
        Some(String::from("declare -gx V=\"a\\\"\nb\\\"\nc\"\n"))
    );
}

#[test]
fn multiline_scalar_plain() {
    let p = parse(&["declare -- M=\"first", "second\""]);
    assert_eq!(var_text(&p, "M"), Some(String::from("declare -g M=\"first\nsecond\"\n")));
}

#[test]
fn single_line_array_is_complete() {
    let p = parse(&["declare -a A=(1 2 3)"]);
    assert_eq!(var_text(&p, "A"), Some(String::from("declare -ga A=(1 2 3)\n")));
}

#[test]
fn multiline_array_with_escaped_paren_keeps_accumulating() {
    let p = parse(&["declare -a A=(x\\)", "y)"]);
    assert_eq!(var_text(&p, "A"), Some(String::from("declare -ga A=(x\\)\ny)\n")));
}

#[test]
fn function_body_is_collected_verbatim() {
    let p = parse(&["foo ()", "{", "    echo hi", "}"]);
    assert_eq!(func_text(&p, "foo"), Some(String::from("foo ()\n{\n    echo hi\n}\n")));
}

#[test]
fn function_terminator_requires_closing_brace_line() {
    let p = parse(&["foo ()", "{", "    echo hi"]);
    // Truncated at end of input: the buffered body is dropped.
    assert_eq!(func_text(&p, "foo"), None);
}

#[test]
fn alias_definition_is_recorded() {
    let p = parse(&["alias ll='ls -l'"]);
    assert_eq!(
        p.snapshot.aliases.get_text("ll"),
        Some(String::from("alias ll='ls -l'\n"))
    );
}

#[test]
fn alias_name_may_hold_dashes() {
    let p = parse(&["alias git-st='git status'"]);
    assert_eq!(
        p.snapshot.aliases.get_text("git-st"),
        Some(String::from("alias git-st='git status'\n"))
    );
}

#[test]
fn volatile_names_are_never_recorded() {
    let p = parse(&["declare -x OLDPWD=\"/tmp\"", "declare -- _=\"x\""]);
    assert!(!p.snapshot.vars.contains_name("OLDPWD"));
    assert!(!p.snapshot.vars.contains_name("_"));
}

#[test]
fn reserved_shellopts_is_stored_raw() {
    let p = parse(&["declare -x SHELLOPTS=\"histappend:checkwinsize\""]);
    assert!(!p.snapshot.vars.contains_name("SHELLOPTS"));
    assert_eq!(p.snapshot.options.shellopts, String::from("histappend:checkwinsize"));
}

#[test]
fn reserved_bashopts_strips_trailing_delimiter() {
    let p = parse(&["declare -x BASHOPTS=\"extglob:globstar:\""]);
    assert_eq!(p.snapshot.options.bashopts, String::from("extglob:globstar"));
}

#[test]
fn unparsed_line_yields_escaped_diagnostic() {
    let p = parse(&["garbage ' here"]);
    assert!(!p.snapshot.vars.contains_name("garbage"));
    assert_eq!(p.diagnostics.len(), 1);
    assert_eq!(p.diagnostics[0], String::from("unparsed 'garbage '\\'' here'"));
}

#[test]
fn backslashes_are_doubled_in_diagnostics() {
    let p = parse(&["bad \\ line"]);
    assert_eq!(p.diagnostics[0], String::from("unparsed 'bad \\\\ line'"));
}

#[test]
fn closing_brace_outside_function_is_unparsed() {
    let p = parse(&["}"]);
    assert_eq!(p.diagnostics.len(), 1);
    assert_eq!(p.diagnostics[0], String::from("unparsed '}'"));
}

#[test]
fn trailing_whitespace_is_trimmed_before_classification() {
    let p = parse(&["declare -x FOO   "]);
    assert_eq!(var_text(&p, "FOO"), Some(String::from("declare -gx FOO\n")));
}

#[test]
fn truncated_multiline_value_is_dropped() {
    let p = parse(&["declare -x V=\"never closed"]);
    assert!(!p.snapshot.vars.contains_name("V"));
}

#[test]
fn later_declaration_replaces_earlier_one() {
    let p = parse(&["declare -x FOO=\"a\"", "declare -x FOO=\"b\""]);
    assert_eq!(var_text(&p, "FOO"), Some(String::from("declare -gx FOO=\"b\"\n")));
}

#[test]
fn function_body_lines_are_not_reclassified() {
    // A line that looks like a declaration inside a function body is part of
    // the body until the terminator fires.
    let p = parse(&["f ()", "{", "declare -x INNER", "}"]);
    assert_eq!(
        func_text(&p, "f"),
        Some(String::from("f ()\n{\ndeclare -x INNER\n}\n"))
    );
    assert!(!p.snapshot.vars.contains_name("INNER"));
}

#[test]
fn option_letters_are_preserved() {
    let p = parse(&["declare -ir N=\"7\""]);
    assert_eq!(var_text(&p, "N"), Some(String::from("declare -gir N=\"7\"\n")));
}
