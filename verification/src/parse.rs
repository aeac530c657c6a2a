//! The shell-state parser: classifies each line of a `declare`/`alias` dump
//! and folds the lines through a small state machine into a snapshot of
//! variables, functions and aliases.
//!
//! The line grammar is anchored: a pattern must match the whole line. Every
//! classification below states exactly which spans become the captured
//! option letters, name and value.

use vstd::prelude::*;

use crate::names::{recs_map, wf_recs, NameSet, RecordV};
use crate::text::{
    is_ws, sq_escape, sq_escaped, str_eq, strs, trim_end, trim_end_char, trimmed_end,
    trimmed_end_char, ws_check,
};

verus! {

/// Start character of a variable or function name.
pub open spec fn is_name_start(c: char) -> bool {
    ('a' <= c && c <= 'z') || ('A' <= c && c <= 'Z') || c == '_'
}

/// Continuation character of a variable or function name.
pub open spec fn is_name_char(c: char) -> bool {
    is_name_start(c) || ('0' <= c && c <= '9')
}

/// The character classes scanned over by the line grammar.
#[derive(Clone, Copy)]
pub enum CharKind {
    /// ASCII whitespace.
    Ws,
    /// A dash.
    Dash,
    /// An option letter of a plain declaration.
    DeclOpt,
    /// An option letter of a scalar-variable declaration.
    VarOpt,
    /// An option letter of an array-variable declaration.
    ArrOpt,
    /// A name character.
    NameChar,
    /// An alias-name character (names may also hold dashes).
    AliasChar,
}

pub open spec fn kind_holds(k: CharKind, c: char) -> bool {
    match k {
        CharKind::Ws => is_ws(c),
        CharKind::Dash => c == '-',
        CharKind::DeclOpt => c == 'i' || c == 'a' || c == 'A' || c == 'f' || c == 'x' || c == 'r',
        CharKind::VarOpt => c == 'i' || c == 'x' || c == 'r',
        CharKind::ArrOpt => c == 'a' || c == 'A' || c == 'x' || c == 'r',
        CharKind::NameChar => is_name_char(c),
        CharKind::AliasChar => is_name_char(c) || c == '-',
    }
}

fn kind_check(k: CharKind, c: char) -> (r: bool)
    ensures
        r == kind_holds(k, c),
{
    match k {
        CharKind::Ws => ws_check(c),
        CharKind::Dash => c == '-',
        CharKind::DeclOpt => c == 'i' || c == 'a' || c == 'A' || c == 'f' || c == 'x' || c == 'r',
        CharKind::VarOpt => c == 'i' || c == 'x' || c == 'r',
        CharKind::ArrOpt => c == 'a' || c == 'A' || c == 'x' || c == 'r',
        CharKind::NameChar => name_char_check(c),
        CharKind::AliasChar => name_char_check(c) || c == '-',
    }
}

fn name_start_check(c: char) -> (r: bool)
    ensures
        r == is_name_start(c),
{
    ('a' <= c && c <= 'z') || ('A' <= c && c <= 'Z') || c == '_'
}

fn name_char_check(c: char) -> (r: bool)
    ensures
        r == is_name_char(c),
{
    name_start_check(c) || ('0' <= c && c <= '9')
}

/// The end of the run of `k`-characters that starts at `i`.
pub open spec fn scan(s: Seq<char>, i: int, k: CharKind) -> int
    decreases s.len() - i,
{
    if i < 0 || i >= s.len() {
        i
    } else if kind_holds(k, s[i]) {
        scan(s, i + 1, k)
    } else {
        i
    }
}

pub proof fn lemma_scan(s: Seq<char>, i: int, k: CharKind)
    requires
        0 <= i <= s.len(),
    ensures
        i <= scan(s, i, k) <= s.len(),
        forall|j: int| i <= j < scan(s, i, k) ==> kind_holds(k, s[j]),
        scan(s, i, k) < s.len() ==> !kind_holds(k, s[scan(s, i, k)]),
    decreases s.len() - i,
{
    if i < s.len() && kind_holds(k, s[i]) {
        lemma_scan(s, i + 1, k);
    }
}

fn scan_from(s: &str, i: usize, k: CharKind) -> (r: usize)
    requires
        i <= s@.len(),
    ensures
        r == scan(s@, i as int, k),
        i <= r <= s@.len(),
{
    let n = s.unicode_len();
    let mut j = i;
    while j < n && kind_check(k, s.get_char(j))
        invariant
            n == s@.len(),
            i <= j <= n,
            scan(s@, i as int, k) == scan(s@, j as int, k),
        decreases n - j,
    {
        proof {
            assert(scan(s@, j as int, k) == scan(s@, j + 1, k));
        }
        j = j + 1;
    }
    proof {
        assert(scan(s@, j as int, k) == j);
        lemma_scan(s@, i as int, k);
    }
    j
}

/// The word `declare`.
pub open spec fn declare_chars() -> Seq<char> {
    seq!['d', 'e', 'c', 'l', 'a', 'r', 'e']
}

/// The word `alias`.
pub open spec fn alias_chars() -> Seq<char> {
    seq!['a', 'l', 'i', 'a', 's']
}

fn starts_with_declare(s: &str) -> (r: bool)
    ensures
        r == (s@.len() >= 7 && s@.subrange(0, 7) == declare_chars()),
{
    if s.unicode_len() < 7 {
        return false;
    }
    let ok = s.get_char(0) == 'd' && s.get_char(1) == 'e' && s.get_char(2) == 'c' && s.get_char(3)
        == 'l' && s.get_char(4) == 'a' && s.get_char(5) == 'r' && s.get_char(6) == 'e';
    proof {
        let p = s@.subrange(0, 7);
        if ok {
            assert(p =~= declare_chars());
        } else {
            if p == declare_chars() {
                assert(s@[0] == p[0] && s@[1] == p[1] && s@[2] == p[2] && s@[3] == p[3] && s@[4]
                    == p[4] && s@[5] == p[5] && s@[6] == p[6]);
            }
        }
    }
    ok
}

fn starts_with_alias(s: &str) -> (r: bool)
    ensures
        r == (s@.len() >= 5 && s@.subrange(0, 5) == alias_chars()),
{
    if s.unicode_len() < 5 {
        return false;
    }
    let ok = s.get_char(0) == 'a' && s.get_char(1) == 'l' && s.get_char(2) == 'i' && s.get_char(3)
        == 'a' && s.get_char(4) == 's';
    proof {
        let p = s@.subrange(0, 5);
        if ok {
            assert(p =~= alias_chars());
        } else {
            if p == alias_chars() {
                assert(s@[0] == p[0] && s@[1] == p[1] && s@[2] == p[2] && s@[3] == p[3] && s@[4]
                    == p[4]);
            }
        }
    }
    ok
}

/// An attribute-only declaration: `declare`, whitespace, dashes, option
/// letters, whitespace, then a name filling the rest of the line. Captures
/// the option letters and the name.
pub open spec fn spec_match_declare(s: Seq<char>) -> Option<(Seq<char>, Seq<char>)> {
    if s.len() < 7 || s.subrange(0, 7) != declare_chars() {
        None
    } else {
        let j1 = scan(s, 7, CharKind::Ws);
        if j1 == 7 {
            None
        } else {
            let j2 = scan(s, j1, CharKind::Dash);
            if j2 == j1 {
                None
            } else {
                let j3 = scan(s, j2, CharKind::DeclOpt);
                let j4 = scan(s, j3, CharKind::Ws);
                if j4 == j3 || j4 >= s.len() || !is_name_start(s[j4]) {
                    None
                } else {
                    let j5 = scan(s, j4 + 1, CharKind::NameChar);
                    if j5 != s.len() {
                        None
                    } else {
                        Some((s.subrange(j2, j3), s.subrange(j4, j5)))
                    }
                }
            }
        }
    }
}

fn match_declare(s: &str) -> (r: Option<(String, String)>)
    ensures
        match r {
            Some(p) => spec_match_declare(s@) == Some((p.0@, p.1@)),
            None => spec_match_declare(s@) is None,
        },
{
    if !starts_with_declare(s) {
        return None;
    }
    let n = s.unicode_len();
    let j1 = scan_from(s, 7, CharKind::Ws);
    if j1 == 7 {
        return None;
    }
    let j2 = scan_from(s, j1, CharKind::Dash);
    if j2 == j1 {
        return None;
    }
    let j3 = scan_from(s, j2, CharKind::DeclOpt);
    let j4 = scan_from(s, j3, CharKind::Ws);
    if j4 == j3 || j4 >= n {
        return None;
    }
    if !name_start_check(s.get_char(j4)) {
        return None;
    }
    let j5 = scan_from(s, j4 + 1, CharKind::NameChar);
    if j5 != n {
        return None;
    }
    let opts = String::from_str(s.substring_char(j2, j3));
    let name = String::from_str(s.substring_char(j4, j5));
    Some((opts, name))
}

/// The opening line of a scalar-variable declaration: as above but with
/// scalar option letters and `="` after the name; the rest of the line, the
/// opening of the value, is captured verbatim.
pub open spec fn spec_match_var_start(s: Seq<char>) -> Option<(Seq<char>, Seq<char>, Seq<char>)> {
    if s.len() < 7 || s.subrange(0, 7) != declare_chars() {
        None
    } else {
        let j1 = scan(s, 7, CharKind::Ws);
        if j1 == 7 {
            None
        } else {
            let j2 = scan(s, j1, CharKind::Dash);
            if j2 == j1 {
                None
            } else {
                let j3 = scan(s, j2, CharKind::VarOpt);
                let j4 = scan(s, j3, CharKind::Ws);
                if j4 == j3 || j4 >= s.len() || !is_name_start(s[j4]) {
                    None
                } else {
                    let j5 = scan(s, j4 + 1, CharKind::NameChar);
                    if j5 + 1 < s.len() && s[j5] == '=' && s[j5 + 1] == '"' {
                        Some((s.subrange(j2, j3), s.subrange(j4, j5), s.subrange(j5 + 2, s.len() as int)))
                    } else {
                        None
                    }
                }
            }
        }
    }
}

fn match_var_start(s: &str) -> (r: Option<(String, String, String)>)
    ensures
        match r {
            Some(p) => spec_match_var_start(s@) == Some((p.0@, p.1@, p.2@)),
            None => spec_match_var_start(s@) is None,
        },
{
    if !starts_with_declare(s) {
        return None;
    }
    let n = s.unicode_len();
    let j1 = scan_from(s, 7, CharKind::Ws);
    if j1 == 7 {
        return None;
    }
    let j2 = scan_from(s, j1, CharKind::Dash);
    if j2 == j1 {
        return None;
    }
    let j3 = scan_from(s, j2, CharKind::VarOpt);
    let j4 = scan_from(s, j3, CharKind::Ws);
    if j4 == j3 || j4 >= n {
        return None;
    }
    if !name_start_check(s.get_char(j4)) {
        return None;
    }
    let j5 = scan_from(s, j4 + 1, CharKind::NameChar);
    if j5 < n && s.get_char(j5) == '=' && j5 + 1 < n && s.get_char(j5 + 1) == '"' {
        let opts = String::from_str(s.substring_char(j2, j3));
        let name = String::from_str(s.substring_char(j4, j5));
        let value = String::from_str(s.substring_char(j5 + 2, n));
        Some((opts, name, value))
    } else {
        None
    }
}

/// The opening line of an array-variable declaration: `declare`, whitespace,
/// one dash, at least one array option letter, whitespace, a name, then `=(`;
/// the rest of the line is captured verbatim.
pub open spec fn spec_match_array_start(s: Seq<char>) -> Option<(Seq<char>, Seq<char>, Seq<char>)> {
    if s.len() < 7 || s.subrange(0, 7) != declare_chars() {
        None
    } else {
        let j1 = scan(s, 7, CharKind::Ws);
        if j1 == 7 || j1 >= s.len() || s[j1] != '-' {
            None
        } else {
            let j3 = scan(s, j1 + 1, CharKind::ArrOpt);
            if j3 == j1 + 1 {
                None
            } else {
                let j4 = scan(s, j3, CharKind::Ws);
                if j4 == j3 || j4 >= s.len() || !is_name_start(s[j4]) {
                    None
                } else {
                    let j5 = scan(s, j4 + 1, CharKind::NameChar);
                    if j5 + 1 < s.len() && s[j5] == '=' && s[j5 + 1] == '(' {
                        Some(
                            (
                                s.subrange(j1 + 1, j3),
                                s.subrange(j4, j5),
                                s.subrange(j5 + 2, s.len() as int),
                            ),
                        )
                    } else {
                        None
                    }
                }
            }
        }
    }
}

fn match_array_start(s: &str) -> (r: Option<(String, String, String)>)
    ensures
        match r {
            Some(p) => spec_match_array_start(s@) == Some((p.0@, p.1@, p.2@)),
            None => spec_match_array_start(s@) is None,
        },
{
    if !starts_with_declare(s) {
        return None;
    }
    let n = s.unicode_len();
    let j1 = scan_from(s, 7, CharKind::Ws);
    if j1 == 7 || j1 >= n {
        return None;
    }
    if s.get_char(j1) != '-' {
        return None;
    }
    let j3 = scan_from(s, j1 + 1, CharKind::ArrOpt);
    if j3 == j1 + 1 {
        return None;
    }
    let j4 = scan_from(s, j3, CharKind::Ws);
    if j4 == j3 || j4 >= n {
        return None;
    }
    if !name_start_check(s.get_char(j4)) {
        return None;
    }
    let j5 = scan_from(s, j4 + 1, CharKind::NameChar);
    if j5 < n && s.get_char(j5) == '=' && j5 + 1 < n && s.get_char(j5 + 1) == '(' {
        let opts = String::from_str(s.substring_char(j1 + 1, j3));
        let name = String::from_str(s.substring_char(j4, j5));
        let value = String::from_str(s.substring_char(j5 + 2, n));
        Some((opts, name, value))
    } else {
        None
    }
}

/// A function header: a name, optional whitespace, `()`, optional trailing
/// whitespace, nothing else. Captures the name.
pub open spec fn spec_match_function_start(s: Seq<char>) -> Option<Seq<char>> {
    if s.len() == 0 || !is_name_start(s[0]) {
        None
    } else {
        let j1 = scan(s, 1, CharKind::NameChar);
        let j2 = scan(s, j1, CharKind::Ws);
        if j2 + 1 < s.len() && s[j2] == '(' && s[j2 + 1] == ')' && scan(s, j2 + 2, CharKind::Ws)
            == s.len() {
            Some(s.subrange(0, j1))
        } else {
            None
        }
    }
}

fn match_function_start(s: &str) -> (r: Option<String>)
    ensures
        match r {
            Some(p) => spec_match_function_start(s@) == Some(p@),
            None => spec_match_function_start(s@) is None,
        },
{
    let n = s.unicode_len();
    if n == 0 {
        return None;
    }
    if !name_start_check(s.get_char(0)) {
        return None;
    }
    let j1 = scan_from(s, 1, CharKind::NameChar);
    let j2 = scan_from(s, j1, CharKind::Ws);
    if j2 < n && s.get_char(j2) == '(' && j2 + 1 < n && s.get_char(j2 + 1) == ')' {
        let j3 = scan_from(s, j2 + 2, CharKind::Ws);
        if j3 == n {
            return Some(String::from_str(s.substring_char(0, j1)));
        }
    }
    None
}

/// The terminating line of a function definition: `}` alone, optionally
/// followed by whitespace.
pub open spec fn is_function_end(s: Seq<char>) -> bool {
    s.len() >= 1 && s[0] == '}' && scan(s, 1, CharKind::Ws) == s.len()
}

fn function_end_check(s: &str) -> (r: bool)
    ensures
        r == is_function_end(s@),
{
    let n = s.unicode_len();
    if n == 0 {
        return false;
    }
    if s.get_char(0) != '}' {
        return false;
    }
    let j = scan_from(s, 1, CharKind::Ws);
    j == n
}

/// An alias definition: `alias`, whitespace, a name, `='`, a body, and a
/// closing quote ending the line. Captures the name and the body between the
/// outermost quotes.
pub open spec fn spec_match_alias(s: Seq<char>) -> Option<(Seq<char>, Seq<char>)> {
    if s.len() < 5 || s.subrange(0, 5) != alias_chars() {
        None
    } else {
        let j1 = scan(s, 5, CharKind::Ws);
        if j1 == 5 || j1 >= s.len() || !is_name_start(s[j1]) {
            None
        } else {
            let j2 = scan(s, j1 + 1, CharKind::AliasChar);
            if j2 + 1 < s.len() && s[j2] == '=' && s[j2 + 1] == '\'' && j2 + 3 <= s.len() && s[s.len()
                - 1] == '\'' {
                Some((s.subrange(j1, j2), s.subrange(j2 + 2, s.len() - 1)))
            } else {
                None
            }
        }
    }
}

fn match_alias(s: &str) -> (r: Option<(String, String)>)
    ensures
        match r {
            Some(p) => spec_match_alias(s@) == Some((p.0@, p.1@)),
            None => spec_match_alias(s@) is None,
        },
{
    if !starts_with_alias(s) {
        return None;
    }
    let n = s.unicode_len();
    let j1 = scan_from(s, 5, CharKind::Ws);
    if j1 == 5 || j1 >= n {
        return None;
    }
    if !name_start_check(s.get_char(j1)) {
        return None;
    }
    let j2 = scan_from(s, j1 + 1, CharKind::AliasChar);
    if j2 < n && s.get_char(j2) == '=' && j2 + 1 < n && s.get_char(j2 + 1) == '\'' && n - j2 >= 3
        && s.get_char(n - 1) == '\'' {
        let name = String::from_str(s.substring_char(j1, j2));
        let body = String::from_str(s.substring_char(j2 + 2, n - 1));
        Some((name, body))
    } else {
        None
    }
}

/// The classification of one (already trimmed) input line.
pub enum LineClass {
    DeclareBare { opts: String, name: String },
    VarStart { opts: String, name: String, value: String },
    ArrayStart { opts: String, name: String, value: String },
    FunctionStart { name: String },
    AliasDef { name: String, body: String },
    FunctionEnd,
    Unparsed,
}

/// Ghost image of a classification.
pub enum LineClassV {
    DeclareBare { opts: Seq<char>, name: Seq<char> },
    VarStart { opts: Seq<char>, name: Seq<char>, value: Seq<char> },
    ArrayStart { opts: Seq<char>, name: Seq<char>, value: Seq<char> },
    FunctionStart { name: Seq<char> },
    AliasDef { name: Seq<char>, body: Seq<char> },
    FunctionEnd,
    Unparsed,
}

impl View for LineClass {
    type V = LineClassV;

    open spec fn view(&self) -> LineClassV {
        match self {
            LineClass::DeclareBare { opts, name } => LineClassV::DeclareBare {
                opts: opts@,
                name: name@,
            },
            LineClass::VarStart { opts, name, value } => LineClassV::VarStart {
                opts: opts@,
                name: name@,
                value: value@,
            },
            LineClass::ArrayStart { opts, name, value } => LineClassV::ArrayStart {
                opts: opts@,
                name: name@,
                value: value@,
            },
            LineClass::FunctionStart { name } => LineClassV::FunctionStart { name: name@ },
            LineClass::AliasDef { name, body } => LineClassV::AliasDef { name: name@, body: body@ },
            LineClass::FunctionEnd => LineClassV::FunctionEnd,
            LineClass::Unparsed => LineClassV::Unparsed,
        }
    }
}

/// Classification of a trimmed line, trying each pattern in a fixed order.
pub open spec fn spec_classify(s: Seq<char>) -> LineClassV {
    if spec_match_declare(s) is Some {
        let p = spec_match_declare(s)->0;
        LineClassV::DeclareBare { opts: p.0, name: p.1 }
    } else if spec_match_var_start(s) is Some {
        let p = spec_match_var_start(s)->0;
        LineClassV::VarStart { opts: p.0, name: p.1, value: p.2 }
    } else if spec_match_array_start(s) is Some {
        let p = spec_match_array_start(s)->0;
        LineClassV::ArrayStart { opts: p.0, name: p.1, value: p.2 }
    } else if spec_match_function_start(s) is Some {
        LineClassV::FunctionStart { name: spec_match_function_start(s)->0 }
    } else if spec_match_alias(s) is Some {
        let p = spec_match_alias(s)->0;
        LineClassV::AliasDef { name: p.0, body: p.1 }
    } else if is_function_end(s) {
        LineClassV::FunctionEnd
    } else {
        LineClassV::Unparsed
    }
}

/// Classifies a trimmed line.
pub fn classify_line(s: &str) -> (c: LineClass)
    ensures
        c@ == spec_classify(s@),
{
    if let Some((opts, name)) = match_declare(s) {
        return LineClass::DeclareBare { opts, name };
    }
    if let Some((opts, name, value)) = match_var_start(s) {
        return LineClass::VarStart { opts, name, value };
    }
    if let Some((opts, name, value)) = match_array_start(s) {
        return LineClass::ArrayStart { opts, name, value };
    }
    if let Some(name) = match_function_start(s) {
        return LineClass::FunctionStart { name };
    }
    if let Some((name, body)) = match_alias(s) {
        return LineClass::AliasDef { name, body };
    }
    if function_end_check(s) {
        return LineClass::FunctionEnd;
    }
    LineClass::Unparsed
}

/// The parser's position in the line stream.
#[derive(Clone, Copy)]
pub enum LineState {
    /// Between statements.
    Base,
    /// Inside a multi-line scalar value.
    InVariableDef,
    /// Inside a multi-line array value.
    InArrayDef,
    /// Inside a function body.
    InFunctionDef,
}

/// Names of variables that change incidentally on every shell invocation;
/// they are never recorded.
pub open spec fn is_volatile_var(n: Seq<char>) -> bool {
    n == "_"@ || n == "OLDPWD"@
}

fn volatile_check(name: &str) -> (r: bool)
    ensures
        r == is_volatile_var(name@),
{
    str_eq(name, "_") || str_eq(name, "OLDPWD")
}

/// A line with the newline that joins it to a buffer.
pub open spec fn line_nl(l: Seq<char>) -> Seq<char> {
    l + "\n"@
}

/// Re-declaration text of an attribute-only declaration; the forced `-g`
/// makes the name global when the statement is later sourced inside a
/// function.
pub open spec fn bare_text(opts: Seq<char>, name: Seq<char>) -> Seq<char> {
    "declare -g"@ + opts + " "@ + name + "\n"@
}

/// Re-declaration text opened by a scalar-variable line; `value` is carried
/// verbatim and still holds the closing quote when the line was complete.
pub open spec fn var_text(opts: Seq<char>, name: Seq<char>, value: Seq<char>) -> Seq<char> {
    "declare -g"@ + opts + " "@ + name + "=\""@ + value + "\n"@
}

/// Re-declaration text opened by an array-variable line.
pub open spec fn array_text(opts: Seq<char>, name: Seq<char>, value: Seq<char>) -> Seq<char> {
    "declare -g"@ + opts + " "@ + name + "=("@ + value + "\n"@
}

/// Re-declaration text of an alias.
pub open spec fn alias_text(name: Seq<char>, body: Seq<char>) -> Seq<char> {
    "alias "@ + name + "='"@ + body + "'\n"@
}

/// The diagnostic line emitted for input no pattern matches.
pub open spec fn diag_line(l: Seq<char>) -> Seq<char> {
    "unparsed '"@ + sq_escaped(l) + "'"@
}

/// Whether a buffered span ends with its unescaped terminator: the last
/// character is `t` and is not preceded by a backslash.
pub open spec fn ends_unescaped(s: Seq<char>, t: char) -> bool {
    s.len() > 0 && s.last() == t && !(s.len() >= 2 && s[s.len() - 2] == '\\')
}

fn ends_unescaped_check(s: &str, t: char) -> (r: bool)
    ensures
        r == ends_unescaped(s@, t),
{
    let n = s.unicode_len();
    n > 0 && s.get_char(n - 1) == t && !(n >= 2 && s.get_char(n - 2) == '\\')
}

/// The raw option-list value of a reserved variable: the captured value
/// without its closing quote, stripped of trailing delimiters.
pub open spec fn raw_opts(value: Seq<char>) -> Seq<char>
    recommends
        value.len() > 0,
{
    trimmed_end_char(value.take(value.len() - 1), ':')
}

fn raw_opts_exec(value: &str) -> (r: String)
    requires
        value@.len() > 0,
    ensures
        r@ == raw_opts(value@),
{
    let n = value.unicode_len();
    let sub = value.substring_char(0, n - 1);
    proof {
        assert(value@.subrange(0, n - 1) =~= value@.take(n - 1));
    }
    trim_end_char(sub, ':')
}

fn build_bare_text(opts: &str, name: &str) -> (r: String)
    ensures
        r@ == bare_text(opts@, name@),
        r@.len() > 0,
        r@.last() == '\n',
{
    let mut r = String::from_str("declare -g");
    r.append(opts);
    r.append(" ");
    r.append(name);
    r.append("\n");
    proof {
        reveal_strlit("\n");
    }
    r
}

fn build_var_text(opts: &str, name: &str, value: &str) -> (r: String)
    ensures
        r@ == var_text(opts@, name@, value@),
        r@.len() > 0,
        r@.last() == '\n',
{
    let mut r = String::from_str("declare -g");
    r.append(opts);
    r.append(" ");
    r.append(name);
    r.append("=\"");
    r.append(value);
    r.append("\n");
    proof {
        reveal_strlit("\n");
    }
    r
}

fn build_array_text(opts: &str, name: &str, value: &str) -> (r: String)
    ensures
        r@ == array_text(opts@, name@, value@),
        r@.len() > 0,
        r@.last() == '\n',
{
    let mut r = String::from_str("declare -g");
    r.append(opts);
    r.append(" ");
    r.append(name);
    r.append("=(");
    r.append(value);
    r.append("\n");
    proof {
        reveal_strlit("\n");
    }
    r
}

fn build_alias_text(name: &str, body: &str) -> (r: String)
    ensures
        r@ == alias_text(name@, body@),
        r@.len() > 0,
        r@.last() == '\n',
{
    let mut r = String::from_str("alias ");
    r.append(name);
    r.append("='");
    r.append(body);
    r.append("'\n");
    proof {
        reveal_strlit("'\n");
    }
    r
}

fn build_diag(line: &str) -> (r: String)
    ensures
        r@ == diag_line(line@),
{
    let mut r = String::from_str("unparsed '");
    let e = sq_escape(line);
    r.append(e.as_str());
    r.append("'");
    r
}

/// Appends a line plus newline to a buffer.
fn push_line(b: &mut String, line: &str)
    ensures
        final(b)@ == old(b)@ + line_nl(line@),
        final(b)@.len() > 0,
        final(b)@.last() == '\n',
{
    b.append(line);
    b.append("\n");
    proof {
        reveal_strlit("\n");
        assert(b@ =~= old(b)@ + line_nl(line@));
    }
}

/// The two reserved option-list variables, stored as their raw
/// colon-delimited values rather than as re-declaration statements: they are
/// diffed as sets of independent toggles.
pub struct OptionSnapshot {
    pub shellopts: String,
    pub bashopts: String,
}

/// One snapshot of shell state: re-declaration records for variables,
/// functions and aliases, plus the raw values of the two reserved
/// option-list variables.
pub struct EnvironmentSnapshot {
    pub vars: NameSet,
    pub funcs: NameSet,
    pub aliases: NameSet,
    pub options: OptionSnapshot,
}

/// Ghost image of a snapshot.
pub struct SnapshotV {
    pub vars: Seq<RecordV>,
    pub funcs: Seq<RecordV>,
    pub aliases: Seq<RecordV>,
    pub shellopts: Seq<char>,
    pub bashopts: Seq<char>,
}

impl View for EnvironmentSnapshot {
    type V = SnapshotV;

    open spec fn view(&self) -> SnapshotV {
        SnapshotV {
            vars: self.vars@,
            funcs: self.funcs@,
            aliases: self.aliases@,
            shellopts: self.options.shellopts@,
            bashopts: self.options.bashopts@,
        }
    }
}

impl EnvironmentSnapshot {
    /// All three categories well-formed.
    pub open spec fn wf(self) -> bool {
        wf_recs(self@.vars) && wf_recs(self@.funcs) && wf_recs(self@.aliases)
    }

    /// An empty snapshot.
    pub fn new() -> (r: Self)
        ensures
            r.wf(),
            r@.vars == Seq::<RecordV>::empty(),
            r@.funcs == Seq::<RecordV>::empty(),
            r@.aliases == Seq::<RecordV>::empty(),
            r@.shellopts == Seq::<char>::empty(),
            r@.bashopts == Seq::<char>::empty(),
    {
        EnvironmentSnapshot {
            vars: NameSet::new(),
            funcs: NameSet::new(),
            aliases: NameSet::new(),
            options: OptionSnapshot { shellopts: String::new(), bashopts: String::new() },
        }
    }
}

/// Ghost state of the parser: position, pending name, buffered text, and
/// everything recorded so far. The three categories are tracked as the
/// mappings they denote.
pub struct ParseStateV {
    pub state: LineState,
    pub name: Seq<char>,
    pub body: Seq<char>,
    pub vars: Map<Seq<char>, Seq<char>>,
    pub funcs: Map<Seq<char>, Seq<char>>,
    pub aliases: Map<Seq<char>, Seq<char>>,
    pub shellopts: Seq<char>,
    pub bashopts: Seq<char>,
    pub diags: Seq<Seq<char>>,
}

/// The state before any line was read.
pub open spec fn init_state() -> ParseStateV {
    ParseStateV {
        state: LineState::Base,
        name: Seq::<char>::empty(),
        body: Seq::<char>::empty(),
        vars: Map::<Seq<char>, Seq<char>>::empty(),
        funcs: Map::<Seq<char>, Seq<char>>::empty(),
        aliases: Map::<Seq<char>, Seq<char>>::empty(),
        shellopts: Seq::<char>::empty(),
        bashopts: Seq::<char>::empty(),
        diags: Seq::<Seq<char>>::empty(),
    }
}

/// Records a variable unless its name is volatile.
pub open spec fn record_var(
    vars: Map<Seq<char>, Seq<char>>,
    name: Seq<char>,
    text: Seq<char>,
) -> Map<Seq<char>, Seq<char>> {
    if is_volatile_var(name) {
        vars
    } else {
        vars.insert(name, text)
    }
}

/// The transition taken from the base state on a trimmed line.
pub open spec fn spec_step_base(p: ParseStateV, line: Seq<char>) -> ParseStateV {
    match spec_classify(line) {
        LineClassV::DeclareBare { opts, name } => ParseStateV {
            vars: record_var(p.vars, name, bare_text(opts, name)),
            ..p
        },
        LineClassV::VarStart { opts, name, value } => {
            if ends_unescaped(value, '"') {
                if name == "SHELLOPTS"@ {
                    ParseStateV { shellopts: raw_opts(value), ..p }
                } else if name == "BASHOPTS"@ {
                    ParseStateV { bashopts: raw_opts(value), ..p }
                } else {
                    ParseStateV { vars: record_var(p.vars, name, var_text(opts, name, value)), ..p }
                }
            } else {
                ParseStateV {
                    state: LineState::InVariableDef,
                    name: name,
                    body: var_text(opts, name, value),
                    ..p
                }
            }
        },
        LineClassV::ArrayStart { opts, name, value } => {
            if ends_unescaped(value, ')') {
                ParseStateV { vars: record_var(p.vars, name, array_text(opts, name, value)), ..p }
            } else {
                ParseStateV {
                    state: LineState::InArrayDef,
                    name: name,
                    body: array_text(opts, name, value),
                    ..p
                }
            }
        },
        LineClassV::FunctionStart { name } => ParseStateV {
            state: LineState::InFunctionDef,
            name: name,
            body: line_nl(line),
            ..p
        },
        LineClassV::AliasDef { name, body } => ParseStateV {
            aliases: p.aliases.insert(name, alias_text(name, body)),
            ..p
        },
        LineClassV::FunctionEnd => ParseStateV { diags: p.diags.push(diag_line(line)), ..p },
        LineClassV::Unparsed => ParseStateV { diags: p.diags.push(diag_line(line)), ..p },
    }
}

/// The transition on one raw input line. The line is first trimmed of
/// trailing whitespace. Inside a multi-line value the line is appended
/// verbatim and only the unescaped terminator finalizes the record; inside a
/// function body only the terminator line does.
pub open spec fn spec_step(p: ParseStateV, raw: Seq<char>) -> ParseStateV {
    let line = trimmed_end(raw);
    match p.state {
        LineState::Base => spec_step_base(p, line),
        LineState::InVariableDef => {
            let body2 = p.body + line_nl(line);
            if ends_unescaped(line, '"') {
                ParseStateV {
                    state: LineState::Base,
                    body: Seq::<char>::empty(),
                    vars: record_var(p.vars, p.name, body2),
                    ..p
                }
            } else {
                ParseStateV { body: body2, ..p }
            }
        },
        LineState::InArrayDef => {
            let body2 = p.body + line_nl(line);
            if ends_unescaped(line, ')') {
                ParseStateV {
                    state: LineState::Base,
                    body: Seq::<char>::empty(),
                    vars: record_var(p.vars, p.name, body2),
                    ..p
                }
            } else {
                ParseStateV { body: body2, ..p }
            }
        },
        LineState::InFunctionDef => {
            let body2 = p.body + line_nl(line);
            if is_function_end(line) {
                ParseStateV {
                    state: LineState::Base,
                    body: Seq::<char>::empty(),
                    funcs: p.funcs.insert(p.name, body2),
                    ..p
                }
            } else {
                ParseStateV { body: body2, ..p }
            }
        },
    }
}

/// The state after a whole line sequence, folded through `spec_step`.
pub open spec fn spec_parse(lines: Seq<Seq<char>>) -> ParseStateV
    decreases lines.len(),
{
    if lines.len() == 0 {
        init_state()
    } else {
        spec_step(spec_parse(lines.drop_last()), lines.last())
    }
}

/// The parser: position, pending name and buffer, and the snapshot and
/// diagnostics accumulated so far.
pub struct Parser {
    pub state: LineState,
    pub name: String,
    pub body: String,
    pub snapshot: EnvironmentSnapshot,
    pub diagnostics: Vec<String>,
}

impl View for Parser {
    type V = ParseStateV;

    open spec fn view(&self) -> ParseStateV {
        ParseStateV {
            state: self.state,
            name: self.name@,
            body: self.body@,
            vars: recs_map(self.snapshot@.vars),
            funcs: recs_map(self.snapshot@.funcs),
            aliases: recs_map(self.snapshot@.aliases),
            shellopts: self.snapshot@.shellopts,
            bashopts: self.snapshot@.bashopts,
            diags: strs(self.diagnostics@),
        }
    }
}

impl Parser {
    /// The snapshot categories stay well-formed throughout parsing.
    pub open spec fn wf(self) -> bool {
        self.snapshot.wf()
    }

    /// A parser in the initial state.
    pub fn new() -> (r: Self)
        ensures
            r.wf(),
            r@ == init_state(),
    {
        let r = Parser {
            state: LineState::Base,
            name: String::new(),
            body: String::new(),
            snapshot: EnvironmentSnapshot::new(),
            diagnostics: Vec::new(),
        };
        proof {
            assert(recs_map(r.snapshot@.vars) =~= Map::<Seq<char>, Seq<char>>::empty());
            assert(recs_map(r.snapshot@.funcs) =~= Map::<Seq<char>, Seq<char>>::empty());
            assert(recs_map(r.snapshot@.aliases) =~= Map::<Seq<char>, Seq<char>>::empty());
            assert(strs(r.diagnostics@) =~= Seq::<Seq<char>>::empty());
            assert(r@ == init_state());
        }
        r
    }

    /// Consumes one raw input line.
    pub fn feed_line(&mut self, raw: &str)
        requires
            old(self).wf(),
        ensures
            final(self).wf(),
            final(self)@ == spec_step(old(self)@, raw@),
    {
        let ghost p0 = self@;
        let line = trim_end(raw);
        match self.state {
            LineState::Base => {
                let c = classify_line(line.as_str());
                let ghost cv = c@;
                match c {
                    LineClass::DeclareBare { opts, name } => {
                        let ghost n = name@;
                        let text = build_bare_text(opts.as_str(), name.as_str());
                        if !volatile_check(name.as_str()) {
                            self.snapshot.vars.insert(name, text);
                        }
                        proof {
                            assert(self@ == spec_step(p0, raw@));
                        }
                    },
                    LineClass::VarStart { opts, name, value } => {
                        let ghost n = name@;
                        if ends_unescaped_check(value.as_str(), '"') {
                            if str_eq(name.as_str(), "SHELLOPTS") {
                                self.snapshot.options.shellopts = raw_opts_exec(value.as_str());
                            } else if str_eq(name.as_str(), "BASHOPTS") {
                                self.snapshot.options.bashopts = raw_opts_exec(value.as_str());
                            } else {
                                let text = build_var_text(
                                    opts.as_str(),
                                    name.as_str(),
                                    value.as_str(),
                                );
                                if !volatile_check(name.as_str()) {
                                    self.snapshot.vars.insert(name, text);
                                }
                            }
                        } else {
                            let text = build_var_text(opts.as_str(), name.as_str(), value.as_str());
                            self.state = LineState::InVariableDef;
                            self.name = name;
                            self.body = text;
                        }
                        proof {
                            assert(self@ == spec_step(p0, raw@));
                        }
                    },
                    LineClass::ArrayStart { opts, name, value } => {
                        let ghost n = name@;
                        if ends_unescaped_check(value.as_str(), ')') {
                            let text = build_array_text(opts.as_str(), name.as_str(), value.as_str());
                            if !volatile_check(name.as_str()) {
                                self.snapshot.vars.insert(name, text);
                            }
                        } else {
                            let text = build_array_text(opts.as_str(), name.as_str(), value.as_str());
                            self.state = LineState::InArrayDef;
                            self.name = name;
                            self.body = text;
                        }
                        proof {
                            assert(self@ == spec_step(p0, raw@));
                        }
                    },
                    LineClass::FunctionStart { name } => {
                        self.state = LineState::InFunctionDef;
                        self.name = name;
                        let mut b = String::new();
                        push_line(&mut b, line.as_str());
                        self.body = b;
                        proof {
                            assert(Seq::<char>::empty() + line_nl(line@) =~= line_nl(line@));
                            assert(self@ == spec_step(p0, raw@));
                        }
                    },
                    LineClass::AliasDef { name, body } => {
                        let text = build_alias_text(name.as_str(), body.as_str());
                        self.snapshot.aliases.insert(name, text);
                        proof {
                            assert(self@ == spec_step(p0, raw@));
                        }
                    },
                    LineClass::FunctionEnd => {
                        let d = build_diag(line.as_str());
                        let ghost pre = self.diagnostics@;
                        self.diagnostics.push(d);
                        proof {
                            assert(strs(self.diagnostics@) =~~= strs(pre).push(diag_line(line@)));
                            assert(self@ == spec_step(p0, raw@));
                        }
                    },
                    LineClass::Unparsed => {
                        let d = build_diag(line.as_str());
                        let ghost pre = self.diagnostics@;
                        self.diagnostics.push(d);
                        proof {
                            assert(strs(self.diagnostics@) =~~= strs(pre).push(diag_line(line@)));
                            assert(self@ == spec_step(p0, raw@));
                        }
                    },
                }
            },
            LineState::InVariableDef => {
                push_line(&mut self.body, line.as_str());
                if ends_unescaped_check(line.as_str(), '"') {
                    let text = self.body.clone();
                    self.body = String::new();
                    self.state = LineState::Base;
                    if !volatile_check(self.name.as_str()) {
                        let nm = self.name.clone();
                        self.snapshot.vars.insert(nm, text);
                    }
                }
                proof {
                    assert(self@ == spec_step(p0, raw@));
                }
            },
            LineState::InArrayDef => {
                push_line(&mut self.body, line.as_str());
                if ends_unescaped_check(line.as_str(), ')') {
                    let text = self.body.clone();
                    self.body = String::new();
                    self.state = LineState::Base;
                    if !volatile_check(self.name.as_str()) {
                        let nm = self.name.clone();
                        self.snapshot.vars.insert(nm, text);
                    }
                }
                proof {
                    assert(self@ == spec_step(p0, raw@));
                }
            },
            LineState::InFunctionDef => {
                push_line(&mut self.body, line.as_str());
                if function_end_check(line.as_str()) {
                    let text = self.body.clone();
                    self.body = String::new();
                    self.state = LineState::Base;
                    let nm = self.name.clone();
                    self.snapshot.funcs.insert(nm, text);
                }
                proof {
                    assert(self@ == spec_step(p0, raw@));
                }
            },
        }
    }
}

/// Parses a whole line sequence into a snapshot, returning the parser whose
/// snapshot and diagnostics are the fold of the transition function over the
/// lines. A value or function body still open at end of input stays in the
/// buffer and is dropped with it.
pub fn parse_environment(lines: &Vec<String>) -> (r: Parser)
    ensures
        r.wf(),
        r@ == spec_parse(strs(lines@)),
{
    let mut p = Parser::new();
    let mut i: usize = 0;
    proof {
        assert(strs(lines@).take(0) =~= Seq::<Seq<char>>::empty());
    }
    while i < lines.len()
        invariant
            i <= lines@.len(),
            p.wf(),
            p@ == spec_parse(strs(lines@).take(i as int)),
        decreases lines@.len() - i,
    {
        p.feed_line(lines[i].as_str());
        proof {
            assert(strs(lines@).take(i + 1).drop_last() =~= strs(lines@).take(i as int));
            assert(strs(lines@).take(i + 1).last() == lines@[i as int]@);
        }
        i = i + 1;
    }
    proof {
        assert(strs(lines@).take(lines@.len() as int) =~= strs(lines@));
    }
    p
}

/// Inside a multi-line value, a physical line whose closing character is
/// escaped (or absent) never finalizes the value: the line is appended
/// verbatim, the state is kept, and nothing is recorded.
pub proof fn lemma_value_line_continues(p: ParseStateV, raw: Seq<char>)
    requires
        p.state is InVariableDef || p.state is InArrayDef,
        p.state is InVariableDef ==> !ends_unescaped(trimmed_end(raw), '"'),
        p.state is InArrayDef ==> !ends_unescaped(trimmed_end(raw), ')'),
    ensures
        spec_step(p, raw).state == p.state,
        spec_step(p, raw).body == p.body + line_nl(trimmed_end(raw)),
        spec_step(p, raw).vars == p.vars,
        spec_step(p, raw).funcs == p.funcs,
{
}

/// The true unescaped terminator line finalizes the buffered value with its
/// exact accumulated content.
pub proof fn lemma_value_line_terminates(p: ParseStateV, raw: Seq<char>)
    requires
        p.state is InVariableDef ==> ends_unescaped(trimmed_end(raw), '"'),
        p.state is InArrayDef ==> ends_unescaped(trimmed_end(raw), ')'),
        p.state is InVariableDef || p.state is InArrayDef,
    ensures
        spec_step(p, raw).state is Base,
        spec_step(p, raw).vars == record_var(p.vars, p.name, p.body + line_nl(trimmed_end(raw))),
{
}

} // verus!
