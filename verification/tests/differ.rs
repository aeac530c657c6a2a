use cdenv::environment::{compare_environments, diff_options};
use cdenv::parse::EnvironmentSnapshot;

fn snap(vars: &[(&str, &str)], funcs: &[(&str, &str)], aliases: &[(&str, &str)]) -> EnvironmentSnapshot {
    let mut s = EnvironmentSnapshot::new();
    for (n, t) in vars {
        s.vars.insert(n.to_string(), t.to_string());
    }
    for (n, t) in funcs {
        s.funcs.insert(n.to_string(), t.to_string());
    }
    for (n, t) in aliases {
        s.aliases.insert(n.to_string(), t.to_string());
    }
    s
}

#[test]
fn added_variable_is_reported_and_unset() {
    let a = snap(&[], &[], &[]);
    let b = snap(&[("FOO", "declare -g FOO=\"1\"\n")], &[], &[]);
    let out = compare_environments(a, b);
    assert_eq!(out.report, vec![String::from("add FOO")]);
    assert_eq!(out.restore, String::from("unset FOO\n"));
}

#[test]
fn removed_variable_re_emits_old_statement() {
    let a = snap(&[("FOO", "declare -g FOO=\"1\"\n")], &[], &[]);
    let b = snap(&[], &[], &[]);
    let out = compare_environments(a, b);
    assert_eq!(out.report, vec![String::from("remove FOO")]);
    assert_eq!(out.restore, String::from("declare -g FOO=\"1\"\n"));
}

#[test]
fn changed_variable_is_unset_then_redeclared() {
    let a = snap(&[("FOO", "declare -g FOO=\"1\"\n")], &[], &[]);
    let b = snap(&[("FOO", "declare -g FOO=\"2\"\n")], &[], &[]);
    let out = compare_environments(a, b);
    assert_eq!(out.report, vec![String::from("modify FOO")]);
    assert_eq!(out.restore, String::from("unset FOO\ndeclare -g FOO=\"1\"\n"));
}

#[test]
fn categories_use_their_own_suffix_and_command() {
    let a = snap(&[], &[], &[]);
    let b = snap(
        &[("V", "declare -g V=\"x\"\n")],
        &[("f", "f ()\n{\n:\n}\n")],
        &[("l", "alias l='ls'\n")],
    );
    let out = compare_environments(a, b);
    assert_eq!(
        out.report,
        vec![
            String::from("add V"),
            String::from("add f()"),
            String::from("add l*"),
        ]
    );
    assert_eq!(out.restore, String::from("unset V\nunset -f f\nunalias l\n"));
}

#[test]
fn names_are_visited_in_sorted_order() {
    let a = snap(&[], &[], &[]);
    // Inserted out of order; the report must be lexicographic.
    let b = snap(
        &[("zeta", "declare -g zeta=\"1\"\n"), ("alpha", "declare -g alpha=\"1\"\n")],
        &[],
        &[],
    );
    let out = compare_environments(a, b);
    assert_eq!(out.report, vec![String::from("add alpha"), String::from("add zeta")]);
}

#[test]
fn equal_snapshots_produce_no_output() {
    let mk = || {
        snap(
            &[("FOO", "declare -g FOO=\"1\"\n")],
            &[("f", "f ()\n{\n:\n}\n")],
            &[("l", "alias l='ls'\n")],
        )
    };
    let out = compare_environments(mk(), mk());
    assert!(out.report.is_empty());
    assert_eq!(out.restore, String::new());
}

#[test]
fn mixed_diff_groups_added_removed_changed() {
    let a = snap(
        &[("KEEP", "declare -g KEEP=\"0\"\n"), ("OLD", "declare -g OLD=\"1\"\n"), (
            "MOD",
            "declare -g MOD=\"1\"\n",
        )],
        &[],
        &[],
    );
    let b = snap(
        &[("KEEP", "declare -g KEEP=\"0\"\n"), ("NEW", "declare -g NEW=\"2\"\n"), (
            "MOD",
            "declare -g MOD=\"2\"\n",
        )],
        &[],
        &[],
    );
    let out = compare_environments(a, b);
    assert_eq!(
        out.report,
        vec![
            String::from("add NEW"),
            String::from("remove OLD"),
            String::from("modify MOD"),
        ]
    );
    assert_eq!(
        out.restore,
        String::from("unset NEW\ndeclare -g OLD=\"1\"\nunset MOD\ndeclare -g MOD=\"1\"\n")
    );
}

#[test]
fn restore_round_trip_on_a_concrete_pair() {
    // Applying the restore statements to B by hand yields A again: NEW is
    // unset, OLD is re-declared with A's text, MOD is reset to A's text.
    let a_text_old = "declare -g OLD=\"1\"\n";
    let a_text_mod = "declare -g MOD=\"1\"\n";
    let a = snap(&[("OLD", a_text_old), ("MOD", a_text_mod)], &[], &[]);
    let b = snap(&[("NEW", "declare -g NEW=\"2\"\n"), ("MOD", "declare -g MOD=\"2\"\n")], &[], &[]);
    let out = compare_environments(a, b);
    // Simulate the shell: start from B's mapping and apply each statement.
    let mut env: std::collections::BTreeMap<String, String> = std::collections::BTreeMap::new();
    env.insert("NEW".to_string(), "declare -g NEW=\"2\"\n".to_string());
    env.insert("MOD".to_string(), "declare -g MOD=\"2\"\n".to_string());
    for stmt in out.restore.split_inclusive('\n') {
        if let Some(name) = stmt.strip_prefix("unset ") {
            env.remove(name.trim_end());
        } else {
            // A re-declaration statement defines the name it carries.
            let name = stmt
                .strip_prefix("declare -g ")
                .unwrap()
                .split('=')
                .next()
                .unwrap()
                .to_string();
            env.insert(name, stmt.to_string());
        }
    }
    let mut expected: std::collections::BTreeMap<String, String> = std::collections::BTreeMap::new();
    expected.insert("OLD".to_string(), a_text_old.to_string());
    expected.insert("MOD".to_string(), a_text_mod.to_string());
    assert_eq!(env, expected);
}

#[test]
fn enter_hook_is_fed_back_and_removed() {
    let a = snap(&[], &[], &[]);
    let b = snap(&[], &[("cdenv_enter", "cdenv_enter ()\n{\n:\n}\n")], &[]);
    let out = compare_environments(a, b);
    assert_eq!(
        out.report,
        vec![String::from("cdenv_enter"), String::from("unset -f cdenv_enter")]
    );
    // Excluded from ordinary diffing: no "add cdenv_enter()" line, and the
    // restore file gets nothing for it.
    assert_eq!(out.restore, String::new());
}

#[test]
fn leave_hook_is_preseeded_into_restore() {
    let a = snap(&[], &[], &[]);
    let body = "cdenv_leave ()\n{\n    echo bye\n}\n";
    let b = snap(&[], &[("cdenv_leave", body)], &[]);
    let out = compare_environments(a, b);
    assert_eq!(out.report, vec![String::from("unset -f cdenv_leave")]);
    assert_eq!(
        out.restore,
        format!("{}cdenv_leave\nunset -f cdenv_leave\n", body)
    );
}

#[test]
fn option_toggle_output_is_exactly_the_symmetric_difference() {
    // Before {a,b,c}, after {b,c,d}: d was turned on, a was turned off.
    let mut a = snap(&[], &[], &[]);
    a.options.shellopts = String::from("a:b:c");
    let mut b = snap(&[], &[], &[]);
    b.options.shellopts = String::from("b:c:d");
    let out = compare_environments(a, b);
    assert_eq!(out.report, vec![String::from("set-on d"), String::from("set-off a")]);
    assert_eq!(
        out.restore,
        String::from("shopt -u d 2>/dev/null || set +o d\nshopt -s a 2>/dev/null || set -o a\n")
    );
}

#[test]
fn diff_options_alone_reports_both_directions() {
    let (report, restore) = diff_options("extglob:histappend", "extglob:globstar");
    assert_eq!(
        report,
        vec![String::from("set-on globstar"), String::from("set-off histappend")]
    );
    assert_eq!(
        restore,
        String::from(
            "shopt -u globstar 2>/dev/null || set +o globstar\nshopt -s histappend 2>/dev/null || set -o histappend\n"
        )
    );
}

#[test]
fn equal_option_lists_toggle_nothing() {
    let (report, restore) = diff_options("a:b", "a:b");
    assert!(report.is_empty());
    assert_eq!(restore, String::new());
}

#[test]
fn empty_tokens_are_ignored() {
    let (report, _) = diff_options("a::b", "b::a:");
    assert!(report.is_empty());
}
