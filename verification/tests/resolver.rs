use cdenv::file::{
    build_found, delta_reconcile, list_dirs, list_paths, path_prefixes, reconcile, stale_report,
    Context,
};

fn ctx(global: bool, reload: bool, autoreload: bool, tag: u64) -> Context {
    Context {
        global,
        reload,
        autoreload,
        tag,
        file: String::from(".cdenv.sh"),
        path: String::new(),
    }
}

fn v(items: &[&str]) -> Vec<String> {
    items.iter().map(|s| s.to_string()).collect()
}

#[test]
fn reload_unloads_everything_reversed_and_loads_everything() {
    let c = ctx(false, true, false, 0);
    let found = v(&["q1", "q2"]);
    let loaded = v(&["p1", "p2", "p3"]);
    let mtimes = vec![0, 0];
    let r = reconcile(&c, &found, &loaded, &mtimes);
    assert_eq!(r.unload, v(&["p3", "p2", "p1"]));
    assert_eq!(r.load, v(&["q1", "q2"]));
    assert_eq!(r.new_tag, None);
}

#[test]
fn identical_stacks_reconcile_to_nothing() {
    let c = ctx(false, false, false, 0);
    let found = v(&["/a/.cfg", "/a/b/.cfg"]);
    let loaded = v(&["/a/.cfg", "/a/b/.cfg"]);
    let mtimes = vec![0, 0];
    let r = reconcile(&c, &found, &loaded, &mtimes);
    assert!(r.unload.is_empty());
    assert!(r.load.is_empty());
}

#[test]
fn extension_only_loads_the_new_tail() {
    let c = ctx(false, false, false, 0);
    let loaded = v(&["/a/.cfg", "/a/b/.cfg"]);
    let found = v(&["/a/.cfg", "/a/b/.cfg", "/a/b/c/.cfg"]);
    let mtimes = vec![0, 0, 0];
    let r = reconcile(&c, &found, &loaded, &mtimes);
    assert!(r.unload.is_empty());
    assert_eq!(r.load, v(&["/a/b/c/.cfg"]));
}

#[test]
fn divergence_unloads_the_old_tail_innermost_first() {
    let c = ctx(false, false, false, 0);
    let loaded = v(&["/a/.cfg", "/x/.cfg", "/y/.cfg"]);
    let found = v(&["/a/.cfg", "/b/.cfg"]);
    let mtimes = vec![0, 0];
    let r = reconcile(&c, &found, &loaded, &mtimes);
    assert_eq!(r.unload, v(&["/y/.cfg", "/x/.cfg"]));
    assert_eq!(r.load, v(&["/b/.cfg"]));
}

#[test]
fn stale_entry_forces_reload_from_that_point() {
    // Paths still match positionally, but the second file changed after the
    // tag: everything from it on is reloaded.
    let c = ctx(false, false, true, 10);
    let files = v(&["/a/.cfg", "/a/b/.cfg"]);
    let mtimes = vec![5, 20];
    let r = reconcile(&c, &files, &files, &mtimes);
    assert_eq!(r.unload, v(&["/a/b/.cfg"]));
    assert_eq!(r.load, v(&["/a/b/.cfg"]));
    assert_eq!(r.new_tag, Some(20));
}

#[test]
fn new_tag_is_the_maximum_over_the_whole_found_set() {
    let c = ctx(false, false, true, 0);
    let files = v(&["/a/.cfg", "/a/b/.cfg", "/a/b/c/.cfg"]);
    let mtimes = vec![7, 31, 12];
    let r = reconcile(&c, &files, &files, &mtimes);
    // A zero tag disables staleness, so everything survives.
    assert!(r.unload.is_empty());
    assert!(r.load.is_empty());
    assert_eq!(r.new_tag, Some(31));
}

#[test]
fn zero_tag_disables_the_staleness_check() {
    let c = ctx(false, false, true, 0);
    let files = v(&["/a/.cfg"]);
    let mtimes = vec![1000];
    let r = reconcile(&c, &files, &files, &mtimes);
    assert!(r.unload.is_empty());
    assert!(r.load.is_empty());
}

#[test]
fn stale_report_lists_missing_and_changed_files() {
    let loaded = v(&["/gone/.cfg", "/here/.cfg"]);
    let loaded_exists = vec![false, true];
    let found = v(&["/fresh/.cfg", "/stale/.cfg"]);
    let mtimes = vec![5, 99];
    let (removed, changed) = stale_report(&loaded, &loaded_exists, &found, &mtimes, 10);
    assert_eq!(removed, v(&["/gone/.cfg"]));
    assert_eq!(changed, v(&["/stale/.cfg"]));
}

#[test]
fn path_prefixes_walk_from_the_root() {
    assert_eq!(path_prefixes("/a/b"), v(&["", "/a", "/a/b"]));
}

#[test]
fn trailing_slashes_do_not_add_prefixes() {
    assert_eq!(path_prefixes("/a/b///"), v(&["", "/a", "/a/b"]));
}

#[test]
fn found_set_orders_search_path_then_global_then_prefixes() {
    let c = ctx(true, false, false, 0);
    let search = v(&["/etc/env.d/one.sh"]);
    let prefixes = v(&["", "/home/u", "/home/u/proj"]);
    let has = vec![false, true, true];
    let found = build_found(&c, "/home/u", &search, true, &prefixes, &has);
    // The home prefix is skipped in the walk because global mode already
    // appended it.
    assert_eq!(
        found,
        v(&["/etc/env.d/one.sh", "/home/u/.cdenv.sh", "/home/u/proj/.cdenv.sh"])
    );
}

#[test]
fn without_global_the_home_prefix_is_kept_in_the_walk() {
    let c = ctx(false, false, false, 0);
    let prefixes = v(&["", "/home/u"]);
    let has = vec![false, true];
    let found = build_found(&c, "/home/u", &v(&[]), true, &prefixes, &has);
    assert_eq!(found, v(&["/home/u/.cdenv.sh"]));
}

#[test]
fn delta_drops_directories_present_on_both_sides() {
    let unload = v(&["/a", "/b"]);
    let load = v(&["/b", "/c"]);
    let (u, l) = delta_reconcile(&unload, &load);
    assert_eq!(u, v(&["/a"]));
    assert_eq!(l, v(&["/c"]));
}

#[test]
fn delta_with_disjoint_sides_keeps_everything() {
    let (u, l) = delta_reconcile(&v(&["/a"]), &v(&["/b"]));
    assert_eq!(u, v(&["/a"]));
    assert_eq!(l, v(&["/b"]));
}

#[test]
fn list_paths_renders_both_arrays() {
    let lines = list_paths(&v(&["/a/.cfg"]), &v(&[]));
    assert_eq!(
        lines,
        v(&["local -a unload=(", "  \"/a/.cfg\"", ")", "local -a load=(", ")"])
    );
}

#[test]
fn quoted_entries_escape_backslashes_and_quotes() {
    let lines = list_paths(&v(&["/a\"b\\c"]), &v(&[]));
    assert_eq!(lines[1], String::from("  \"/a\\\"b\\\\c\""));
}

#[test]
fn list_dirs_prints_stack_diagnostics_and_tag() {
    let c = ctx(false, false, true, 10);
    let found = v(&["/a/.cfg"]);
    let loaded = v(&["/a/.cfg", "/b/.cfg"]);
    let loaded_exists = vec![true, false];
    let mtimes = vec![25];
    let (rec, lines) = list_dirs(&c, &found, &loaded, &loaded_exists, &mtimes);
    assert_eq!(
        lines,
        v(&[
            "CDENV_STACK=(",
            "  \"/a/.cfg\"",
            ")",
            "removed=(",
            "  \"/b/.cfg\"",
            ")",
            "changed=(",
            "  \"/a/.cfg\"",
            ")",
            "CDENV_TAG=25",
        ])
    );
    // The stale first entry forces a full reload of the found set.
    assert_eq!(rec.unload, v(&["/b/.cfg", "/a/.cfg"]));
    assert_eq!(rec.load, v(&["/a/.cfg"]));
    assert_eq!(rec.new_tag, Some(25));
}

#[test]
fn list_dirs_without_autoreload_prints_only_the_stack() {
    let c = ctx(false, false, false, 0);
    let found = v(&["/a/.cfg"]);
    let loaded = v(&["/a/.cfg"]);
    let loaded_exists = vec![true];
    let mtimes = vec![0];
    let (rec, lines) = list_dirs(&c, &found, &loaded, &loaded_exists, &mtimes);
    assert_eq!(lines, v(&["CDENV_STACK=(", "  \"/a/.cfg\"", ")"]));
    assert!(rec.unload.is_empty());
    assert!(rec.load.is_empty());
    assert_eq!(rec.new_tag, None);
}
