//! The directory-stack resolver: builds the set of per-directory
//! configuration files implied by a working directory, reconciles it against
//! the previously loaded stack, and renders the shell arrays that report the
//! outcome.
//!
//! The resolver itself is pure: the answers of the filesystem (glob matches,
//! marker-file existence, modification times) are handed in as plain values,
//! and everything computed from them is specified exactly.

use vstd::prelude::*;

use crate::environment::{absent_from, lemma_filter_push, lemma_mem_filter, vec_contains_str};
use crate::text::{dec_str, push_char, quoted, str_eq, strs, trim_end_char, trimmed_end_char,
    u64_to_dec};

verus! {

/// The scalar parameters of one resolver run: search mode flags, the
/// freshness tag, the marker filename and the colon-separated search path.
pub struct Context {
    pub global: bool,
    pub reload: bool,
    pub autoreload: bool,
    pub tag: u64,
    pub file: String,
    pub path: String,
}

/// Relies on `std::path::Path::exists`: whether `<path>/<file>` names an
/// existing filesystem entity. The result depends on the state of the disk,
/// so nothing is promised of it.
#[verifier::external_body]
pub fn file_exists(path: &str, file: &str) -> bool {
    let joined = format!("{}/{}", path, file);
    std::path::Path::new(&joined).exists()
}

/// The marker-file path inside a directory.
pub open spec fn marker_file(dir: Seq<char>, file: Seq<char>) -> Seq<char> {
    dir + "/"@ + file
}

/// Joins a directory and the marker filename.
pub fn marker_path(dir: &str, file: &str) -> (r: String)
    ensures
        r@ == marker_file(dir@, file@),
{
    let mut r = String::from_str(dir);
    r.append("/");
    r.append(file);
    r
}

/// The prefixes of `q` that end just before a slash, walked left to right:
/// one entry per slash among the first `i` characters.
pub open spec fn prefixes_upto(q: Seq<char>, i: int) -> Seq<Seq<char>>
    decreases i,
{
    if i <= 0 {
        Seq::<Seq<char>>::empty()
    } else {
        prefixes_upto(q, i - 1) + if q[i - 1] == '/' {
            seq![q.take(i - 1)]
        } else {
            Seq::<Seq<char>>::empty()
        }
    }
}

/// The directory prefixes of a path, root first: the path is stripped of
/// trailing slashes, closed with one slash, and cut before every slash. The
/// first prefix of an absolute path is the empty string, which stands for
/// the filesystem root.
pub open spec fn slash_prefixes(p: Seq<char>) -> Seq<Seq<char>> {
    let q = trimmed_end_char(p, '/').push('/');
    prefixes_upto(q, q.len() as int)
}

/// Enumerates the directory prefixes of a path, root first.
pub fn path_prefixes(pwd: &str) -> (r: Vec<String>)
    ensures
        strs(r@) == slash_prefixes(pwd@),
{
    let mut q = trim_end_char(pwd, '/');
    push_char(&mut q, '/');
    let n = q.as_str().unicode_len();
    let mut r: Vec<String> = Vec::new();
    let mut i: usize = 0;
    proof {
        assert(strs(r@) =~~= prefixes_upto(q@, 0));
    }
    while i < n
        invariant
            n == q@.len(),
            i <= n,
            q@ == trimmed_end_char(pwd@, '/').push('/'),
            strs(r@) == prefixes_upto(q@, i as int),
        decreases n - i,
    {
        let c = q.as_str().get_char(i);
        if c == '/' {
            let ghost r0 = strs(r@);
            let p = String::from_str(q.as_str().substring_char(0, i));
            r.push(p);
            proof {
                assert(q@.subrange(0, i as int) =~= q@.take(i as int));
                assert(strs(r@) =~~= r0.push(q@.take(i as int)));
                assert(strs(r@) =~~= prefixes_upto(q@, i + 1));
            }
        } else {
            proof {
                assert(strs(r@) =~~= prefixes_upto(q@, i + 1));
            }
        }
        i = i + 1;
    }
    r
}

/// The marker files of the prefixes that carry one, except the home
/// directory when global mode already accounts for it.
pub open spec fn chosen_prefixes(
    prefixes: Seq<Seq<char>>,
    has: Seq<bool>,
    global: bool,
    home: Seq<char>,
    file: Seq<char>,
) -> Seq<Seq<char>>
    decreases prefixes.len(),
{
    if prefixes.len() == 0 || has.len() == 0 {
        Seq::<Seq<char>>::empty()
    } else {
        chosen_prefixes(prefixes.drop_last(), has.drop_last(), global, home, file) + if has.last()
            && !(global && prefixes.last() == home) {
            seq![marker_file(prefixes.last(), file)]
        } else {
            Seq::<Seq<char>>::empty()
        }
    }
}

/// The found set: search-path matches first, then the global home marker if
/// enabled and present, then the marker files along the working directory's
/// prefixes.
pub open spec fn spec_build_found(
    global: bool,
    home: Seq<char>,
    file: Seq<char>,
    search_files: Seq<Seq<char>>,
    home_has_marker: bool,
    prefixes: Seq<Seq<char>>,
    has: Seq<bool>,
) -> Seq<Seq<char>> {
    search_files + (if global && home_has_marker {
        seq![marker_file(home, file)]
    } else {
        Seq::<Seq<char>>::empty()
    }) + chosen_prefixes(prefixes, has, global, home, file)
}

/// Assembles the found set from the filesystem's answers: the search-path
/// glob matches, whether the home directory carries the marker, and which
/// directory prefixes carry it.
pub fn build_found(
    context: &Context,
    home: &str,
    search_files: &Vec<String>,
    home_has_marker: bool,
    prefixes: &Vec<String>,
    has_marker: &Vec<bool>,
) -> (found: Vec<String>)
    requires
        has_marker@.len() == prefixes@.len(),
    ensures
        strs(found@) == spec_build_found(
            context.global,
            home@,
            context.file@,
            strs(search_files@),
            home_has_marker,
            strs(prefixes@),
            has_marker@,
        ),
{
    let mut found: Vec<String> = Vec::new();
    let mut i: usize = 0;
    proof {
        assert(strs(found@) =~~= strs(search_files@).take(0));
    }
    while i < search_files.len()
        invariant
            i <= search_files@.len(),
            strs(found@) == strs(search_files@).take(i as int),
        decreases search_files@.len() - i,
    {
        let ghost f0 = strs(found@);
        found.push(search_files[i].clone());
        proof {
            assert(strs(found@) =~~= f0.push(strs(search_files@)[i as int]));
            assert(strs(found@) =~~= strs(search_files@).take(i + 1));
        }
        i = i + 1;
    }
    proof {
        assert(strs(search_files@).take(search_files@.len() as int) =~= strs(search_files@));
    }
    let ghost part1 = strs(found@);

    if context.global && home_has_marker {
        let ghost f0 = strs(found@);
        found.push(marker_path(home, context.file.as_str()));
        proof {
            assert(strs(found@) =~~= f0.push(marker_file(home@, context.file@)));
        }
    }
    proof {
        assert(strs(found@) =~~= part1 + (if context.global && home_has_marker {
            seq![marker_file(home@, context.file@)]
        } else {
            Seq::<Seq<char>>::empty()
        }));
    }
    let ghost part2 = strs(found@);

    let mut i: usize = 0;
    proof {
        assert(strs(prefixes@).take(0) =~= Seq::<Seq<char>>::empty());
        assert(has_marker@.take(0) =~= Seq::<bool>::empty());
        assert(strs(found@) =~~= part2 + chosen_prefixes(
            strs(prefixes@).take(0),
            has_marker@.take(0),
            context.global,
            home@,
            context.file@,
        ));
    }
    while i < prefixes.len()
        invariant
            has_marker@.len() == prefixes@.len(),
            i <= prefixes@.len(),
            strs(found@) == part2 + chosen_prefixes(
                strs(prefixes@).take(i as int),
                has_marker@.take(i as int),
                context.global,
                home@,
                context.file@,
            ),
        decreases prefixes@.len() - i,
    {
        proof {
            assert(strs(prefixes@).take(i + 1).drop_last() =~= strs(prefixes@).take(i as int));
            assert(has_marker@.take(i + 1).drop_last() =~= has_marker@.take(i as int));
            assert(strs(prefixes@).take(i + 1).last() == strs(prefixes@)[i as int]);
            assert(has_marker@.take(i + 1).last() == has_marker@[i as int]);
        }
        if has_marker[i] && !(context.global && str_eq(prefixes[i].as_str(), home)) {
            let ghost f0 = strs(found@);
            found.push(marker_path(prefixes[i].as_str(), context.file.as_str()));
            proof {
                assert(strs(found@) =~~= f0.push(
                    marker_file(strs(prefixes@)[i as int], context.file@),
                ));
                assert(strs(found@) =~~= part2 + chosen_prefixes(
                    strs(prefixes@).take(i + 1),
                    has_marker@.take(i + 1),
                    context.global,
                    home@,
                    context.file@,
                ));
            }
        } else {
            proof {
                assert(strs(found@) =~~= part2 + chosen_prefixes(
                    strs(prefixes@).take(i + 1),
                    has_marker@.take(i + 1),
                    context.global,
                    home@,
                    context.file@,
                ));
            }
        }
        i = i + 1;
    }
    proof {
        assert(strs(prefixes@).take(prefixes@.len() as int) =~= strs(prefixes@));
        assert(has_marker@.take(has_marker@.len() as int) =~= has_marker@);
    }
    found
}

/// The point at which the found and loaded stacks diverge, walking in
/// lockstep from `j`: the walk stops at the end of the found set, at a stale
/// found entry (under autoreload with a positive tag), at the end of the
/// loaded stack, or at the first path mismatch.
pub open spec fn div_idx(
    f: Seq<Seq<char>>,
    l: Seq<Seq<char>>,
    mt: Seq<u64>,
    auto: bool,
    tag: u64,
    j: int,
) -> int
    decreases f.len() - j,
{
    if j < 0 || j >= f.len() {
        j
    } else if auto && tag > 0 && mt[j] > tag {
        j
    } else if j >= l.len() {
        j
    } else if f[j] != l[j] {
        j
    } else {
        div_idx(f, l, mt, auto, tag, j + 1)
    }
}

/// The greatest modification time in a list, zero when it is empty.
pub open spec fn max_mtime(mt: Seq<u64>) -> u64
    decreases mt.len(),
{
    if mt.len() == 0 {
        0u64
    } else if mt.last() > max_mtime(mt.drop_last()) {
        mt.last()
    } else {
        max_mtime(mt.drop_last())
    }
}

/// What one reconciliation decides: the files to unload innermost-first, the
/// files to load outermost-first, and, under autoreload, the new freshness
/// tag.
pub struct ReconciliationResult {
    pub unload: Vec<String>,
    pub load: Vec<String>,
    pub new_tag: Option<u64>,
}

/// Ghost image of a reconciliation result.
pub struct ReconciliationV {
    pub unload: Seq<Seq<char>>,
    pub load: Seq<Seq<char>>,
    pub new_tag: Option<u64>,
}

impl View for ReconciliationResult {
    type V = ReconciliationV;

    open spec fn view(&self) -> ReconciliationV {
        ReconciliationV {
            unload: strs(self.unload@),
            load: strs(self.load@),
            new_tag: self.new_tag,
        }
    }
}

/// The reconciliation of the found set against the loaded stack. Reload
/// mode unloads the whole stack, reversed, and loads the whole found set.
/// Incremental mode keeps the common fresh prefix, unloads the rest of the
/// stack innermost-first and loads the rest of the found set in order; the
/// new tag is the greatest modification time over the whole found set.
pub open spec fn spec_reconcile(
    reload: bool,
    auto: bool,
    tag: u64,
    f: Seq<Seq<char>>,
    l: Seq<Seq<char>>,
    mt: Seq<u64>,
) -> ReconciliationV {
    if reload {
        ReconciliationV { unload: l.reverse(), load: f, new_tag: None }
    } else {
        let k = div_idx(f, l, mt, auto, tag, 0);
        ReconciliationV {
            unload: l.skip(k).reverse(),
            load: f.skip(k),
            new_tag: if auto {
                Some(max_mtime(mt))
            } else {
                None
            },
        }
    }
}

/// Reconciles the found set against the previously loaded stack.
pub fn reconcile(
    context: &Context,
    found: &Vec<String>,
    loaded: &Vec<String>,
    mtimes: &Vec<u64>,
) -> (r: ReconciliationResult)
    requires
        mtimes@.len() == found@.len(),
    ensures
        r@ == spec_reconcile(
            context.reload,
            context.autoreload,
            context.tag,
            strs(found@),
            strs(loaded@),
            mtimes@,
        ),
{
    let ghost fv = strs(found@);
    let ghost lv = strs(loaded@);
    let n = found.len();
    let m = loaded.len();

    let k: usize;
    if context.reload {
        k = 0;
    } else {
        let mut j: usize = 0;
        while j < n && !(context.autoreload && context.tag > 0 && mtimes[j] > context.tag) && j < m
            && str_eq(found[j].as_str(), loaded[j].as_str())
            invariant
                fv == strs(found@),
                lv == strs(loaded@),
                n == fv.len(),
                m == lv.len(),
                mtimes@.len() == fv.len(),
                j <= n,
                j <= m,
                div_idx(fv, lv, mtimes@, context.autoreload, context.tag, 0) == div_idx(
                    fv,
                    lv,
                    mtimes@,
                    context.autoreload,
                    context.tag,
                    j as int,
                ),
            decreases n - j,
        {
            proof {
                assert(div_idx(fv, lv, mtimes@, context.autoreload, context.tag, j as int)
                    == div_idx(fv, lv, mtimes@, context.autoreload, context.tag, j + 1));
            }
            j = j + 1;
        }
        proof {
            assert(div_idx(fv, lv, mtimes@, context.autoreload, context.tag, j as int) == j);
        }
        k = j;
    }

    // Unload: the rest of the loaded stack, innermost (last-loaded) first.
    let start: usize = if context.reload {
        0
    } else {
        k
    };
    let mut unload: Vec<String> = Vec::new();
    let mut j: usize = m;
    proof {
        assert(lv.skip(m as int) =~= Seq::<Seq<char>>::empty());
        assert(strs(unload@) =~~= lv.skip(m as int).reverse());
    }
    while j > start
        invariant
            lv == strs(loaded@),
            m == lv.len(),
            start <= j <= m,
            strs(unload@) == lv.skip(j as int).reverse(),
        decreases j,
    {
        let ghost u0 = strs(unload@);
        unload.push(loaded[j - 1].clone());
        proof {
            assert(strs(unload@) =~~= u0.push(lv[j - 1]));
            assert(strs(unload@) =~~= lv.skip(j - 1).reverse());
        }
        j = j - 1;
    }

    // Load: the rest of the found set, in order.
    let mut load: Vec<String> = Vec::new();
    let mut j: usize = start;
    proof {
        assert(strs(load@) =~~= fv.subrange(start as int, start as int));
    }
    while j < n
        invariant
            fv == strs(found@),
            n == fv.len(),
            start <= j <= n,
            strs(load@) == fv.subrange(start as int, j as int),
        decreases n - j,
    {
        let ghost l0 = strs(load@);
        load.push(found[j].clone());
        proof {
            assert(strs(load@) =~~= l0.push(fv[j as int]));
            assert(strs(load@) =~~= fv.subrange(start as int, j + 1));
        }
        j = j + 1;
    }
    proof {
        assert(fv.subrange(start as int, n as int) =~= fv.skip(start as int));
    }

    let new_tag: Option<u64>;
    if !context.reload && context.autoreload {
        let mut mx: u64 = 0;
        let mut j: usize = 0;
        proof {
            assert(mtimes@.take(0) =~= Seq::<u64>::empty());
        }
        while j < n
            invariant
                mtimes@.len() == n,
                j <= n,
                mx == max_mtime(mtimes@.take(j as int)),
            decreases n - j,
        {
            proof {
                assert(mtimes@.take(j + 1).drop_last() =~= mtimes@.take(j as int));
                assert(mtimes@.take(j + 1).last() == mtimes@[j as int]);
            }
            if mtimes[j] > mx {
                mx = mtimes[j];
            }
            j = j + 1;
        }
        proof {
            assert(mtimes@.take(n as int) =~= mtimes@);
        }
        new_tag = Some(mx);
    } else {
        new_tag = None;
    }

    let r = ReconciliationResult { unload, load, new_tag };
    proof {
        if context.reload {
            assert(lv.skip(0) =~= lv);
            assert(fv.skip(0) =~= fv);
        }
        assert(r@ == spec_reconcile(
            context.reload,
            context.autoreload,
            context.tag,
            fv,
            lv,
            mtimes@,
        ));
    }
    r
}

/// The previously loaded files that no longer exist on disk.
pub open spec fn missing_of(l: Seq<Seq<char>>, ex: Seq<bool>) -> Seq<Seq<char>>
    decreases l.len(),
{
    if l.len() == 0 || ex.len() == 0 {
        Seq::<Seq<char>>::empty()
    } else {
        missing_of(l.drop_last(), ex.drop_last()) + if !ex.last() {
            seq![l.last()]
        } else {
            Seq::<Seq<char>>::empty()
        }
    }
}

/// The found files whose modification time exceeds the tag, when the tag is
/// positive.
pub open spec fn stale_of(f: Seq<Seq<char>>, mt: Seq<u64>, tag: u64) -> Seq<Seq<char>>
    decreases f.len(),
{
    if f.len() == 0 || mt.len() == 0 {
        Seq::<Seq<char>>::empty()
    } else {
        stale_of(f.drop_last(), mt.drop_last(), tag) + if tag > 0 && mt.last() > tag {
            seq![f.last()]
        } else {
            Seq::<Seq<char>>::empty()
        }
    }
}

/// The autoreload diagnostics: previously loaded files now missing from
/// disk, and found files changed since the tag. Diagnostics only; neither
/// list feeds the unload/load result.
pub fn stale_report(
    loaded: &Vec<String>,
    loaded_exists: &Vec<bool>,
    found: &Vec<String>,
    mtimes: &Vec<u64>,
    tag: u64,
) -> (r: (Vec<String>, Vec<String>))
    requires
        loaded_exists@.len() == loaded@.len(),
        mtimes@.len() == found@.len(),
    ensures
        strs(r.0@) == missing_of(strs(loaded@), loaded_exists@),
        strs(r.1@) == stale_of(strs(found@), mtimes@, tag),
{
    let ghost lv = strs(loaded@);
    let ghost fv = strs(found@);
    let mut removed: Vec<String> = Vec::new();
    let mut i: usize = 0;
    proof {
        assert(lv.take(0) =~= Seq::<Seq<char>>::empty());
        assert(loaded_exists@.take(0) =~= Seq::<bool>::empty());
        assert(strs(removed@) =~~= missing_of(lv.take(0), loaded_exists@.take(0)));
    }
    while i < loaded.len()
        invariant
            lv == strs(loaded@),
            loaded_exists@.len() == lv.len(),
            i <= lv.len(),
            strs(removed@) == missing_of(lv.take(i as int), loaded_exists@.take(i as int)),
        decreases lv.len() - i,
    {
        proof {
            assert(lv.take(i + 1).drop_last() =~= lv.take(i as int));
            assert(loaded_exists@.take(i + 1).drop_last() =~= loaded_exists@.take(i as int));
            assert(lv.take(i + 1).last() == lv[i as int]);
            assert(loaded_exists@.take(i + 1).last() == loaded_exists@[i as int]);
        }
        if !loaded_exists[i] {
            let ghost r0 = strs(removed@);
            removed.push(loaded[i].clone());
            proof {
                assert(strs(removed@) =~~= r0.push(lv[i as int]));
            }
        }
        proof {
            assert(strs(removed@) =~~= missing_of(lv.take(i + 1), loaded_exists@.take(i + 1)));
        }
        i = i + 1;
    }
    proof {
        assert(lv.take(lv.len() as int) =~= lv);
        assert(loaded_exists@.take(loaded_exists@.len() as int) =~= loaded_exists@);
    }

    let mut changed: Vec<String> = Vec::new();
    let mut i: usize = 0;
    proof {
        assert(fv.take(0) =~= Seq::<Seq<char>>::empty());
        assert(mtimes@.take(0) =~= Seq::<u64>::empty());
        assert(strs(changed@) =~~= stale_of(fv.take(0), mtimes@.take(0), tag));
    }
    while i < found.len()
        invariant
            fv == strs(found@),
            mtimes@.len() == fv.len(),
            i <= fv.len(),
            strs(changed@) == stale_of(fv.take(i as int), mtimes@.take(i as int), tag),
        decreases fv.len() - i,
    {
        proof {
            assert(fv.take(i + 1).drop_last() =~= fv.take(i as int));
            assert(mtimes@.take(i + 1).drop_last() =~= mtimes@.take(i as int));
            assert(fv.take(i + 1).last() == fv[i as int]);
            assert(mtimes@.take(i + 1).last() == mtimes@[i as int]);
        }
        if tag > 0 && mtimes[i] > tag {
            let ghost c0 = strs(changed@);
            changed.push(found[i].clone());
            proof {
                assert(strs(changed@) =~~= c0.push(fv[i as int]));
            }
        }
        proof {
            assert(strs(changed@) =~~= stale_of(fv.take(i + 1), mtimes@.take(i + 1), tag));
        }
        i = i + 1;
    }
    proof {
        assert(fv.take(fv.len() as int) =~= fv);
        assert(mtimes@.take(mtimes@.len() as int) =~= mtimes@);
    }
    (removed, changed)
}

/// A rendered path entry of a shell array: indented and double-quoted.
pub open spec fn quote_entry() -> spec_fn(Seq<char>) -> Seq<char> {
    |p: Seq<char>| "  "@ + quoted(p)
}

/// A shell array block: the opening line, one quoted entry per path, and the
/// closing parenthesis.
pub open spec fn array_lines(open: Seq<char>, paths: Seq<Seq<char>>) -> Seq<Seq<char>> {
    seq![open] + paths.map_values(quote_entry()) + seq![")"@]
}

/// Renders a path list as the lines of a shell array.
pub fn render_array(open: &str, paths: &Vec<String>) -> (r: Vec<String>)
    ensures
        strs(r@) == array_lines(open@, strs(paths@)),
{
    let ghost pv = strs(paths@);
    let mut r: Vec<String> = Vec::new();
    r.push(String::from_str(open));
    let mut i: usize = 0;
    proof {
        assert(strs(r@) =~~= seq![open@] + pv.take(0).map_values(quote_entry()));
    }
    while i < paths.len()
        invariant
            pv == strs(paths@),
            i <= pv.len(),
            strs(r@) == seq![open@] + pv.take(i as int).map_values(quote_entry()),
        decreases pv.len() - i,
    {
        let ghost r0 = strs(r@);
        let mut line = String::from_str("  ");
        line.append(crate::text::quote(paths[i].as_str()).as_str());
        r.push(line);
        proof {
            assert(pv.take(i + 1) =~= pv.take(i as int).push(pv[i as int]));
            assert(strs(r@) =~~= r0.push("  "@ + quoted(pv[i as int])));
            assert(strs(r@) =~~= seq![open@] + pv.take(i + 1).map_values(quote_entry()));
        }
        i = i + 1;
    }
    let ghost r1 = strs(r@);
    r.push(String::from_str(")"));
    proof {
        assert(pv.take(pv.len() as int) =~= pv);
        assert(strs(r@) =~~= r1.push(")"@));
        assert(strs(r@) =~~= array_lines(open@, pv));
    }
    r
}

/// Every line the resolver prints for one run, in order: the new stack as a
/// shell array, the autoreload diagnostics, and the new freshness tag.
pub open spec fn spec_list_output(
    reload: bool,
    auto: bool,
    tag: u64,
    f: Seq<Seq<char>>,
    l: Seq<Seq<char>>,
    ex: Seq<bool>,
    mt: Seq<u64>,
) -> Seq<Seq<char>> {
    array_lines("CDENV_STACK=("@, f) + (if !reload && auto {
        array_lines("removed=("@, missing_of(l, ex)) + array_lines("changed=("@, stale_of(f, mt, tag))
    } else {
        Seq::<Seq<char>>::empty()
    }) + (if !reload && auto {
        seq!["CDENV_TAG="@ + dec_str(max_mtime(mt) as nat)]
    } else {
        Seq::<Seq<char>>::empty()
    })
}

/// Reconciles and renders: returns the unload/load decision together with
/// every output line of a `list` run up to the unload/load arrays.
pub fn list_dirs(
    context: &Context,
    found: &Vec<String>,
    loaded: &Vec<String>,
    loaded_exists: &Vec<bool>,
    mtimes: &Vec<u64>,
) -> (r: (ReconciliationResult, Vec<String>))
    requires
        loaded_exists@.len() == loaded@.len(),
        mtimes@.len() == found@.len(),
    ensures
        r.0@ == spec_reconcile(
            context.reload,
            context.autoreload,
            context.tag,
            strs(found@),
            strs(loaded@),
            mtimes@,
        ),
        strs(r.1@) == spec_list_output(
            context.reload,
            context.autoreload,
            context.tag,
            strs(found@),
            strs(loaded@),
            loaded_exists@,
            mtimes@,
        ),
{
    let mut lines = render_array("CDENV_STACK=(", found);
    let ghost part1 = strs(lines@);
    if !context.reload && context.autoreload {
        let (removed, changed) = stale_report(loaded, loaded_exists, found, mtimes, context.tag);
        let mut ra = render_array("removed=(", &removed);
        lines.append(&mut ra);
        let mut ca = render_array("changed=(", &changed);
        lines.append(&mut ca);
        proof {
            assert(strs(lines@) =~~= part1 + array_lines(
                "removed=("@,
                missing_of(strs(loaded@), loaded_exists@),
            ) + array_lines("changed=("@, stale_of(strs(found@), mtimes@, context.tag)));
        }
    }
    let ghost part2 = strs(lines@);
    let rec = reconcile(context, found, loaded, mtimes);
    if !context.reload && context.autoreload {
        let t: u64 = match rec.new_tag {
            Some(t) => t,
            None => 0,
        };
        proof {
            assert(rec.new_tag == Some(max_mtime(mtimes@)));
            assert(t == max_mtime(mtimes@));
        }
        let mut line = String::from_str("CDENV_TAG=");
        line.append(u64_to_dec(t).as_str());
        let ghost l0 = strs(lines@);
        lines.push(line);
        proof {
            assert(strs(lines@) =~~= l0.push("CDENV_TAG="@ + dec_str(max_mtime(mtimes@) as nat)));
        }
    }
    proof {
        assert(strs(lines@) =~~= spec_list_output(
            context.reload,
            context.autoreload,
            context.tag,
            strs(found@),
            strs(loaded@),
            loaded_exists@,
            mtimes@,
        ));
    }
    (rec, lines)
}

/// Renders the reconciliation outcome as the two shell arrays the caller
/// sources: the files to unload, then the files to load.
pub fn list_paths(unload: &Vec<String>, load: &Vec<String>) -> (r: Vec<String>)
    ensures
        strs(r@) == array_lines("local -a unload=("@, strs(unload@)) + array_lines(
            "local -a load=("@,
            strs(load@),
        ),
{
    let mut r = render_array("local -a unload=(", unload);
    let ghost part1 = strs(r@);
    let mut l = render_array("local -a load=(", load);
    r.append(&mut l);
    proof {
        assert(strs(r@) =~~= part1 + array_lines("local -a load=("@, strs(load@)));
    }
    r
}

/// The stack-free delta between two directories: the marker directories of
/// the start path are left, those of the stop path are entered, and a
/// directory on both sides nets to no operation and is dropped from both.
pub fn delta_reconcile(unload: &Vec<String>, load: &Vec<String>) -> (r: (Vec<String>, Vec<String>))
    ensures
        strs(r.0@) == strs(unload@).filter(absent_from(strs(load@))),
        strs(r.1@) == strs(load@).filter(absent_from(strs(unload@))),
{
    let ghost uv = strs(unload@);
    let ghost lv = strs(load@);
    let mut ru: Vec<String> = Vec::new();
    let mut i: usize = 0;
    proof {
        assert(uv.take(0) =~= Seq::<Seq<char>>::empty());
        reveal(Seq::filter);
        assert(strs(ru@) =~~= uv.take(0).filter(absent_from(lv)));
    }
    while i < unload.len()
        invariant
            uv == strs(unload@),
            lv == strs(load@),
            i <= uv.len(),
            strs(ru@) == uv.take(i as int).filter(absent_from(lv)),
        decreases uv.len() - i,
    {
        proof {
            assert(uv.take(i + 1) =~= uv.take(i as int).push(uv[i as int]));
            lemma_filter_push(uv.take(i as int), uv[i as int], absent_from(lv));
        }
        if !vec_contains_str(load, unload[i].as_str()) {
            let ghost r0 = strs(ru@);
            ru.push(unload[i].clone());
            proof {
                assert(strs(ru@) =~~= r0.push(uv[i as int]));
            }
        }
        proof {
            assert(strs(ru@) =~~= uv.take(i + 1).filter(absent_from(lv)));
        }
        i = i + 1;
    }
    proof {
        assert(uv.take(uv.len() as int) =~= uv);
    }

    let mut rl: Vec<String> = Vec::new();
    let mut i: usize = 0;
    proof {
        assert(lv.take(0) =~= Seq::<Seq<char>>::empty());
        reveal(Seq::filter);
        assert(strs(rl@) =~~= lv.take(0).filter(absent_from(uv)));
    }
    while i < load.len()
        invariant
            uv == strs(unload@),
            lv == strs(load@),
            i <= lv.len(),
            strs(rl@) == lv.take(i as int).filter(absent_from(uv)),
        decreases lv.len() - i,
    {
        proof {
            assert(lv.take(i + 1) =~= lv.take(i as int).push(lv[i as int]));
            lemma_filter_push(lv.take(i as int), lv[i as int], absent_from(uv));
        }
        if !vec_contains_str(unload, load[i].as_str()) {
            let ghost r0 = strs(rl@);
            rl.push(load[i].clone());
            proof {
                assert(strs(rl@) =~~= r0.push(lv[i as int]));
            }
        }
        proof {
            assert(strs(rl@) =~~= lv.take(i + 1).filter(absent_from(uv)));
        }
        i = i + 1;
    }
    proof {
        assert(lv.take(lv.len() as int) =~= lv);
    }
    (ru, rl)
}

/// A directory present in both delta lists is absent from both results: it
/// would be exited and immediately re-entered, so the delta nets to nothing.
pub proof fn lemma_delta_net_noop(u: Seq<Seq<char>>, l: Seq<Seq<char>>, d: Seq<char>)
    requires
        u.contains(d),
        l.contains(d),
    ensures
        !u.filter(absent_from(l)).contains(d),
        !l.filter(absent_from(u)).contains(d),
{
    lemma_mem_filter(u, absent_from(l), d);
    lemma_mem_filter(l, absent_from(u), d);
}

/// Reload mode ignores positions entirely: the whole previous stack is
/// unloaded innermost-first and the whole found set is loaded in order.
pub proof fn lemma_reconcile_reload(
    auto: bool,
    tag: u64,
    f: Seq<Seq<char>>,
    l: Seq<Seq<char>>,
    mt: Seq<u64>,
)
    ensures
        spec_reconcile(true, auto, tag, f, l, mt).unload == l.reverse(),
        spec_reconcile(true, auto, tag, f, l, mt).load == f,
{
}

pub proof fn lemma_div_idx_full(
    f: Seq<Seq<char>>,
    l: Seq<Seq<char>>,
    mt: Seq<u64>,
    auto: bool,
    tag: u64,
    j: int,
)
    requires
        f == l,
        mt.len() == f.len(),
        auto ==> tag == 0 || forall|i: int| 0 <= i < mt.len() ==> #[trigger] mt[i] <= tag,
        0 <= j <= f.len(),
    ensures
        div_idx(f, l, mt, auto, tag, j) == f.len(),
    decreases f.len() - j,
{
    if j < f.len() {
        lemma_div_idx_full(f, l, mt, auto, tag, j + 1);
    }
}

/// Resolver idempotence: when the found set equals the loaded stack element
/// for element and no found entry is stale, incremental reconciliation
/// leaves everything in place — nothing is unloaded and nothing is loaded.
pub proof fn lemma_reconcile_idempotent(
    auto: bool,
    tag: u64,
    f: Seq<Seq<char>>,
    l: Seq<Seq<char>>,
    mt: Seq<u64>,
)
    requires
        f == l,
        mt.len() == f.len(),
        auto ==> tag == 0 || forall|i: int| 0 <= i < mt.len() ==> #[trigger] mt[i] <= tag,
    ensures
        spec_reconcile(false, auto, tag, f, l, mt).unload == Seq::<Seq<char>>::empty(),
        spec_reconcile(false, auto, tag, f, l, mt).load == Seq::<Seq<char>>::empty(),
{
    lemma_div_idx_full(f, l, mt, auto, tag, 0);
    assert(l.skip(l.len() as int) =~= Seq::<Seq<char>>::empty());
    assert(f.skip(f.len() as int) =~= Seq::<Seq<char>>::empty());
    assert(Seq::<Seq<char>>::empty().reverse() =~= Seq::<Seq<char>>::empty());
}

} // verus!
