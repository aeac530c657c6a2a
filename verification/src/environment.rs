//! The environment differ: compares two snapshots category by category,
//! emits one report line per change and a restore statement sequence that
//! reverses every change.

use vstd::prelude::*;

use crate::names::{lemma_recs_map_at, rec_names, recs_map, wf_recs, NameRecord, NameSet, RecordV};
use crate::parse::EnvironmentSnapshot;
use crate::text::{lemma_lex_lt_trans, lex_lt, str_eq, strs};

verus! {

/// Appending one element to a filtered sequence.
pub proof fn lemma_filter_push<A>(s: Seq<A>, x: A, pred: spec_fn(A) -> bool)
    ensures
        s.push(x).filter(pred) == if pred(x) {
            s.filter(pred).push(x)
        } else {
            s.filter(pred)
        },
{
    reveal(Seq::filter);
    assert(s.push(x).drop_last() =~= s);
    assert(s.push(x).last() == x);
}

/// Whether a sequence of owned strings holds `s`.
pub fn vec_contains_str(v: &Vec<String>, s: &str) -> (r: bool)
    ensures
        r == strs(v@).contains(s@),
{
    let mut i: usize = 0;
    while i < v.len()
        invariant
            i <= v@.len(),
            forall|j: int| 0 <= j < i ==> strs(v@)[j] != s@,
        decreases v@.len() - i,
    {
        if str_eq(v[i].as_str(), s) {
            proof {
                assert(strs(v@)[i as int] == s@);
            }
            return true;
        }
        i = i + 1;
    }
    proof {
        if strs(v@).contains(s@) {
            let j = choose|j: int| 0 <= j < strs(v@).len() && strs(v@)[j] == s@;
        }
    }
    false
}

/// Holds of a record whose name is not in the excluded list.
pub open spec fn kept_pred(exclude: Seq<Seq<char>>) -> spec_fn(RecordV) -> bool {
    |r: RecordV| !exclude.contains(r.name)
}

/// The records that survive pruning: those whose name is not excluded.
pub open spec fn pruned(s: Seq<RecordV>, exclude: Seq<Seq<char>>) -> Seq<RecordV> {
    s.filter(kept_pred(exclude))
}

/// Removes every excluded name from a category. Used for the volatile
/// variable names and for the two hook functions, which are diffed out of
/// band.
pub fn prune_unwanted_names(exclude: &Vec<String>, set: &mut NameSet)
    requires
        old(set).wf(),
    ensures
        final(set).wf(),
        final(set)@ == pruned(old(set)@, strs(exclude@)),
{
    let ghost s0 = set@;
    let mut kept: Vec<NameRecord> = Vec::new();
    let ghost mut last_idx: int = 0;
    let mut i: usize = 0;
    proof {
        assert(s0.take(0) =~= Seq::<RecordV>::empty());
        reveal(Seq::filter);
        assert(crate::names::recs(kept@) =~= s0.take(0).filter(kept_pred(strs(exclude@))));
    }
    while i < set.entries.len()
        invariant
            set@ == s0,
            set.wf(),
            i <= s0.len(),
            crate::names::recs(kept@) == s0.take(i as int).filter(kept_pred(strs(exclude@))),
            wf_recs(crate::names::recs(kept@)),
            crate::names::recs(kept@).len() > 0 ==> 0 <= last_idx < i && crate::names::recs(
                kept@,
            ).last() == s0[last_idx],
        decreases s0.len() - i,
    {
        let name_excluded = vec_contains_str(exclude, set.entries[i].name.as_str());
        proof {
            assert(s0.take(i + 1) =~= s0.take(i as int).push(s0[i as int]));
            lemma_filter_push(s0.take(i as int), s0[i as int], kept_pred(strs(exclude@)));
        }
        if !name_excluded {
            let rec = NameRecord {
                name: set.entries[i].name.clone(),
                text: set.entries[i].text.clone(),
            };
            let ghost kept0 = crate::names::recs(kept@);
            kept.push(rec);
            proof {
                assert(crate::names::recs(kept@) =~= kept0.push(s0[i as int]));
                let k1 = crate::names::recs(kept@);
                assert forall|p: int, q: int| 0 <= p < q < k1.len() implies lex_lt(
                    #[trigger] k1[p].name,
                    #[trigger] k1[q].name,
                ) by {
                    if q == k1.len() - 1 {
                        if kept0.len() > 0 {
                            if p == k1.len() - 2 {
                                assert(k1[p] == s0[last_idx]);
                            } else {
                                assert(k1[p] == kept0[p]);
                                assert(lex_lt(kept0[p].name, kept0.last().name));
                                lemma_lex_lt_trans(
                                    kept0[p].name,
                                    s0[last_idx].name,
                                    s0[i as int].name,
                                );
                            }
                        }
                    } else {
                        assert(k1[p] == kept0[p] && k1[q] == kept0[q]);
                    }
                }
                last_idx = i as int;
            }
        }
        i = i + 1;
    }
    proof {
        assert(s0.take(s0.len() as int) =~= s0);
    }
    set.entries = kept;
}

/// Holds of a name absent from a mapping.
pub open spec fn absent_pred(m: Map<Seq<char>, Seq<char>>) -> spec_fn(Seq<char>) -> bool {
    |n: Seq<char>| !m.contains_key(n)
}

/// Holds of a name present in both mappings with different statements.
pub open spec fn changed_pred(
    a: Map<Seq<char>, Seq<char>>,
    b: Map<Seq<char>, Seq<char>>,
) -> spec_fn(Seq<char>) -> bool {
    |n: Seq<char>| a.contains_key(n) && a[n] != b[n]
}

/// Names present only in the after-snapshot, in the after-snapshot's stored
/// (sorted) order.
pub open spec fn added_names(a: Seq<RecordV>, b: Seq<RecordV>) -> Seq<Seq<char>> {
    rec_names(b).filter(absent_pred(recs_map(a)))
}

/// Names present only in the before-snapshot, in its stored order.
pub open spec fn removed_names(a: Seq<RecordV>, b: Seq<RecordV>) -> Seq<Seq<char>> {
    rec_names(a).filter(absent_pred(recs_map(b)))
}

/// Names present in both snapshots whose statements differ.
pub open spec fn changed_names(a: Seq<RecordV>, b: Seq<RecordV>) -> Seq<Seq<char>> {
    rec_names(b).filter(changed_pred(recs_map(a), recs_map(b)))
}

/// One restore statement: either an unset-style command applied to a name,
/// or the verbatim re-emission of a recorded re-declaration statement.
pub enum RestoreAction {
    Unset { command: String, name: String },
    Declare { name: String, text: String },
}

/// Ghost image of a restore statement.
pub enum ActionV {
    Unset { command: Seq<char>, name: Seq<char> },
    Declare { name: Seq<char>, text: Seq<char> },
}

impl View for RestoreAction {
    type V = ActionV;

    open spec fn view(&self) -> ActionV {
        match self {
            RestoreAction::Unset { command, name } => ActionV::Unset {
                command: command@,
                name: name@,
            },
            RestoreAction::Declare { name, text } => ActionV::Declare { name: name@, text: text@ },
        }
    }
}

/// The ghost images of an action sequence.
pub open spec fn acts(v: Seq<RestoreAction>) -> Seq<ActionV> {
    v.map_values(|x: RestoreAction| x@)
}

/// Renders a classified name as a report line: a verb, the name, and the
/// category suffix.
pub open spec fn verb_line(verb: Seq<char>, suffix: Seq<char>) -> spec_fn(Seq<char>) -> Seq<char> {
    |n: Seq<char>| verb + n + suffix
}

/// The unset-style restore action for a name.
pub open spec fn unset_act(command: Seq<char>) -> spec_fn(Seq<char>) -> ActionV {
    |n: Seq<char>| ActionV::Unset { command: command, name: n }
}

/// The re-declaration restore action for a name, with the statement looked
/// up in the before-mapping.
pub open spec fn declare_act(m: Map<Seq<char>, Seq<char>>) -> spec_fn(Seq<char>) -> ActionV {
    |n: Seq<char>| ActionV::Declare { name: n, text: m[n] }
}

/// The action pair that reverses a modification: unset, then re-declare the
/// old statement.
pub open spec fn change_pair(
    command: Seq<char>,
    m: Map<Seq<char>, Seq<char>>,
) -> spec_fn(Seq<char>) -> Seq<ActionV> {
    |n: Seq<char>|
        seq![
            ActionV::Unset { command: command, name: n },
            ActionV::Declare { name: n, text: m[n] },
        ]
}

/// The report lines of one category: one `add`/`remove`/`modify` line per
/// classified name, each group in sorted name order.
pub open spec fn cat_report(a: Seq<RecordV>, b: Seq<RecordV>, suffix: Seq<char>) -> Seq<Seq<char>> {
    added_names(a, b).map_values(verb_line("add "@, suffix)) + removed_names(a, b).map_values(
        verb_line("remove "@, suffix),
    ) + changed_names(a, b).map_values(verb_line("modify "@, suffix))
}

/// The restore actions of one category: an added name is unset, a removed
/// name's old statement is re-emitted, a changed name is unset and then
/// re-declared from the before-snapshot.
pub open spec fn cat_actions(a: Seq<RecordV>, b: Seq<RecordV>, command: Seq<char>) -> Seq<ActionV> {
    added_names(a, b).map_values(unset_act(command)) + removed_names(a, b).map_values(
        declare_act(recs_map(a)),
    ) + changed_names(a, b).map_values(change_pair(command, recs_map(a))).flatten()
}

fn build_line(verb: &str, name: &str, suffix: &str) -> (r: String)
    ensures
        r@ == verb@ + name@ + suffix@,
{
    let mut r = String::from_str(verb);
    r.append(name);
    r.append(suffix);
    r
}

/// Compares one category of the two snapshots; returns the report lines and
/// the restore actions, added names first, then removed, then changed.
pub fn compare_sets(a: &NameSet, b: &NameSet, suffix: &str, command: &str) -> (r: (
    Vec<String>,
    Vec<RestoreAction>,
))
    requires
        a.wf(),
        b.wf(),
    ensures
        strs(r.0@) == cat_report(a@, b@, suffix@),
        acts(r.1@) == cat_actions(a@, b@, command@),
{
    let ghost av = a@;
    let ghost bv = b@;

    let mut report: Vec<String> = Vec::new();
    let mut actions: Vec<RestoreAction> = Vec::new();

    // Added names: in b, not in a.
    let mut i: usize = 0;
    proof {
        assert(rec_names(bv).take(0) =~= Seq::<Seq<char>>::empty());
        reveal(Seq::filter);
        assert(strs(report@) =~~= rec_names(bv).take(0).filter(absent_pred(recs_map(av))).map_values(
            verb_line("add "@, suffix@),
        ));
        assert(acts(actions@) =~~= rec_names(bv).take(0).filter(
            absent_pred(recs_map(av)),
        ).map_values(unset_act(command@)));
    }
    while i < b.entries.len()
        invariant
            av == a@,
            bv == b@,
            a.wf(),
            b.wf(),
            i <= bv.len(),
            strs(report@) == rec_names(bv).take(i as int).filter(
                absent_pred(recs_map(av)),
            ).map_values(verb_line("add "@, suffix@)),
            acts(actions@) == rec_names(bv).take(i as int).filter(
                absent_pred(recs_map(av)),
            ).map_values(unset_act(command@)),
        decreases bv.len() - i,
    {
        let name = &b.entries[i].name;
        let ghost n = name@;
        proof {
            assert(rec_names(bv).take(i + 1) =~= rec_names(bv).take(i as int).push(n));
            lemma_filter_push(rec_names(bv).take(i as int), n, absent_pred(recs_map(av)));
        }
        if !a.contains_name(name.as_str()) {
            let ghost rep0 = strs(report@);
            let ghost act0 = acts(actions@);
            let line = build_line("add ", name.as_str(), suffix);
            report.push(line);
            actions.push(
                RestoreAction::Unset { command: String::from_str(command), name: name.clone() },
            );
            proof {
                assert(strs(report@) =~~= rep0.push("add "@ + n + suffix@));
                assert(acts(actions@) =~~= act0.push(ActionV::Unset { command: command@, name: n }));
                let f1 = rec_names(bv).take(i + 1).filter(absent_pred(recs_map(av)));
                assert(strs(report@) =~~= f1.map_values(verb_line("add "@, suffix@)));
                assert(acts(actions@) =~~= f1.map_values(unset_act(command@)));
            }
        } else {
            proof {
                let f1 = rec_names(bv).take(i + 1).filter(absent_pred(recs_map(av)));
                assert(strs(report@) =~~= f1.map_values(verb_line("add "@, suffix@)));
                assert(acts(actions@) =~~= f1.map_values(unset_act(command@)));
            }
        }
        i = i + 1;
    }
    proof {
        assert(rec_names(bv).take(bv.len() as int) =~= rec_names(bv));
    }
    let ghost added_rep = strs(report@);
    let ghost added_act = acts(actions@);

    // Removed names: in a, not in b.
    let mut i: usize = 0;
    proof {
        assert(rec_names(av).take(0) =~= Seq::<Seq<char>>::empty());
        reveal(Seq::filter);
        assert(strs(report@) =~~= added_rep + rec_names(av).take(0).filter(
            absent_pred(recs_map(bv)),
        ).map_values(verb_line("remove "@, suffix@)));
        assert(acts(actions@) =~~= added_act + rec_names(av).take(0).filter(
            absent_pred(recs_map(bv)),
        ).map_values(declare_act(recs_map(av))));
    }
    while i < a.entries.len()
        invariant
            av == a@,
            bv == b@,
            a.wf(),
            b.wf(),
            i <= av.len(),
            added_rep == cat_added_report(av, bv, suffix@),
            added_act == cat_added_actions(av, bv, command@),
            strs(report@) == added_rep + rec_names(av).take(i as int).filter(
                absent_pred(recs_map(bv)),
            ).map_values(verb_line("remove "@, suffix@)),
            acts(actions@) == added_act + rec_names(av).take(i as int).filter(
                absent_pred(recs_map(bv)),
            ).map_values(declare_act(recs_map(av))),
        decreases av.len() - i,
    {
        let name = &a.entries[i].name;
        let ghost n = name@;
        proof {
            assert(rec_names(av).take(i + 1) =~= rec_names(av).take(i as int).push(n));
            lemma_filter_push(rec_names(av).take(i as int), n, absent_pred(recs_map(bv)));
        }
        if !b.contains_name(name.as_str()) {
            let ghost rep0 = strs(report@);
            let ghost act0 = acts(actions@);
            let line = build_line("remove ", name.as_str(), suffix);
            report.push(line);
            proof {
                lemma_recs_map_at(av, i as int);
            }
            actions.push(
                RestoreAction::Declare { name: name.clone(), text: a.entries[i].text.clone() },
            );
            proof {
                assert(strs(report@) =~~= rep0.push("remove "@ + n + suffix@));
                assert(acts(actions@) =~~= act0.push(
                    ActionV::Declare { name: n, text: recs_map(av)[n] },
                ));
                let f1 = rec_names(av).take(i + 1).filter(absent_pred(recs_map(bv)));
                assert(strs(report@) =~~= added_rep + f1.map_values(verb_line("remove "@, suffix@)));
                assert(acts(actions@) =~~= added_act + f1.map_values(declare_act(recs_map(av))));
            }
        } else {
            proof {
                let f1 = rec_names(av).take(i + 1).filter(absent_pred(recs_map(bv)));
                assert(strs(report@) =~~= added_rep + f1.map_values(verb_line("remove "@, suffix@)));
                assert(acts(actions@) =~~= added_act + f1.map_values(declare_act(recs_map(av))));
            }
        }
        i = i + 1;
    }
    proof {
        assert(rec_names(av).take(av.len() as int) =~= rec_names(av));
    }
    let ghost rem_rep = strs(report@);
    let ghost rem_act = acts(actions@);

    // Changed names: in both with different statements.
    let mut i: usize = 0;
    proof {
        assert(rec_names(bv).take(0) =~= Seq::<Seq<char>>::empty());
        reveal(Seq::filter);
        assert(Seq::<Seq<ActionV>>::empty().flatten() =~= Seq::<ActionV>::empty());
        assert(strs(report@) =~~= rem_rep + rec_names(bv).take(0).filter(
            changed_pred(recs_map(av), recs_map(bv)),
        ).map_values(verb_line("modify "@, suffix@)));
        assert(acts(actions@) =~~= rem_act + rec_names(bv).take(0).filter(
            changed_pred(recs_map(av), recs_map(bv)),
        ).map_values(change_pair(command@, recs_map(av))).flatten());
    }
    while i < b.entries.len()
        invariant
            av == a@,
            bv == b@,
            a.wf(),
            b.wf(),
            i <= bv.len(),
            rem_rep == cat_added_report(av, bv, suffix@) + cat_removed_report(av, bv, suffix@),
            rem_act == cat_added_actions(av, bv, command@) + cat_removed_actions(av, bv, command@),
            strs(report@) == rem_rep + rec_names(bv).take(i as int).filter(
                changed_pred(recs_map(av), recs_map(bv)),
            ).map_values(verb_line("modify "@, suffix@)),
            acts(actions@) == rem_act + rec_names(bv).take(i as int).filter(
                changed_pred(recs_map(av), recs_map(bv)),
            ).map_values(change_pair(command@, recs_map(av))).flatten(),
        decreases bv.len() - i,
    {
        let name = &b.entries[i].name;
        let ghost n = name@;
        proof {
            assert(rec_names(bv).take(i + 1) =~= rec_names(bv).take(i as int).push(n));
            lemma_filter_push(
                rec_names(bv).take(i as int),
                n,
                changed_pred(recs_map(av), recs_map(bv)),
            );
            lemma_recs_map_at(bv, i as int);
        }
        let changed = match a.get_text(name.as_str()) {
            Some(t) => !(t == b.entries[i].text),
            None => false,
        };
        if changed {
            let ghost rep0 = strs(report@);
            let ghost act0 = acts(actions@);
            let line = build_line("modify ", name.as_str(), suffix);
            report.push(line);
            actions.push(
                RestoreAction::Unset { command: String::from_str(command), name: name.clone() },
            );
            let old_text = match a.get_text(name.as_str()) {
                Some(t) => t,
                None => String::new(),
            };
            actions.push(RestoreAction::Declare { name: name.clone(), text: old_text });
            proof {
                assert(strs(report@) =~~= rep0.push("modify "@ + n + suffix@));
                let pair = change_pair(command@, recs_map(av))(n);
                assert(pair.len() == 2);
                assert(acts(actions@) =~~= act0 + pair);
                let f0 = rec_names(bv).take(i as int).filter(
                    changed_pred(recs_map(av), recs_map(bv)),
                );
                let f1 = rec_names(bv).take(i + 1).filter(changed_pred(recs_map(av), recs_map(bv)));
                assert(f1 == f0.push(n));
                assert(f1.map_values(change_pair(command@, recs_map(av))) =~~= f0.map_values(
                    change_pair(command@, recs_map(av)),
                ).push(pair));
                f0.map_values(change_pair(command@, recs_map(av))).lemma_flatten_push(pair);
                assert(strs(report@) =~~= rem_rep + f1.map_values(verb_line("modify "@, suffix@)));
                assert(acts(actions@) =~~= rem_act + f1.map_values(
                    change_pair(command@, recs_map(av)),
                ).flatten());
            }
        } else {
            proof {
                let f0 = rec_names(bv).take(i as int).filter(
                    changed_pred(recs_map(av), recs_map(bv)),
                );
                let f1 = rec_names(bv).take(i + 1).filter(changed_pred(recs_map(av), recs_map(bv)));
                assert(f1 == f0);
                assert(strs(report@) =~~= rem_rep + f1.map_values(verb_line("modify "@, suffix@)));
                assert(acts(actions@) =~~= rem_act + f1.map_values(
                    change_pair(command@, recs_map(av)),
                ).flatten());
            }
        }
        i = i + 1;
    }
    proof {
        assert(rec_names(bv).take(bv.len() as int) =~= rec_names(bv));
        assert(strs(report@) =~~= cat_report(av, bv, suffix@));
        assert(acts(actions@) =~~= cat_actions(av, bv, command@));
    }
    (report, actions)
}

/// The `add` report lines alone.
pub open spec fn cat_added_report(a: Seq<RecordV>, b: Seq<RecordV>, suffix: Seq<char>) -> Seq<
    Seq<char>,
> {
    added_names(a, b).map_values(verb_line("add "@, suffix))
}

/// The `remove` report lines alone.
pub open spec fn cat_removed_report(a: Seq<RecordV>, b: Seq<RecordV>, suffix: Seq<char>) -> Seq<
    Seq<char>,
> {
    removed_names(a, b).map_values(verb_line("remove "@, suffix))
}

/// The unset actions of the added names alone.
pub open spec fn cat_added_actions(a: Seq<RecordV>, b: Seq<RecordV>, command: Seq<char>) -> Seq<
    ActionV,
> {
    added_names(a, b).map_values(unset_act(command))
}

/// The re-declaration actions of the removed names alone.
pub open spec fn cat_removed_actions(a: Seq<RecordV>, b: Seq<RecordV>, command: Seq<char>) -> Seq<
    ActionV,
> {
    removed_names(a, b).map_values(declare_act(recs_map(a)))
}

/// The shell text of one restore action: `<command> <name>` on its own line,
/// or the recorded statement verbatim (which already ends with a newline).
pub open spec fn render_action(act: ActionV) -> Seq<char> {
    match act {
        ActionV::Unset { command, name } => command + " "@ + name + "\n"@,
        ActionV::Declare { name, text } => text,
    }
}

/// The shell text of an action sequence, in order.
pub open spec fn render_actions(a: Seq<ActionV>) -> Seq<char>
    decreases a.len(),
{
    if a.len() == 0 {
        Seq::<char>::empty()
    } else {
        render_actions(a.drop_last()) + render_action(a.last())
    }
}

/// Renders restore actions as shell text.
pub fn render_restore(actions: &Vec<RestoreAction>) -> (r: String)
    ensures
        r@ == render_actions(acts(actions@)),
{
    let mut r = String::new();
    let mut i: usize = 0;
    proof {
        assert(acts(actions@).take(0) =~= Seq::<ActionV>::empty());
        assert(r@ =~= render_actions(acts(actions@).take(0)));
    }
    while i < actions.len()
        invariant
            i <= actions@.len(),
            r@ == render_actions(acts(actions@).take(i as int)),
        decreases actions@.len() - i,
    {
        proof {
            assert(acts(actions@).take(i + 1).drop_last() =~= acts(actions@).take(i as int));
            assert(acts(actions@).take(i + 1).last() == actions@[i as int]@);
        }
        match &actions[i] {
            RestoreAction::Unset { command, name } => {
                r.append(command.as_str());
                r.append(" ");
                r.append(name.as_str());
                r.append("\n");
            },
            RestoreAction::Declare { name: _, text } => {
                r.append(text.as_str());
            },
        }
        i = i + 1;
    }
    proof {
        assert(acts(actions@).take(actions@.len() as int) =~= acts(actions@));
    }
    r
}

/// Holds of a non-empty token.
pub open spec fn nonempty_pred() -> spec_fn(Seq<char>) -> bool {
    |t: Seq<char>| t.len() > 0
}

/// The non-empty colon-delimited tokens of a raw option-list value.
pub open spec fn opt_tokens(s: Seq<char>) -> Seq<Seq<char>> {
    crate::text::split_seq(s, ':').filter(nonempty_pred())
}

/// Holds of an element absent from the other sequence.
pub open spec fn absent_from(other: Seq<Seq<char>>) -> spec_fn(Seq<char>) -> bool {
    |t: Seq<char>| !other.contains(t)
}

/// Tokens turned on between the snapshots: present after, absent before.
pub open spec fn tokens_on(a: Seq<char>, b: Seq<char>) -> Seq<Seq<char>> {
    opt_tokens(b).filter(absent_from(opt_tokens(a)))
}

/// Tokens turned off between the snapshots: present before, absent after.
pub open spec fn tokens_off(a: Seq<char>, b: Seq<char>) -> Seq<Seq<char>> {
    opt_tokens(a).filter(absent_from(opt_tokens(b)))
}

/// Renders a toggled token as a report line.
pub open spec fn tok_line(verb: Seq<char>) -> spec_fn(Seq<char>) -> Seq<char> {
    |t: Seq<char>| verb + t
}

/// The report lines of one reserved option variable: the tokens turned on,
/// then the tokens turned off.
pub open spec fn option_report(a: Seq<char>, b: Seq<char>) -> Seq<Seq<char>> {
    tokens_on(a, b).map_values(tok_line("set-on "@)) + tokens_off(a, b).map_values(
        tok_line("set-off "@),
    )
}

/// The restore statement that turns an option on: the primary enable form,
/// falling back to the alternate enable form on error.
pub open spec fn enable_line(t: Seq<char>) -> Seq<char> {
    "shopt -s "@ + t + " 2>/dev/null || set -o "@ + t + "\n"@
}

/// The restore statement that turns an option off.
pub open spec fn disable_line(t: Seq<char>) -> Seq<char> {
    "shopt -u "@ + t + " 2>/dev/null || set +o "@ + t + "\n"@
}

/// The disable statements of a token sequence, in order.
pub open spec fn disable_lines(ts: Seq<Seq<char>>) -> Seq<char>
    decreases ts.len(),
{
    if ts.len() == 0 {
        Seq::<char>::empty()
    } else {
        disable_lines(ts.drop_last()) + disable_line(ts.last())
    }
}

/// The enable statements of a token sequence, in order.
pub open spec fn enable_lines(ts: Seq<Seq<char>>) -> Seq<char>
    decreases ts.len(),
{
    if ts.len() == 0 {
        Seq::<char>::empty()
    } else {
        enable_lines(ts.drop_last()) + enable_line(ts.last())
    }
}

/// The restore text of one reserved option variable: a token turned on is
/// restored off, a token turned off is restored on.
pub open spec fn option_restore(a: Seq<char>, b: Seq<char>) -> Seq<char> {
    disable_lines(tokens_on(a, b)) + enable_lines(tokens_off(a, b))
}

fn build_enable(t: &str) -> (r: String)
    ensures
        r@ == enable_line(t@),
{
    let mut r = String::from_str("shopt -s ");
    r.append(t);
    r.append(" 2>/dev/null || set -o ");
    r.append(t);
    r.append("\n");
    r
}

fn build_disable(t: &str) -> (r: String)
    ensures
        r@ == disable_line(t@),
{
    let mut r = String::from_str("shopt -u ");
    r.append(t);
    r.append(" 2>/dev/null || set +o ");
    r.append(t);
    r.append("\n");
    r
}

fn nonempty_tokens(s: &str) -> (r: Vec<String>)
    ensures
        strs(r@) == opt_tokens(s@),
{
    let parts = crate::text::split_str(s, ':');
    let ghost pv = strs(parts@);
    let mut r: Vec<String> = Vec::new();
    let mut i: usize = 0;
    proof {
        assert(pv.take(0) =~= Seq::<Seq<char>>::empty());
        reveal(Seq::filter);
        assert(strs(r@) =~~= pv.take(0).filter(nonempty_pred()));
    }
    while i < parts.len()
        invariant
            pv == strs(parts@),
            i <= parts@.len(),
            strs(r@) == pv.take(i as int).filter(nonempty_pred()),
        decreases parts@.len() - i,
    {
        proof {
            assert(pv.take(i + 1) =~= pv.take(i as int).push(pv[i as int]));
            lemma_filter_push(pv.take(i as int), pv[i as int], nonempty_pred());
        }
        if parts[i].as_str().unicode_len() > 0 {
            let ghost r0 = strs(r@);
            r.push(parts[i].clone());
            proof {
                assert(strs(r@) =~~= r0.push(pv[i as int]));
            }
        }
        i = i + 1;
    }
    proof {
        assert(pv.take(pv.len() as int) =~= pv);
    }
    r
}

/// Diffs the token sets of one reserved option variable, returning the
/// report lines and the restore text.
pub fn diff_options(a: &str, b: &str) -> (r: (Vec<String>, String))
    ensures
        strs(r.0@) == option_report(a@, b@),
        r.1@ == option_restore(a@, b@),
{
    let ta = nonempty_tokens(a);
    let tb = nonempty_tokens(b);
    let ghost tav = strs(ta@);
    let ghost tbv = strs(tb@);
    let mut report: Vec<String> = Vec::new();
    let mut restore = String::new();

    // Tokens turned on in b: reported set-on, restored off.
    let mut i: usize = 0;
    proof {
        assert(tbv.take(0) =~= Seq::<Seq<char>>::empty());
        reveal(Seq::filter);
        assert(strs(report@) =~~= tbv.take(0).filter(absent_from(tav)).map_values(
            tok_line("set-on "@),
        ));
        assert(restore@ =~= disable_lines(tbv.take(0).filter(absent_from(tav))));
    }
    while i < tb.len()
        invariant
            tav == strs(ta@),
            tbv == strs(tb@),
            i <= tbv.len(),
            strs(report@) == tbv.take(i as int).filter(absent_from(tav)).map_values(
                tok_line("set-on "@),
            ),
            restore@ == disable_lines(tbv.take(i as int).filter(absent_from(tav))),
        decreases tbv.len() - i,
    {
        let tok = &tb[i];
        let ghost t = tok@;
        proof {
            assert(tbv.take(i + 1) =~= tbv.take(i as int).push(t));
            lemma_filter_push(tbv.take(i as int), t, absent_from(tav));
        }
        if !vec_contains_str(&ta, tok.as_str()) {
            let ghost rep0 = strs(report@);
            let line = build_line("set-on ", tok.as_str(), "");
            report.push(line);
            restore.append(build_disable(tok.as_str()).as_str());
            proof {
                reveal_strlit("");
                assert("set-on "@ + t + ""@ =~= "set-on "@ + t);
                assert(strs(report@) =~~= rep0.push("set-on "@ + t));
                let f1 = tbv.take(i + 1).filter(absent_from(tav));
                assert(f1.drop_last() =~= tbv.take(i as int).filter(absent_from(tav)));
                assert(strs(report@) =~~= f1.map_values(tok_line("set-on "@)));
            }
        } else {
            proof {
                let f1 = tbv.take(i + 1).filter(absent_from(tav));
                assert(strs(report@) =~~= f1.map_values(tok_line("set-on "@)));
            }
        }
        i = i + 1;
    }
    proof {
        assert(tbv.take(tbv.len() as int) =~= tbv);
    }
    let ghost on_rep = strs(report@);
    let ghost on_res = restore@;

    // Tokens turned off in b: reported set-off, restored on.
    let mut i: usize = 0;
    proof {
        assert(tav.take(0) =~= Seq::<Seq<char>>::empty());
        reveal(Seq::filter);
        assert(strs(report@) =~~= on_rep + tav.take(0).filter(absent_from(tbv)).map_values(
            tok_line("set-off "@),
        ));
        assert(restore@ =~= on_res + enable_lines(tav.take(0).filter(absent_from(tbv))));
    }
    while i < ta.len()
        invariant
            tav == strs(ta@),
            tbv == strs(tb@),
            i <= tav.len(),
            on_rep == tokens_on(a@, b@).map_values(tok_line("set-on "@)),
            on_res == disable_lines(tokens_on(a@, b@)),
            strs(report@) == on_rep + tav.take(i as int).filter(absent_from(tbv)).map_values(
                tok_line("set-off "@),
            ),
            restore@ == on_res + enable_lines(tav.take(i as int).filter(absent_from(tbv))),
        decreases tav.len() - i,
    {
        let tok = &ta[i];
        let ghost t = tok@;
        proof {
            assert(tav.take(i + 1) =~= tav.take(i as int).push(t));
            lemma_filter_push(tav.take(i as int), t, absent_from(tbv));
        }
        if !vec_contains_str(&tb, tok.as_str()) {
            let ghost rep0 = strs(report@);
            let line = build_line("set-off ", tok.as_str(), "");
            report.push(line);
            restore.append(build_enable(tok.as_str()).as_str());
            proof {
                reveal_strlit("");
                assert("set-off "@ + t + ""@ =~= "set-off "@ + t);
                assert(strs(report@) =~~= rep0.push("set-off "@ + t));
                let f1 = tav.take(i + 1).filter(absent_from(tbv));
                assert(f1.drop_last() =~= tav.take(i as int).filter(absent_from(tbv)));
                assert(strs(report@) =~~= on_rep + f1.map_values(tok_line("set-off "@)));
            }
        } else {
            proof {
                let f1 = tav.take(i + 1).filter(absent_from(tbv));
                assert(strs(report@) =~~= on_rep + f1.map_values(tok_line("set-off "@)));
            }
        }
        i = i + 1;
    }
    proof {
        assert(tav.take(tav.len() as int) =~= tav);
        assert(strs(report@) =~~= option_report(a@, b@));
    }
    (report, restore)
}

/// The on-enter hook function: re-emitted on the report stream so the caller
/// invokes it at once, then removes it.
pub open spec fn enter_hook_report(bf: Map<Seq<char>, Seq<char>>) -> Seq<Seq<char>> {
    if bf.contains_key("cdenv_enter"@) {
        seq!["cdenv_enter"@, "unset -f cdenv_enter"@]
    } else {
        Seq::<Seq<char>>::empty()
    }
}

/// The on-leave hook function: its removal is announced on the report
/// stream.
pub open spec fn leave_hook_report(bf: Map<Seq<char>, Seq<char>>) -> Seq<Seq<char>> {
    if bf.contains_key("cdenv_leave"@) {
        seq!["unset -f cdenv_leave"@]
    } else {
        Seq::<Seq<char>>::empty()
    }
}

/// The on-leave hook's contribution to the restore artifact: its full body,
/// an invocation, and a self-removal.
pub open spec fn leave_hook_restore(bf: Map<Seq<char>, Seq<char>>) -> Seq<char> {
    if bf.contains_key("cdenv_leave"@) {
        bf["cdenv_leave"@] + "cdenv_leave\n"@ + "unset -f cdenv_leave\n"@
    } else {
        Seq::<char>::empty()
    }
}

/// The two volatile variable names excluded from diffing.
pub open spec fn volatile_names() -> Seq<Seq<char>> {
    seq!["_"@, "OLDPWD"@]
}

/// The two hook function names excluded from ordinary function diffing.
pub open spec fn hook_names() -> Seq<Seq<char>> {
    seq!["cdenv_enter"@, "cdenv_leave"@]
}

/// Every line of the change report, in emission order: hook lines first,
/// then the three name categories (each added, removed, changed, sorted by
/// name), then the toggles of the two reserved option variables.
pub open spec fn spec_compare_report(av: crate::parse::SnapshotV, bv: crate::parse::SnapshotV) -> Seq<
    Seq<char>,
> {
    enter_hook_report(recs_map(bv.funcs)) + leave_hook_report(recs_map(bv.funcs)) + cat_report(
        pruned(av.vars, volatile_names()),
        pruned(bv.vars, volatile_names()),
        ""@,
    ) + cat_report(pruned(av.funcs, hook_names()), pruned(bv.funcs, hook_names()), "()"@)
        + cat_report(av.aliases, bv.aliases, "*"@) + option_report(av.shellopts, bv.shellopts)
        + option_report(av.bashopts, bv.bashopts)
}

/// The whole restore artifact: the on-leave hook's pre-seeded block, then
/// the reversing statements of the three name categories, then the option
/// toggles.
pub open spec fn spec_compare_restore(
    av: crate::parse::SnapshotV,
    bv: crate::parse::SnapshotV,
) -> Seq<char> {
    leave_hook_restore(recs_map(bv.funcs)) + render_actions(
        cat_actions(pruned(av.vars, volatile_names()), pruned(bv.vars, volatile_names()), "unset"@),
    ) + render_actions(
        cat_actions(pruned(av.funcs, hook_names()), pruned(bv.funcs, hook_names()), "unset -f"@),
    ) + render_actions(cat_actions(av.aliases, bv.aliases, "unalias"@)) + option_restore(
        av.shellopts,
        bv.shellopts,
    ) + option_restore(av.bashopts, bv.bashopts)
}

/// What one comparison produces: the report lines for the live stream and
/// the text to append to the restore artifact.
pub struct ComparisonOutput {
    pub report: Vec<String>,
    pub restore: String,
}

/// Compares two snapshots and produces the full change report and restore
/// text: hook handling, the three name categories and the reserved option
/// variables, in a deterministic order.
pub fn compare_environments(a: EnvironmentSnapshot, b: EnvironmentSnapshot) -> (r: ComparisonOutput)
    requires
        a.wf(),
        b.wf(),
    ensures
        strs(r.report@) == spec_compare_report(a@, b@),
        r.restore@ == spec_compare_restore(a@, b@),
{
    let ghost av = a@;
    let ghost bv = b@;
    let mut a = a;
    let mut b = b;
    let mut report: Vec<String> = Vec::new();
    let mut restore = String::new();

    if b.funcs.contains_name("cdenv_enter") {
        report.push(String::from_str("cdenv_enter"));
        report.push(String::from_str("unset -f cdenv_enter"));
    }
    proof {
        assert(strs(report@) =~~= enter_hook_report(recs_map(bv.funcs)));
    }
    let ghost rep1 = strs(report@);

    match b.funcs.get_text("cdenv_leave") {
        Some(t) => {
            restore.append(t.as_str());
            restore.append("cdenv_leave\n");
            restore.append("unset -f cdenv_leave\n");
            report.push(String::from_str("unset -f cdenv_leave"));
        },
        None => {},
    }
    proof {
        assert(restore@ =~= leave_hook_restore(recs_map(bv.funcs)));
        assert(strs(report@) =~~= rep1 + leave_hook_report(recs_map(bv.funcs)));
    }
    let ghost rep2 = strs(report@);
    let ghost res2 = restore@;

    let mut excl_vars: Vec<String> = Vec::new();
    excl_vars.push(String::from_str("_"));
    excl_vars.push(String::from_str("OLDPWD"));
    proof {
        assert(strs(excl_vars@) =~~= volatile_names());
    }
    let mut excl_funcs: Vec<String> = Vec::new();
    excl_funcs.push(String::from_str("cdenv_enter"));
    excl_funcs.push(String::from_str("cdenv_leave"));
    proof {
        assert(strs(excl_funcs@) =~~= hook_names());
    }

    prune_unwanted_names(&excl_vars, &mut a.vars);
    prune_unwanted_names(&excl_vars, &mut b.vars);
    prune_unwanted_names(&excl_funcs, &mut a.funcs);
    prune_unwanted_names(&excl_funcs, &mut b.funcs);

    let (mut vr, va) = compare_sets(&a.vars, &b.vars, "", "unset");
    report.append(&mut vr);
    restore.append(render_restore(&va).as_str());
    proof {
        assert(strs(report@) =~~= rep2 + cat_report(
            pruned(av.vars, volatile_names()),
            pruned(bv.vars, volatile_names()),
            ""@,
        ));
        assert(restore@ =~= res2 + render_actions(
            cat_actions(
                pruned(av.vars, volatile_names()),
                pruned(bv.vars, volatile_names()),
                "unset"@,
            ),
        ));
    }
    let ghost rep3 = strs(report@);
    let ghost res3 = restore@;

    let (mut fr, fa) = compare_sets(&a.funcs, &b.funcs, "()", "unset -f");
    report.append(&mut fr);
    restore.append(render_restore(&fa).as_str());
    proof {
        assert(strs(report@) =~~= rep3 + cat_report(
            pruned(av.funcs, hook_names()),
            pruned(bv.funcs, hook_names()),
            "()"@,
        ));
        assert(restore@ =~= res3 + render_actions(
            cat_actions(pruned(av.funcs, hook_names()), pruned(bv.funcs, hook_names()), "unset -f"@),
        ));
    }
    let ghost rep4 = strs(report@);
    let ghost res4 = restore@;

    let (mut ar, aa) = compare_sets(&a.aliases, &b.aliases, "*", "unalias");
    report.append(&mut ar);
    restore.append(render_restore(&aa).as_str());
    proof {
        assert(strs(report@) =~~= rep4 + cat_report(av.aliases, bv.aliases, "*"@));
        assert(restore@ =~= res4 + render_actions(cat_actions(av.aliases, bv.aliases, "unalias"@)));
    }
    let ghost rep5 = strs(report@);
    let ghost res5 = restore@;

    let (mut so, sr) = diff_options(a.options.shellopts.as_str(), b.options.shellopts.as_str());
    report.append(&mut so);
    restore.append(sr.as_str());
    proof {
        assert(strs(report@) =~~= rep5 + option_report(av.shellopts, bv.shellopts));
        assert(restore@ =~= res5 + option_restore(av.shellopts, bv.shellopts));
    }
    let ghost rep6 = strs(report@);
    let ghost res6 = restore@;

    let (mut bo, br) = diff_options(a.options.bashopts.as_str(), b.options.bashopts.as_str());
    report.append(&mut bo);
    restore.append(br.as_str());
    proof {
        assert(strs(report@) =~~= rep6 + option_report(av.bashopts, bv.bashopts));
        assert(restore@ =~= res6 + option_restore(av.bashopts, bv.bashopts));
        assert(strs(report@) =~~= spec_compare_report(av, bv));
        assert(restore@ =~= spec_compare_restore(av, bv));
    }

    ComparisonOutput { report, restore }
}

/// Membership in a sequence, split at its first element.
pub proof fn lemma_contains_first<A>(s: Seq<A>, x: A)
    requires
        s.len() > 0,
    ensures
        s.contains(x) <==> (s[0] == x || s.drop_first().contains(x)),
{
    if s.contains(x) {
        let i = choose|i: int| 0 <= i < s.len() && s[i] == x;
        if i > 0 {
            assert(s.drop_first()[i - 1] == x);
        }
    }
    if s.drop_first().contains(x) {
        let i = choose|i: int| 0 <= i < s.drop_first().len() && s.drop_first()[i] == x;
        assert(s[i + 1] == x);
    }
}

/// Membership in a sequence, split at its last element.
pub proof fn lemma_contains_last<A>(s: Seq<A>, x: A)
    requires
        s.len() > 0,
    ensures
        s.contains(x) <==> (s.last() == x || s.drop_last().contains(x)),
{
    if s.contains(x) {
        let i = choose|i: int| 0 <= i < s.len() && s[i] == x;
        if i < s.len() - 1 {
            assert(s.drop_last()[i] == x);
        }
    }
    if s.drop_last().contains(x) {
        let i = choose|i: int| 0 <= i < s.drop_last().len() && s.drop_last()[i] == x;
        assert(s[i] == x);
    }
}

/// A filter keeps exactly the members that satisfy the predicate.
pub proof fn lemma_mem_filter<A>(s: Seq<A>, pred: spec_fn(A) -> bool, x: A)
    ensures
        s.filter(pred).contains(x) <==> (s.contains(x) && pred(x)),
    decreases s.len(),
{
    reveal(Seq::filter);
    if s.len() == 0 {
    } else {
        lemma_mem_filter(s.drop_last(), pred, x);
        lemma_contains_last(s, x);
        let f = s.filter(pred);
        let f0 = s.drop_last().filter(pred);
        if pred(s.last()) {
            assert(f == f0.push(s.last()));
            lemma_contains_last(f, x);
            assert(f.drop_last() =~= f0);
        } else {
            assert(f == f0);
        }
    }
}

/// A filter whose predicate holds nowhere yields the empty sequence.
pub proof fn lemma_filter_none<A>(s: Seq<A>, pred: spec_fn(A) -> bool)
    requires
        forall|i: int| 0 <= i < s.len() ==> !pred(#[trigger] s[i]),
    ensures
        s.filter(pred) == Seq::<A>::empty(),
    decreases s.len(),
{
    reveal(Seq::filter);
    if s.len() > 0 {
        lemma_filter_none(s.drop_last(), pred);
    }
}

/// Diff direction is anti-symmetric: the names added from A to B are exactly
/// the names removed from B to A, and vice versa.
pub proof fn lemma_diff_antisymmetric(a: Seq<RecordV>, b: Seq<RecordV>)
    ensures
        added_names(a, b) == removed_names(b, a),
        removed_names(a, b) == added_names(b, a),
{
}

/// Diffing a snapshot against itself reports nothing in any category.
pub proof fn lemma_diff_self_empty(a: Seq<RecordV>)
    ensures
        added_names(a, a) == Seq::<Seq<char>>::empty(),
        removed_names(a, a) == Seq::<Seq<char>>::empty(),
        changed_names(a, a) == Seq::<Seq<char>>::empty(),
{
    let names = rec_names(a);
    assert forall|i: int| 0 <= i < names.len() implies !absent_pred(recs_map(a))(
        #[trigger] names[i],
    ) by {
        assert(names.contains(names[i]));
        crate::names::lemma_recs_map_dom(a, names[i]);
    }
    lemma_filter_none(names, absent_pred(recs_map(a)));
    assert forall|i: int| 0 <= i < names.len() implies !changed_pred(recs_map(a), recs_map(a))(
        #[trigger] names[i],
    ) by {
    }
    lemma_filter_none(names, changed_pred(recs_map(a), recs_map(a)));
}

/// The environment that results from one restore statement: an unset removes
/// the name, a re-declaration re-creates it with the emitted statement.
pub open spec fn apply_action(
    env: Map<Seq<char>, Seq<char>>,
    act: ActionV,
) -> Map<Seq<char>, Seq<char>> {
    match act {
        ActionV::Unset { command: _, name } => env.remove(name),
        ActionV::Declare { name, text } => env.insert(name, text),
    }
}

/// The environment after a restore statement sequence, applied in order.
pub open spec fn apply_actions(
    env: Map<Seq<char>, Seq<char>>,
    a: Seq<ActionV>,
) -> Map<Seq<char>, Seq<char>>
    decreases a.len(),
{
    if a.len() == 0 {
        env
    } else {
        apply_actions(apply_action(env, a[0]), a.drop_first())
    }
}

/// Applying a concatenation applies the parts in order.
pub proof fn lemma_apply_concat(env: Map<Seq<char>, Seq<char>>, s1: Seq<ActionV>, s2: Seq<ActionV>)
    ensures
        apply_actions(env, s1 + s2) == apply_actions(apply_actions(env, s1), s2),
    decreases s1.len(),
{
    if s1.len() == 0 {
        assert(s1 + s2 =~= s2);
    } else {
        assert((s1 + s2)[0] == s1[0]);
        assert((s1 + s2).drop_first() =~= s1.drop_first() + s2);
        lemma_apply_concat(apply_action(env, s1[0]), s1.drop_first(), s2);
    }
}

/// Applying the unset actions of a name list removes exactly those names.
pub proof fn lemma_apply_unsets(
    env: Map<Seq<char>, Seq<char>>,
    names: Seq<Seq<char>>,
    command: Seq<char>,
    k: Seq<char>,
)
    ensures
        apply_actions(env, names.map_values(unset_act(command))).contains_key(k) <==> (
        env.contains_key(k) && !names.contains(k)),
        apply_actions(env, names.map_values(unset_act(command))).contains_key(k) ==> apply_actions(
            env,
            names.map_values(unset_act(command)),
        )[k] == env[k],
    decreases names.len(),
{
    let m = names.map_values(unset_act(command));
    if names.len() == 0 {
        assert(m =~= Seq::<ActionV>::empty());
        assert(!names.contains(k));
    } else {
        assert(m[0] == ActionV::Unset { command: command, name: names[0] });
        assert(m.drop_first() =~~= names.drop_first().map_values(unset_act(command)));
        let env1 = env.remove(names[0]);
        assert(apply_actions(env, m) == apply_actions(
            env1,
            names.drop_first().map_values(unset_act(command)),
        ));
        lemma_apply_unsets(env1, names.drop_first(), command, k);
        lemma_contains_first(names, k);
    }
}

/// Applying the re-declaration actions of a name list sets exactly those
/// names to the statements of the source mapping, leaving all others.
pub proof fn lemma_apply_declares(
    env: Map<Seq<char>, Seq<char>>,
    names: Seq<Seq<char>>,
    m: Map<Seq<char>, Seq<char>>,
    k: Seq<char>,
)
    ensures
        apply_actions(env, names.map_values(declare_act(m))).contains_key(k) <==> (
        env.contains_key(k) || names.contains(k)),
        apply_actions(env, names.map_values(declare_act(m))).contains_key(k) ==> apply_actions(
            env,
            names.map_values(declare_act(m)),
        )[k] == if names.contains(k) {
            m[k]
        } else {
            env[k]
        },
    decreases names.len(),
{
    let ms = names.map_values(declare_act(m));
    if names.len() == 0 {
        assert(ms =~= Seq::<ActionV>::empty());
        assert(!names.contains(k));
    } else {
        assert(ms[0] == ActionV::Declare { name: names[0], text: m[names[0]] });
        assert(ms.drop_first() =~~= names.drop_first().map_values(declare_act(m)));
        let env1 = env.insert(names[0], m[names[0]]);
        assert(apply_actions(env, ms) == apply_actions(
            env1,
            names.drop_first().map_values(declare_act(m)),
        ));
        lemma_apply_declares(env1, names.drop_first(), m, k);
        lemma_contains_first(names, k);
    }
}

/// Applying the unset/re-declare pairs of a name list sets exactly those
/// names to the statements of the source mapping, leaving all others.
pub proof fn lemma_apply_changes(
    env: Map<Seq<char>, Seq<char>>,
    names: Seq<Seq<char>>,
    command: Seq<char>,
    m: Map<Seq<char>, Seq<char>>,
    k: Seq<char>,
)
    ensures
        apply_actions(env, names.map_values(change_pair(command, m)).flatten()).contains_key(k)
            <==> (env.contains_key(k) || names.contains(k)),
        apply_actions(env, names.map_values(change_pair(command, m)).flatten()).contains_key(k)
            ==> apply_actions(env, names.map_values(change_pair(command, m)).flatten())[k]
            == if names.contains(k) {
            m[k]
        } else {
            env[k]
        },
    decreases names.len(),
{
    let mp = names.map_values(change_pair(command, m));
    let fl = mp.flatten();
    if names.len() == 0 {
        assert(mp =~~= Seq::<Seq<ActionV>>::empty());
        assert(fl =~= Seq::<ActionV>::empty());
        assert(!names.contains(k));
    } else {
        let n0 = names[0];
        let pair = change_pair(command, m)(n0);
        assert(mp.first() == pair);
        assert(mp.drop_first() =~~= names.drop_first().map_values(change_pair(command, m)));
        let flrest = names.drop_first().map_values(change_pair(command, m)).flatten();
        assert(fl == pair + flrest);
        lemma_apply_concat(env, pair, flrest);
        assert(pair.len() == 2);
        assert(pair[0] == ActionV::Unset { command: command, name: n0 });
        assert(pair[1] == ActionV::Declare { name: n0, text: m[n0] });
        assert(pair.drop_first() =~= seq![pair[1]]);
        assert(pair.drop_first()[0] == pair[1]);
        assert(pair.drop_first().drop_first() =~= Seq::<ActionV>::empty());
        let env1 = env.insert(n0, m[n0]);
        assert(apply_actions(env, pair) == apply_actions(env.remove(n0), pair.drop_first()));
        assert(apply_actions(env.remove(n0), pair.drop_first()) == apply_actions(
            env.remove(n0).insert(n0, m[n0]),
            pair.drop_first().drop_first(),
        ));
        assert(env.remove(n0).insert(n0, m[n0]) =~= env1);
        assert(apply_actions(env, pair) == env1);
        assert(apply_actions(env, fl) == apply_actions(env1, flrest));
        lemma_apply_changes(env1, names.drop_first(), command, m, k);
        lemma_contains_first(names, k);
    }
}

/// Round trip: the restore actions computed from the diff of A and B,
/// applied in order to an environment equal to B, yield an environment equal
/// to A — every added name is gone, every removed or changed name carries
/// A's exact statement, and untouched names were equal already.
pub proof fn lemma_restore_round_trip(a: Seq<RecordV>, b: Seq<RecordV>, command: Seq<char>)
    requires
        wf_recs(a),
        wf_recs(b),
    ensures
        apply_actions(recs_map(b), cat_actions(a, b, command)) == recs_map(a),
{
    let ma = recs_map(a);
    let mb = recs_map(b);
    let add = added_names(a, b);
    let rem = removed_names(a, b);
    let chg = changed_names(a, b);
    let acts1 = add.map_values(unset_act(command));
    let acts2 = rem.map_values(declare_act(ma));
    let acts3 = chg.map_values(change_pair(command, ma)).flatten();
    assert(cat_actions(a, b, command) == (acts1 + acts2) + acts3);
    lemma_apply_concat(mb, acts1 + acts2, acts3);
    lemma_apply_concat(mb, acts1, acts2);
    let env1 = apply_actions(mb, acts1);
    let env2 = apply_actions(env1, acts2);
    let env3 = apply_actions(env2, acts3);
    assert forall|k: Seq<char>|
        (#[trigger] env3.contains_key(k) <==> ma.contains_key(k)) && (env3.contains_key(k)
            ==> env3[k] == ma[k]) by {
        lemma_mem_filter(rec_names(b), absent_pred(ma), k);
        lemma_mem_filter(rec_names(a), absent_pred(mb), k);
        lemma_mem_filter(rec_names(b), changed_pred(ma, mb), k);
        crate::names::lemma_recs_map_dom(a, k);
        crate::names::lemma_recs_map_dom(b, k);
        lemma_apply_unsets(mb, add, command, k);
        lemma_apply_declares(env1, rem, ma, k);
        lemma_apply_changes(env2, chg, command, ma, k);
    }
    assert(env3 =~= ma);
}

} // verus!
