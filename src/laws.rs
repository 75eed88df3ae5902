use vstd::prelude::*;
use crate::glob::{glob, is_literal, lemma_literal_matches_itself, SEP};
use crate::matcher::{evaluate_rules, matches_at_some_depth, rule_matches, Decision};
use crate::rules::RuleModel;
use crate::scope::{relative, resolve_scopes, scope_decision, strictly_under, ScopeModel};
use crate::walker::{
    admitted, advance, after_listing, child_path, initial, is_git_name, plan, task_of, EntryModel,
    Phase, TaskModel,
};

verus! {

/// Names in a listing are pairwise distinct, as the entries of one directory are.
pub open spec fn distinct_names(es: Seq<EntryModel>) -> bool {
    forall|i: int, j: int| 0 <= i < j < es.len() ==> es[i].name != es[j].name
}

/// Two entries of one directory have the same path only if they have the same name.
pub proof fn lemma_child_path_injective(dir: Seq<char>, a: Seq<char>, b: Seq<char>)
    requires
        child_path(dir, a) == child_path(dir, b),
    ensures
        a == b,
{
    if dir.len() > 0 {
        let n = dir.len() + 1;
        assert(a =~= child_path(dir, a).subrange(n as int, child_path(dir, a).len() as int));
        assert(b =~= child_path(dir, b).subrange(n as int, child_path(dir, b).len() as int));
    }
}

/// Every task planned for a listing comes from a kept entry of it.
pub proof fn lemma_plan_from_admitted(scopes: Seq<ScopeModel>, dir: Seq<char>, es: Seq<EntryModel>, k: int)
    requires
        0 <= k < plan(scopes, dir, es).len(),
    ensures
        exists|j: int|
            0 <= j < es.len() && admitted(scopes, dir, es[j]) && #[trigger] task_of(dir, es[j])
                == plan(scopes, dir, es)[k],
    decreases es.len(),
{
    let rest = plan(scopes, dir, es.drop_first());
    if k < rest.len() {
        lemma_plan_from_admitted(scopes, dir, es.drop_first(), k);
        let j = choose|j: int|
            0 <= j < es.drop_first().len() && admitted(scopes, dir, es.drop_first()[j])
                && #[trigger] task_of(dir, es.drop_first()[j]) == rest[k];
        assert(es[j + 1] == es.drop_first()[j]);
        assert(task_of(dir, es[j + 1]) == plan(scopes, dir, es)[k]);
    } else {
        assert(task_of(dir, es[0]) == plan(scopes, dir, es)[k]);
    }
}

/// Every kept entry of a listing is planned: a kept file is emitted, a kept
/// directory is walked.
pub proof fn lemma_admitted_planned(scopes: Seq<ScopeModel>, dir: Seq<char>, es: Seq<EntryModel>, i: int)
    requires
        0 <= i < es.len(),
        admitted(scopes, dir, es[i]),
    ensures
        plan(scopes, dir, es).contains(task_of(dir, es[i])),
    decreases es.len(),
{
    let p = plan(scopes, dir, es);
    if i == 0 {
        assert(p[p.len() - 1] == task_of(dir, es[0]));
    } else {
        assert(es.drop_first()[i - 1] == es[i]);
        lemma_admitted_planned(scopes, dir, es.drop_first(), i - 1);
        let rest = plan(scopes, dir, es.drop_first());
        let k = choose|k: int| 0 <= k < rest.len() && rest[k] == task_of(dir, es[i]);
        assert(p[k] == rest[k]);
    }
}

/// A file of a listing that is not `.git`, not the ignore file, and not
/// ignored by the matchers in scope is planned for the result, as one task.
pub proof fn lemma_kept_file_planned_once(
    scopes: Seq<ScopeModel>,
    dir: Seq<char>,
    es: Seq<EntryModel>,
    i: int,
)
    requires
        0 <= i < es.len(),
        distinct_names(es),
        !es[i].is_dir,
        admitted(scopes, dir, es[i]),
    ensures
        plan(scopes, dir, es).contains(TaskModel::File(child_path(dir, es[i].name))),
        forall|k1: int, k2: int|
            0 <= k1 < k2 < plan(scopes, dir, es).len() ==> plan(scopes, dir, es)[k1] != plan(
                scopes,
                dir,
                es,
            )[k2],
{
    lemma_admitted_planned(scopes, dir, es, i);
    lemma_plan_distinct(scopes, dir, es);
}

/// With distinct names, no task is planned twice.
pub proof fn lemma_plan_distinct(scopes: Seq<ScopeModel>, dir: Seq<char>, es: Seq<EntryModel>)
    requires
        distinct_names(es),
    ensures
        forall|k1: int, k2: int|
            0 <= k1 < k2 < plan(scopes, dir, es).len() ==> plan(scopes, dir, es)[k1] != plan(
                scopes,
                dir,
                es,
            )[k2],
    decreases es.len(),
{
    if es.len() > 0 {
        let rest = plan(scopes, dir, es.drop_first());
        assert(distinct_names(es.drop_first())) by {
            assert forall|i: int, j: int| 0 <= i < j < es.drop_first().len() implies es.drop_first()[i].name
                != es.drop_first()[j].name by {
                assert(es.drop_first()[i] == es[i + 1]);
                assert(es.drop_first()[j] == es[j + 1]);
            }
        }
        lemma_plan_distinct(scopes, dir, es.drop_first());
        let p = plan(scopes, dir, es);
        if admitted(scopes, dir, es[0]) {
            assert forall|k1: int, k2: int| 0 <= k1 < k2 < p.len() implies p[k1] != p[k2] by {
                if k2 == p.len() - 1 {
                    lemma_plan_from_admitted(scopes, dir, es.drop_first(), k1);
                    let j = choose|j: int|
                        0 <= j < es.drop_first().len() && admitted(scopes, dir, es.drop_first()[j])
                            && #[trigger] task_of(dir, es.drop_first()[j]) == rest[k1];
                    assert(es.drop_first()[j] == es[j + 1]);
                    if p[k1] == p[k2] {
                        lemma_child_path_injective(dir, es[j + 1].name, es[0].name);
                    }
                } else {
                    assert(p[k1] == rest[k1] && p[k2] == rest[k2]);
                }
            }
        }
    }
}

/// Kept entries are visited in the listing's order: of two kept entries, the
/// earlier one's task lies nearer the top of the work stack (the later end),
/// so it, and all its subtree, comes first.
pub proof fn lemma_plan_keeps_listing_order(
    scopes: Seq<ScopeModel>,
    dir: Seq<char>,
    es: Seq<EntryModel>,
    i: int,
    j: int,
)
    requires
        0 <= i < j < es.len(),
        admitted(scopes, dir, es[i]),
        admitted(scopes, dir, es[j]),
    ensures
        exists|k1: int, k2: int|
            0 <= k2 < k1 < plan(scopes, dir, es).len() && #[trigger] plan(scopes, dir, es)[k1]
                == task_of(dir, es[i]) && #[trigger] plan(scopes, dir, es)[k2] == task_of(dir, es[j]),
    decreases es.len(),
{
    let p = plan(scopes, dir, es);
    let rest = plan(scopes, dir, es.drop_first());
    assert(es.drop_first()[j - 1] == es[j]);
    if i == 0 {
        lemma_admitted_planned(scopes, dir, es.drop_first(), j - 1);
        let k2 = choose|k: int| 0 <= k < rest.len() && rest[k] == task_of(dir, es[j]);
        assert(p[p.len() - 1] == task_of(dir, es[0]));
        assert(p[k2] == rest[k2]);
    } else {
        assert(es.drop_first()[i - 1] == es[i]);
        lemma_plan_keeps_listing_order(scopes, dir, es.drop_first(), i - 1, j - 1);
        let (k1, k2) = choose|k1: int, k2: int|
            0 <= k2 < k1 < rest.len() && #[trigger] rest[k1] == task_of(dir, es[i]) && #[trigger] rest[k2]
                == task_of(dir, es[j]);
        assert(p[k1] == rest[k1] && p[k2] == rest[k2]);
    }
}

/// Pruning: a directory that the matchers in scope ignore is never planned,
/// so it is never listed, and nothing beneath it (ignore files included) is
/// ever read, whatever a nested ignore file would say.
pub proof fn lemma_pruned_directory_never_listed(
    scopes: Seq<ScopeModel>,
    dir: Seq<char>,
    es: Seq<EntryModel>,
    i: int,
)
    requires
        0 <= i < es.len(),
        distinct_names(es),
        es[i].is_dir,
        resolve_scopes(scopes, child_path(dir, es[i].name), true),
    ensures
        !plan(scopes, dir, es).contains(TaskModel::Dir(child_path(dir, es[i].name))),
{
    let p = plan(scopes, dir, es);
    if p.contains(TaskModel::Dir(child_path(dir, es[i].name))) {
        let k = choose|k: int| 0 <= k < p.len() && p[k] == TaskModel::Dir(child_path(dir, es[i].name));
        lemma_plan_from_admitted(scopes, dir, es, k);
        let j = choose|j: int| 0 <= j < es.len() && admitted(scopes, dir, es[j]) && #[trigger] task_of(dir, es[j]) == p[k];
        lemma_child_path_injective(dir, es[j].name, es[i].name);
    }
}

/// `.git` is never kept, whatever the ignore files in scope say: an entry of
/// that name, in any case, is neither emitted nor walked.
pub proof fn lemma_git_never_kept(
    scopes: Seq<ScopeModel>,
    dir: Seq<char>,
    es: Seq<EntryModel>,
    i: int,
)
    requires
        0 <= i < es.len(),
        distinct_names(es),
        is_git_name(es[i].name),
    ensures
        !admitted(scopes, dir, es[i]),
        !plan(scopes, dir, es).contains(task_of(dir, es[i])),
{
    let p = plan(scopes, dir, es);
    if p.contains(task_of(dir, es[i])) {
        let k = choose|k: int| 0 <= k < p.len() && p[k] == task_of(dir, es[i]);
        lemma_plan_from_admitted(scopes, dir, es, k);
        let j = choose|j: int| 0 <= j < es.len() && admitted(scopes, dir, es[j]) && #[trigger] task_of(dir, es[j]) == p[k];
        lemma_child_path_injective(dir, es[j].name, es[i].name);
    }
}

/// A root that cannot be listed fails the scan, and a failed scan stays failed:
/// it never ends as a success, empty or not.
pub proof fn lemma_unlistable_root_fails()
    ensures
        advance(initial()).phase == Phase::Listing,
        advance(initial()).dir == Seq::<char>::empty(),
        after_listing(advance(initial()), None).phase == Phase::Failed,
        advance(after_listing(advance(initial()), None)) == after_listing(advance(initial()), None),
{
    let m = initial();
    assert(m.todo.last() == TaskModel::Dir(Seq::empty()));
}

/// `*` followed by a literal that does not start with `*` matches any run of
/// non-separators followed by that literal.
pub proof fn lemma_star_then_literal(lit: Seq<char>, pre: Seq<char>)
    requires
        lit.len() > 0,
        is_literal(lit),
        forall|i: int| 0 <= i < pre.len() ==> pre[i] != SEP,
    ensures
        glob(seq!['*'] + lit, pre + lit),
    decreases pre.len(),
{
    let p = seq!['*'] + lit;
    assert(p.drop_first() =~= lit);
    assert(p[1] == lit[0]);
    if pre.len() == 0 {
        assert(pre + lit =~= lit);
        lemma_literal_matches_itself(lit);
    } else {
        assert((pre + lit).drop_first() =~= pre.drop_first() + lit);
        assert((pre + lit)[0] == pre[0]);
        lemma_star_then_literal(lit, pre.drop_first());
    }
}

pub open spec fn log_suffix() -> Seq<char> {
    seq!['.', 'l', 'o', 'g']
}

pub open spec fn keep_log() -> Seq<char> {
    seq!['k', 'e', 'e', 'p', '.', 'l', 'o', 'g']
}

/// The rule `*.log`.
pub open spec fn ignore_logs() -> RuleModel {
    RuleModel { pattern: seq!['*'] + log_suffix(), negated: false, anchored: false, directory_only: false }
}

/// The rule `!keep.log`.
pub open spec fn keep_keep_log() -> RuleModel {
    RuleModel { pattern: keep_log(), negated: true, anchored: false, directory_only: false }
}

/// Negation across ignore files: with `*.log` in the root's ignore file and
/// `!keep.log` in that of a directory `d`, the file `d/keep.log` is kept,
/// though the root's rule alone would ignore it.
pub proof fn lemma_nested_negation_wins(d: Seq<char>)
    requires
        d.len() > 0,
    ensures
        resolve_scopes(
            seq![ScopeModel { base: Seq::empty(), rules: seq![ignore_logs()] }],
            child_path(d, keep_log()),
            false,
        ),
        !resolve_scopes(
            seq![
                ScopeModel { base: Seq::empty(), rules: seq![ignore_logs()] },
                ScopeModel { base: d, rules: seq![keep_keep_log()] },
            ],
            child_path(d, keep_log()),
            false,
        ),
{
    let path = child_path(d, keep_log());
    let root = ScopeModel { base: Seq::empty(), rules: seq![ignore_logs()] };
    let near = ScopeModel { base: d, rules: seq![keep_keep_log()] };
    // The root's rule matches the file's name, after the last separator.
    let k = d.len() + 1;
    assert(path.subrange(k as int, path.len() as int) =~= keep_log());
    assert(keep_log() =~= seq!['k', 'e', 'e', 'p'] + log_suffix());
    lemma_star_then_literal(log_suffix(), seq!['k', 'e', 'e', 'p']);
    assert(path[k - 1] == SEP);
    assert(glob(ignore_logs().pattern, path.subrange(k as int, path.len() as int)));
    assert(matches_at_some_depth(ignore_logs().pattern, path));
    assert(rule_matches(ignore_logs(), relative(path, Seq::empty()), false));
    assert(seq![ignore_logs()].drop_last() =~= Seq::<RuleModel>::empty());
    assert(scope_decision(root, path, false) == Decision::Ignore);
    assert(seq![root].drop_last() =~= Seq::<ScopeModel>::empty());
    // The nearer rule matches the file's path relative to `d`.
    assert(path.subrange(0, d.len() as int) =~= d);
    assert(strictly_under(path, d));
    assert(relative(path, d) =~= keep_log());
    lemma_literal_matches_itself(keep_log());
    assert(keep_log().subrange(0, keep_log().len() as int) =~= keep_log());
    assert(matches_at_some_depth(keep_log(), keep_log()));
    assert(seq![keep_keep_log()].drop_last() =~= Seq::<RuleModel>::empty());
    assert(evaluate_rules(near.rules, relative(path, d), false) == Decision::Whitelist);
    assert(scope_decision(near, path, false) == Decision::Whitelist);
    assert(seq![root, near].last() == near);
}

} // verus!
