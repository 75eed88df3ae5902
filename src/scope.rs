use vstd::prelude::*;
use crate::glob::SEP;
use crate::matcher::{evaluate_rules, Decision, Matcher};
use crate::rules::{copy_range, RuleModel};

verus! {

/// A matcher in scope, with the directory (relative to the scan root, `/`
/// between components, empty for the root) whose ignore file it came from.
pub struct ScopeModel {
    pub base: Seq<char>,
    pub rules: Seq<RuleModel>,
}

/// Whether `path` lies strictly beneath the directory `base`.
pub open spec fn strictly_under(path: Seq<char>, base: Seq<char>) -> bool {
    if base.len() == 0 {
        path.len() > 0
    } else {
        &&& path.len() > base.len() + 1
        &&& path.subrange(0, base.len() as int) == base
        &&& path[base.len() as int] == SEP
    }
}

/// Whether `dir` is `path` or one of its ancestors.
pub open spec fn within(path: Seq<char>, dir: Seq<char>) -> bool {
    path == dir || strictly_under(path, dir)
}

/// `path` relative to the directory `base` beneath which it lies.
pub open spec fn relative(path: Seq<char>, base: Seq<char>) -> Seq<char> {
    if base.len() == 0 {
        path
    } else {
        path.subrange(base.len() as int + 1, path.len() as int)
    }
}

/// What one scope says of a path: nothing unless the path lies beneath its base.
pub open spec fn scope_decision(s: ScopeModel, path: Seq<char>, is_dir: bool) -> Decision {
    if strictly_under(path, s.base) {
        evaluate_rules(s.rules, relative(path, s.base), is_dir)
    } else {
        Decision::NoOpinion
    }
}

/// Whether a path is ignored: the nearest scope with an opinion decides, and a
/// path on which no scope has one is kept.
pub open spec fn resolve_scopes(scopes: Seq<ScopeModel>, path: Seq<char>, is_dir: bool) -> bool
    decreases scopes.len(),
{
    if scopes.len() == 0 {
        false
    } else {
        match scope_decision(scopes.last(), path, is_dir) {
            Decision::Ignore => true,
            Decision::Whitelist => false,
            Decision::NoOpinion => resolve_scopes(scopes.drop_last(), path, is_dir),
        }
    }
}

/// The stack without the scopes on top whose base is `dir` or lies beneath it.
pub open spec fn pop_within(scopes: Seq<ScopeModel>, dir: Seq<char>) -> Seq<ScopeModel>
    decreases scopes.len(),
{
    if scopes.len() > 0 && within(scopes.last().base, dir) {
        pop_within(scopes.drop_last(), dir)
    } else {
        scopes
    }
}

/// The scopes whose base is `dir` or one of its ancestors, in their order.
pub open spec fn keep_ancestors(scopes: Seq<ScopeModel>, dir: Seq<char>) -> Seq<ScopeModel>
    decreases scopes.len(),
{
    if scopes.len() == 0 {
        Seq::empty()
    } else {
        let rest = keep_ancestors(scopes.drop_first(), dir);
        if within(dir, scopes[0].base) {
            seq![scopes[0]] + rest
        } else {
            rest
        }
    }
}

/// A matcher in scope, with its base directory.
#[derive(Debug)]
pub struct Scope {
    pub base: Vec<char>,
    pub matcher: Matcher,
}

impl View for Scope {
    type V = ScopeModel;

    open spec fn view(&self) -> ScopeModel {
        ScopeModel { base: self.base@, rules: self.matcher@ }
    }
}

/// The matchers in scope, from the root-most (first) to the nearest (last).
#[derive(Debug)]
pub struct ScopeStack {
    pub scopes: Vec<Scope>,
}

impl View for ScopeStack {
    type V = Seq<ScopeModel>;

    open spec fn view(&self) -> Seq<ScopeModel> {
        self.scopes@.map_values(|s: Scope| s@)
    }
}

/// Whether `v` begins with `prefix`.
pub fn starts_with(v: &Vec<char>, prefix: &Vec<char>) -> (r: bool)
    ensures
        r == (prefix.len() <= v.len() && v@.subrange(0, prefix.len() as int) == prefix@),
{
    if prefix.len() > v.len() {
        return false;
    }
    let mut i: usize = 0;
    while i < prefix.len()
        invariant
            prefix.len() <= v.len(),
            i <= prefix.len(),
            forall|j: int| 0 <= j < i ==> v@[j] == prefix@[j],
        decreases prefix.len() - i,
    {
        if v[i] != prefix[i] {
            assert(v@.subrange(0, prefix.len() as int)[i as int] != prefix@[i as int]);
            return false;
        }
        i = i + 1;
    }
    assert(v@.subrange(0, prefix.len() as int) =~= prefix@);
    true
}

/// Whether `path` lies strictly beneath the directory `base`.
pub fn is_strictly_under(path: &Vec<char>, base: &Vec<char>) -> (r: bool)
    ensures
        r == strictly_under(path@, base@),
{
    if base.len() == 0 {
        return path.len() > 0;
    }
    if path.len() <= base.len() || path.len() - base.len() < 2 {
        return false;
    }
    starts_with(path, base) && path[base.len()] == SEP
}

/// Whether `dir` is `path` or one of its ancestors.
pub fn is_within(path: &Vec<char>, dir: &Vec<char>) -> (r: bool)
    ensures
        r == within(path@, dir@),
{
    assert(path@.subrange(0, path.len() as int) =~= path@);
    if path.len() == dir.len() && starts_with(path, dir) {
        return true;
    }
    is_strictly_under(path, dir)
}

impl ScopeStack {
    /// A stack with no matcher in scope.
    pub fn new() -> (s: ScopeStack)
        ensures
            s@ == Seq::<ScopeModel>::empty(),
    {
        let s = ScopeStack { scopes: Vec::new() };
        assert(s@ =~= Seq::<ScopeModel>::empty());
        s
    }

    /// The number of matchers in scope.
    pub fn len(&self) -> (n: usize)
        ensures
            n == self@.len(),
    {
        self.scopes.len()
    }

    /// Puts the matcher of the ignore file in `base` on top.
    pub fn push(&mut self, base: Vec<char>, matcher: Matcher)
        ensures
            final(self)@ == old(self)@.push(ScopeModel { base: base@, rules: matcher@ }),
    {
        let s = Scope { base, matcher };
        self.scopes.push(s);
        assert(self@ =~= old(self)@.push(s@));
    }

    /// Takes off the top every matcher whose base is `dir` or lies beneath it.
    pub fn pop_within(&mut self, dir: &Vec<char>)
        ensures
            final(self)@ == pop_within(old(self)@, dir@),
    {
        while self.scopes.len() > 0 && is_within(&self.scopes[self.scopes.len() - 1].base, dir)
            invariant
                pop_within(self@, dir@) == pop_within(old(self)@, dir@),
            decreases self.scopes.len(),
        {
            let ghost before = self@;
            self.scopes.pop();
            assert(self@ =~= before.drop_last());
        }
    }

    /// Removes every matcher whose base is not `dir` or one of its ancestors,
    /// keeping the order of the others: the stack for a move to `dir`.
    pub fn pop_below(&mut self, dir: &Vec<char>)
        ensures
            final(self)@ == keep_ancestors(old(self)@, dir@),
    {
        let ghost start = self@;
        let n = self.scopes.len();
        let mut i: usize = n;
        assert(start.subrange(n as int, n as int) =~= Seq::<ScopeModel>::empty());
        assert(start.subrange(0, n as int) + Seq::<ScopeModel>::empty() =~= start);
        while i > 0
            invariant
                i <= n == start.len(),
                self@ == start.subrange(0, i as int) + keep_ancestors(
                    start.subrange(i as int, n as int),
                    dir@,
                ),
            decreases i,
        {
            let ghost tail = start.subrange(i - 1, n as int);
            let ghost kept = keep_ancestors(start.subrange(i as int, n as int), dir@);
            assert(tail.drop_first() =~= start.subrange(i as int, n as int));
            assert(tail[0] == start[i - 1]);
            assert(self@[i - 1] == start[i - 1]);
            assert(self@.len() == self.scopes@.len());
            assert(self.scopes@[i - 1]@ == self@[i - 1]);
            if is_within(dir, &self.scopes[i - 1].base) {
                assert(start.subrange(0, i as int) + kept =~= start.subrange(0, i - 1) + (seq![
                    start[i - 1],
                ] + kept));
            } else {
                let ghost before = self.scopes@;
                let ghost v0 = self@;
                self.scopes.remove(i - 1);
                assert(self.scopes@ == before.remove(i - 1));
                assert(self@ =~= v0.remove(i - 1));
                assert(v0.remove(i - 1) =~= start.subrange(0, i - 1) + kept);
            }
            i = i - 1;
        }
        assert(start.subrange(0, 0) + keep_ancestors(start, dir@) =~= keep_ancestors(start, dir@));
        assert(start.subrange(0, n as int) =~= start);
    }

    /// Whether `path` (relative to the scan root) is ignored: the nearest
    /// matcher in whose subtree it lies and that has an opinion decides.
    pub fn resolve(&self, path: &Vec<char>, is_dir: bool) -> (ignored: bool)
        ensures
            ignored == resolve_scopes(self@, path@, is_dir),
    {
        let mut i: usize = self.scopes.len();
        assert(self@.subrange(0, i as int) =~= self@);
        while i > 0
            invariant
                i <= self.scopes.len(),
                resolve_scopes(self@.subrange(0, i as int), path@, is_dir) == resolve_scopes(
                    self@,
                    path@,
                    is_dir,
                ),
            decreases i,
        {
            let ghost sub = self@.subrange(0, i as int);
            assert(sub.last() == self.scopes@[i - 1]@);
            assert(sub.drop_last() =~= self@.subrange(0, i - 1));
            let s = &self.scopes[i - 1];
            if is_strictly_under(path, &s.base) {
                assert(strictly_under(path@, s.base@));
                let rel = if s.base.len() == 0 {
                    copy_range(path, 0, path.len())
                } else {
                    let blen = s.base.len();
                    assert(blen + 1 < path.len());
                    copy_range(path, blen + 1, path.len())
                };
                assert(rel@ =~= relative(path@, s.base@));
                match s.matcher.evaluate(&rel, is_dir) {
                    Decision::Ignore => {
                        return true;
                    },
                    Decision::Whitelist => {
                        return false;
                    },
                    Decision::NoOpinion => {},
                }
            }
            i = i - 1;
        }
        false
    }
}

} // verus!
