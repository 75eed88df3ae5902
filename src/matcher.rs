use vstd::prelude::*;
use crate::glob::{glob, glob_match, SEP};
use crate::rules::{
    chars_of, classify_line, copy_range, malformed_of, rules_of, rules_of_text,
    split_lines, IgnoreRule, LineKind, RuleModel,
};

verus! {

/// What one ignore file says of a path.
#[derive(PartialEq, Eq, Structural, Clone, Copy, Debug)]
pub enum Decision {
    Ignore,
    Whitelist,
    NoOpinion,
}

/// Whether the glob matches `rel` from some component boundary on: from the
/// start, or just after some separator.
pub open spec fn matches_at_some_depth(p: Seq<char>, rel: Seq<char>) -> bool {
    exists|k: int|
        0 <= k <= rel.len() && (k == 0 || rel[k - 1] == SEP) && #[trigger] glob(
            p,
            rel.subrange(k, rel.len() as int),
        )
}

/// Whether a rule matches a path given relative to the rule's base directory.
pub open spec fn rule_matches(r: RuleModel, rel: Seq<char>, is_dir: bool) -> bool {
    &&& (!r.directory_only || is_dir)
    &&& if r.anchored {
        glob(r.pattern, rel)
    } else {
        matches_at_some_depth(r.pattern, rel)
    }
}

/// The decision of the last rule that matches, or `NoOpinion` where none does.
pub open spec fn evaluate_rules(rules: Seq<RuleModel>, rel: Seq<char>, is_dir: bool) -> Decision
    decreases rules.len(),
{
    if rules.len() == 0 {
        Decision::NoOpinion
    } else if rule_matches(rules.last(), rel, is_dir) {
        if rules.last().negated {
            Decision::Whitelist
        } else {
            Decision::Ignore
        }
    } else {
        evaluate_rules(rules.drop_last(), rel, is_dir)
    }
}

/// The ordered rules of one ignore file.
#[derive(Debug)]
pub struct Matcher {
    pub rules: Vec<IgnoreRule>,
    /// The lines (counted from 0) that were skipped as malformed.
    pub malformed: Vec<usize>,
}

impl View for Matcher {
    type V = Seq<RuleModel>;

    open spec fn view(&self) -> Seq<RuleModel> {
        self.rules@.map_values(|r: IgnoreRule| r@)
    }
}

/// Whether `r` matches `rel`.
pub fn rule_matches_path(r: &IgnoreRule, rel: &Vec<char>, is_dir: bool) -> (b: bool)
    ensures
        b == rule_matches(r@, rel@, is_dir),
{
    if r.directory_only && !is_dir {
        return false;
    }
    if r.anchored {
        return glob_match(&r.pattern, rel);
    }
    let n = rel.len();
    let mut k: usize = 0;
    loop
        invariant
            n == rel.len(),
            k <= n,
            !r.anchored,
            !r.directory_only || is_dir,
            forall|j: int|
                0 <= j < k && (j == 0 || rel@[j - 1] == SEP) ==> !glob(
                    r.pattern@,
                    #[trigger] rel@.subrange(j, n as int),
                ),
        decreases n - k,
    {
        if k == 0 || rel[k - 1] == SEP {
            let suffix = copy_range(rel, k, n);
            if glob_match(&r.pattern, &suffix) {
                assert(glob(r.pattern@, rel@.subrange(k as int, rel@.len() as int)));
                assert(matches_at_some_depth(r.pattern@, rel@));
                return true;
            }
        }
        if k == n {
            return false;
        }
        k = k + 1;
    }
}

impl Matcher {
    /// A matcher with no rules.
    pub fn empty() -> (m: Matcher)
        ensures
            m@ == Seq::<RuleModel>::empty(),
    {
        let m = Matcher { rules: Vec::new(), malformed: Vec::new() };
        assert(m@ =~= Seq::<RuleModel>::empty());
        m
    }

    /// Compiles the text of an ignore file: one rule per line that is not blank,
    /// a comment or malformed, in file order; malformed lines are recorded.
    pub fn compile(text: &str) -> (m: Matcher)
        ensures
            m@ == rules_of_text(text@),
            m.malformed@.map_values(|k: usize| k as int) == malformed_of(split_lines(text@)),
    {
        let cs = chars_of(text);
        let n = cs.len();
        let mut rules: Vec<IgnoreRule> = Vec::new();
        let mut cur: Vec<char> = Vec::new();
        let mut malformed: Vec<usize> = Vec::new();
        let mut line_no: usize = 0;
        let mut i: usize = 0;
        assert(cs@.subrange(0, 0) =~= Seq::<char>::empty());
        assert(rules@.map_values(|r: IgnoreRule| r@) =~= rules_of(
            split_lines(cs@.subrange(0, 0)).drop_last(),
        ));
        assert(malformed@.map_values(|k: usize| k as int) =~= malformed_of(
            split_lines(cs@.subrange(0, 0)).drop_last(),
        ));
        while i < n
            invariant
                i <= n == cs.len(),
                cur@ == split_lines(cs@.subrange(0, i as int)).last(),
                rules@.map_values(|r: IgnoreRule| r@) == rules_of(
                    split_lines(cs@.subrange(0, i as int)).drop_last(),
                ),
                malformed@.map_values(|k: usize| k as int) == malformed_of(
                    split_lines(cs@.subrange(0, i as int)).drop_last(),
                ),
                line_no + 1 == split_lines(cs@.subrange(0, i as int)).len(),
            decreases n - i,
        {
            let ghost before = split_lines(cs@.subrange(0, i as int));
            let ghost after = split_lines(cs@.subrange(0, i + 1));
            proof {
                crate::rules::lemma_split_lines_len(cs@.subrange(0, i as int));
                assert(cs@.subrange(0, i + 1).drop_last() =~= cs@.subrange(0, i as int));
            }
            let c = cs[i];
            if c == '\n' {
                assert(after == before.push(Seq::empty()));
                assert(after.drop_last() =~= before);
                assert(before =~= before.drop_last().push(before.last()));
                let ghost old_rules = rules@.map_values(|r: IgnoreRule| r@);
                let ghost old_bad = malformed@.map_values(|k: usize| k as int);
                match classify_line(&cur) {
                    LineKind::Rule(rule) => {
                        rules.push(rule);
                        assert(rules@.map_values(|r: IgnoreRule| r@) =~= old_rules.push(
                            rule@,
                        ));
                    },
                    LineKind::Malformed => {
                        malformed.push(line_no);
                        assert(malformed@.map_values(|k: usize| k as int) =~= old_bad.push(
                            line_no as int,
                        ));
                    },
                    LineKind::Blank => {},
                }
                line_no = line_no + 1;
                cur = Vec::new();
                assert(cur@ =~= after.last());
            } else {
                cur.push(c);
                assert(after.drop_last() =~= before.drop_last());
                assert(cur@ =~= after.last());
            }
            i = i + 1;
        }
        let ghost all = split_lines(cs@.subrange(0, n as int));
        proof {
            crate::rules::lemma_split_lines_len(cs@.subrange(0, n as int));
            assert(cs@.subrange(0, n as int) =~= cs@);
            assert(all =~= all.drop_last().push(all.last()));
        }
        let ghost old_rules = rules@.map_values(|r: IgnoreRule| r@);
        let ghost old_bad = malformed@.map_values(|k: usize| k as int);
        match classify_line(&cur) {
            LineKind::Rule(rule) => {
                rules.push(rule);
                assert(rules@.map_values(|r: IgnoreRule| r@) =~= old_rules.push(rule@));
            },
            LineKind::Malformed => {
                malformed.push(line_no);
                assert(malformed@.map_values(|k: usize| k as int) =~= old_bad.push(line_no as int));
            },
            LineKind::Blank => {},
        }
        Matcher { rules, malformed }
    }

    /// What this matcher says of a path relative to its base directory: the last
    /// matching rule decides.
    pub fn evaluate(&self, rel: &Vec<char>, is_dir: bool) -> (d: Decision)
        ensures
            d == evaluate_rules(self@, rel@, is_dir),
    {
        let mut i: usize = self.rules.len();
        assert(self@.subrange(0, i as int) =~= self@);
        while i > 0
            invariant
                i <= self.rules.len(),
                evaluate_rules(self@.subrange(0, i as int), rel@, is_dir) == evaluate_rules(
                    self@,
                    rel@,
                    is_dir,
                ),
            decreases i,
        {
            let ghost sub = self@.subrange(0, i as int);
            assert(sub.last() == self.rules@[i - 1]@);
            assert(sub.drop_last() =~= self@.subrange(0, i - 1));
            let r = &self.rules[i - 1];
            if rule_matches_path(r, rel, is_dir) {
                return if r.negated {
                    Decision::Whitelist
                } else {
                    Decision::Ignore
                };
            }
            i = i - 1;
        }
        Decision::NoOpinion
    }
}

} // verus!
