use vstd::prelude::*;

verus! {

/// One compiled line of an ignore file, in mathematical form.
pub struct RuleModel {
    pub pattern: Seq<char>,
    pub negated: bool,
    pub anchored: bool,
    pub directory_only: bool,
}

/// One compiled line of an ignore file.
#[derive(Debug)]
pub struct IgnoreRule {
    /// The glob that remains once the markers are stripped.
    pub pattern: Vec<char>,
    /// The line began with `!`: a match whitelists the path.
    pub negated: bool,
    /// The line began with `/` (after any `!`): the glob must match from the base directory.
    pub anchored: bool,
    /// The line ended with `/`: the rule never matches a plain file.
    pub directory_only: bool,
}

impl View for IgnoreRule {
    type V = RuleModel;

    open spec fn view(&self) -> RuleModel {
        RuleModel {
            pattern: self.pattern@,
            negated: self.negated,
            anchored: self.anchored,
            directory_only: self.directory_only,
        }
    }
}

/// The name of the file that holds a directory's ignore rules.
pub open spec fn ignore_file_name() -> Seq<char> {
    seq!['.', 'g', 'i', 't', 'i', 'g', 'n', 'o', 'r', 'e']
}

pub open spec fn is_space(c: char) -> bool {
    c == ' ' || c == '\t' || c == '\r'
}

pub open spec fn trim_start(s: Seq<char>) -> Seq<char>
    decreases s.len(),
{
    if s.len() > 0 && is_space(s[0]) {
        trim_start(s.drop_first())
    } else {
        s
    }
}

pub open spec fn trim_end(s: Seq<char>) -> Seq<char>
    decreases s.len(),
{
    if s.len() > 0 && is_space(s.last()) {
        trim_end(s.drop_last())
    } else {
        s
    }
}

/// A line without its surrounding white space.
pub open spec fn trim(s: Seq<char>) -> Seq<char> {
    trim_end(trim_start(s))
}

/// A line that carries no rule: blank, or a comment.
pub open spec fn is_blank_or_comment(line: Seq<char>) -> bool {
    trim(line).len() == 0 || trim(line)[0] == '#'
}

/// The trimmed line without a leading `!`.
pub open spec fn after_negation(line: Seq<char>) -> Seq<char> {
    let s = trim(line);
    if s.len() > 0 && s[0] == '!' { s.drop_first() } else { s }
}

/// That, without a leading `/`.
pub open spec fn after_anchor(line: Seq<char>) -> Seq<char> {
    let s = after_negation(line);
    if s.len() > 0 && s[0] == '/' { s.drop_first() } else { s }
}

/// That, without a trailing `/`: the glob of the rule.
pub open spec fn glob_part(line: Seq<char>) -> Seq<char> {
    let s = after_anchor(line);
    if s.len() > 0 && s.last() == '/' { s.drop_last() } else { s }
}

/// A line that should hold a rule but leaves an empty glob (`!`, `/`, `!//`).
pub open spec fn is_malformed(line: Seq<char>) -> bool {
    !is_blank_or_comment(line) && glob_part(line).len() == 0
}

/// The rule that one line of an ignore file compiles to, if any.
pub open spec fn line_rule(line: Seq<char>) -> Option<RuleModel> {
    if is_blank_or_comment(line) || is_malformed(line) {
        None
    } else {
        let s = trim(line);
        let a = after_negation(line);
        let b = after_anchor(line);
        Some(
            RuleModel {
                pattern: glob_part(line),
                negated: s[0] == '!',
                anchored: a.len() > 0 && a[0] == '/',
                directory_only: b.len() > 0 && b.last() == '/',
            },
        )
    }
}

/// The lines of a text, split at each `\n`; a text of n newlines has n + 1 lines.
pub open spec fn split_lines(s: Seq<char>) -> Seq<Seq<char>>
    decreases s.len(),
{
    if s.len() == 0 {
        seq![Seq::empty()]
    } else {
        let prev = split_lines(s.drop_last());
        if s.last() == '\n' {
            prev.push(Seq::empty())
        } else {
            prev.update(prev.len() - 1, prev.last().push(s.last()))
        }
    }
}

pub proof fn lemma_split_lines_len(s: Seq<char>)
    ensures
        1 <= split_lines(s).len() <= s.len() + 1,
    decreases s.len(),
{
    if s.len() > 0 {
        lemma_split_lines_len(s.drop_last());
    }
}

/// The rules of a sequence of lines, in line order.
pub open spec fn rules_of(lines: Seq<Seq<char>>) -> Seq<RuleModel>
    decreases lines.len(),
{
    if lines.len() == 0 {
        Seq::empty()
    } else {
        let prev = rules_of(lines.drop_last());
        match line_rule(lines.last()) {
            Some(r) => prev.push(r),
            None => prev,
        }
    }
}

/// The indices (from 0) of the malformed lines among `lines`, in order.
pub open spec fn malformed_of(lines: Seq<Seq<char>>) -> Seq<int>
    decreases lines.len(),
{
    if lines.len() == 0 {
        Seq::empty()
    } else {
        let prev = malformed_of(lines.drop_last());
        if is_malformed(lines.last()) {
            prev.push(lines.len() - 1)
        } else {
            prev
        }
    }
}

/// The rules of an ignore file's text, in file order.
pub open spec fn rules_of_text(text: Seq<char>) -> Seq<RuleModel> {
    rules_of(split_lines(text))
}

/// The characters `v[a..b]`, copied.
pub fn copy_range(v: &Vec<char>, a: usize, b: usize) -> (r: Vec<char>)
    requires
        a <= b <= v.len(),
    ensures
        r@ == v@.subrange(a as int, b as int),
{
    let mut r: Vec<char> = Vec::new();
    let mut i: usize = a;
    while i < b
        invariant
            a <= i <= b <= v.len(),
            r@ == v@.subrange(a as int, i as int),
        decreases b - i,
    {
        r.push(v[i]);
        assert(r@ =~= v@.subrange(a as int, i + 1));
        i = i + 1;
    }
    r
}

fn is_space_char(c: char) -> (r: bool)
    ensures
        r == is_space(c),
{
    c == ' ' || c == '\t' || c == '\r'
}

/// What one line of an ignore file holds.
#[derive(Debug)]
pub enum LineKind {
    /// A blank line or a comment.
    Blank,
    /// A line that should hold a rule but leaves an empty glob.
    Malformed,
    Rule(IgnoreRule),
}

/// Compiles one line of an ignore file: `None` for a blank line, a comment, or a
/// malformed line.
pub fn compile_line(line: &Vec<char>) -> (r: Option<IgnoreRule>)
    ensures
        (match r {
            Some(x) => Some(x@),
            None => None,
        }) == line_rule(line@),
{
    match classify_line(line) {
        LineKind::Rule(x) => Some(x),
        _ => None,
    }
}

/// Sorts one line of an ignore file into blank, malformed, or a rule.
pub fn classify_line(line: &Vec<char>) -> (r: LineKind)
    ensures
        match r {
            LineKind::Blank => is_blank_or_comment(line@),
            LineKind::Malformed => is_malformed(line@),
            LineKind::Rule(x) => line_rule(line@) == Some(x@),
        },
{
    let n = line.len();
    let mut a: usize = 0;
    assert(line@.subrange(0, n as int) =~= line@);
    while a < n && is_space_char(line[a])
        invariant
            a <= n == line.len(),
            trim_start(line@.subrange(a as int, n as int)) == trim_start(line@),
        decreases n - a,
    {
        assert(line@.subrange(a as int, n as int).drop_first() =~= line@.subrange(a + 1, n as int));
        a = a + 1;
    }
    assert(trim_start(line@) == line@.subrange(a as int, n as int));
    let mut b: usize = n;
    while b > a && is_space_char(line[b - 1])
        invariant
            a <= b <= n == line.len(),
            trim_start(line@) == line@.subrange(a as int, n as int),
            trim_end(line@.subrange(a as int, b as int)) == trim(line@),
        decreases b - a,
    {
        assert(line@.subrange(a as int, b as int).drop_last() =~= line@.subrange(a as int, b - 1));
        b = b - 1;
    }
    let ghost s = trim(line@);
    assert(s == line@.subrange(a as int, b as int));
    if a == b || line[a] == '#' {
        return LineKind::Blank;
    }
    let negated = line[a] == '!';
    if negated {
        a = a + 1;
    }
    assert(after_negation(line@) =~= line@.subrange(a as int, b as int));
    let anchored = a < b && line[a] == '/';
    if anchored {
        a = a + 1;
    }
    assert(after_anchor(line@) =~= line@.subrange(a as int, b as int));
    let directory_only = a < b && line[b - 1] == '/';
    if directory_only {
        b = b - 1;
    }
    assert(glob_part(line@) =~= line@.subrange(a as int, b as int));
    if a == b {
        return LineKind::Malformed;
    }
    let pattern = copy_range(line, a, b);
    LineKind::Rule(IgnoreRule { pattern, negated, anchored, directory_only })
}

/// The characters of a string.
pub fn chars_of(s: &str) -> (r: Vec<char>)
    ensures
        r@ == s@,
{
    let n = s.unicode_len();
    let mut r: Vec<char> = Vec::new();
    let mut i: usize = 0;
    while i < n
        invariant
            i <= n == s@.len(),
            r@ == s@.subrange(0, i as int),
        decreases n - i,
    {
        r.push(s.get_char(i));
        assert(r@ =~= s@.subrange(0, i + 1));
        i = i + 1;
    }
    assert(r@ =~= s@);
    r
}

} // verus!
