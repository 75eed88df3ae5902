use vstd::prelude::*;

verus! {

/// The path separator.
pub const SEP: char = '/';

/// Whether the glob pattern `p` matches the whole of `t`.
///
/// `**` matches any run of characters, separators included; `*` matches any
/// run of characters without a separator; `?` matches exactly one character;
/// every other character matches itself.
pub open spec fn glob(p: Seq<char>, t: Seq<char>) -> bool
    decreases p.len(), t.len(),
{
    if p.len() == 0 {
        t.len() == 0
    } else if p[0] == '*' {
        if p.len() >= 2 && p[1] == '*' {
            glob(p.subrange(2, p.len() as int), t) || (t.len() > 0 && glob(p, t.drop_first()))
        } else {
            glob(p.drop_first(), t) || (t.len() > 0 && t[0] != SEP && glob(p, t.drop_first()))
        }
    } else if t.len() == 0 {
        false
    } else if p[0] == '?' {
        glob(p.drop_first(), t.drop_first())
    } else {
        p[0] == t[0] && glob(p.drop_first(), t.drop_first())
    }
}

/// Whether `p` holds no wildcard character.
pub open spec fn is_literal(p: Seq<char>) -> bool {
    forall|i: int| 0 <= i < p.len() ==> p[i] != '*' && p[i] != '?'
}

/// A pattern without wildcards matches exactly itself.
pub proof fn lemma_literal_matches_itself(p: Seq<char>)
    requires
        is_literal(p),
    ensures
        glob(p, p),
    decreases p.len(),
{
    if p.len() > 0 {
        assert(is_literal(p.drop_first()));
        lemma_literal_matches_itself(p.drop_first());
    }
}

/// Matches the suffix `p[i..]` of a pattern against the suffix `t[j..]` of a text.
fn glob_from(p: &Vec<char>, i: usize, t: &Vec<char>, j: usize) -> (r: bool)
    requires
        i <= p.len(),
        j <= t.len(),
    ensures
        r == glob(p@.subrange(i as int, p.len() as int), t@.subrange(j as int, t.len() as int)),
    decreases p.len() - i, t.len() - j,
{
    let ghost ps = p@.subrange(i as int, p.len() as int);
    let ghost ts = t@.subrange(j as int, t.len() as int);
    if i == p.len() {
        return j == t.len();
    }
    assert(ps.drop_first() =~= p@.subrange(i + 1, p.len() as int));
    if j < t.len() {
        assert(ts.drop_first() =~= t@.subrange(j + 1, t.len() as int));
    }
    if p[i] == '*' {
        if i + 1 < p.len() && p[i + 1] == '*' {
            assert(ps.subrange(2, ps.len() as int) =~= p@.subrange(i + 2, p.len() as int));
            if glob_from(p, i + 2, t, j) {
                return true;
            }
            j < t.len() && glob_from(p, i, t, j + 1)
        } else {
            if glob_from(p, i + 1, t, j) {
                return true;
            }
            j < t.len() && t[j] != SEP && glob_from(p, i, t, j + 1)
        }
    } else if j == t.len() {
        false
    } else if p[i] == '?' {
        glob_from(p, i + 1, t, j + 1)
    } else {
        p[i] == t[j] && glob_from(p, i + 1, t, j + 1)
    }
}

/// Whether the glob pattern `p` matches the whole of `t`.
pub fn glob_match(p: &Vec<char>, t: &Vec<char>) -> (r: bool)
    ensures
        r == glob(p@, t@),
{
    assert(p@.subrange(0, p.len() as int) =~= p@);
    assert(t@.subrange(0, t.len() as int) =~= t@);
    glob_from(p, 0, t, 0)
}

} // verus!
