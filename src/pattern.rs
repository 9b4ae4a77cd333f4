//! Wildcard patterns in substring-inclusive mode.
use vstd::prelude::*;
use vstd::string::*;

verus! {

/// Glob matching: `*` stands for any run of characters, `?` for any single
/// character, every other character for itself (case-sensitive).
pub open spec fn glob(p: Seq<char>, s: Seq<char>) -> bool
    decreases p.len() + s.len(),
{
    if p.len() == 0 {
        s.len() == 0
    } else if p[0] == '*' {
        glob(p.drop_first(), s) || (s.len() > 0 && glob(p, s.drop_first()))
    } else {
        s.len() > 0 && (p[0] == '?' || p[0] == s[0]) && glob(p.drop_first(), s.drop_first())
    }
}

/// A configured pattern wrapped as `*<pattern>*`.
pub open spec fn inclusive(p: Seq<char>) -> Seq<char> {
    seq!['*'] + p + seq!['*']
}

/// Whether a configured pattern matches a subject.
pub open spec fn pattern_matches(p: Seq<char>, s: Seq<char>) -> bool {
    glob(inclusive(p), s)
}

/// Relies on `wildmatch::WildMatch::new` and `WildMatchPattern::matches`:
/// `*` matches any run of characters, `?` exactly one, other characters
/// themselves, case-sensitively, over the whole subject.
#[verifier::external_body]
fn wild_match(pattern: &str, subject: &str) -> (r: bool)
    ensures
        r == glob(pattern@, subject@),
{
    wildmatch::WildMatch::new(pattern).matches(subject)
}

/// Builds the glob `*<pattern>*` used for a configured pattern.
pub fn make_pattern(pattern: &str) -> (r: String)
    ensures
        r@ == inclusive(pattern@),
{
    let star = "*";
    proof {
        reveal_strlit("*");
    }
    let mut r = String::from_str(star);
    r.append(pattern);
    r.append(star);
    r
}

/// Whether `subject` contains a match of `pattern`, wrapped as `*<pattern>*`.
pub fn matches(pattern: &str, subject: &str) -> (r: bool)
    ensures
        r == pattern_matches(pattern@, subject@),
{
    let glob_pattern = make_pattern(pattern);
    wild_match(glob_pattern.as_str(), subject)
}

/// No character of `p` is a wildcard.
pub open spec fn is_literal(p: Seq<char>) -> bool {
    forall|i: int| 0 <= i < p.len() ==> p[i] != '*' && p[i] != '?'
}

/// `s` holds `p` as a contiguous run of characters.
pub open spec fn contains_run(s: Seq<char>, p: Seq<char>) -> bool {
    exists|i: int| 0 <= i && i + p.len() <= s.len() && #[trigger] s.subrange(i, i + p.len()) == p
}

proof fn lemma_star_matches_all(s: Seq<char>)
    ensures
        glob(seq!['*'], s),
    decreases s.len(),
{
    let star = seq!['*'];
    assert(star[0] == '*');
    assert(star.drop_first() =~= Seq::<char>::empty());
    if s.len() > 0 {
        lemma_star_matches_all(s.drop_first());
    } else {
        assert(glob(star.drop_first(), s));
    }
}

proof fn lemma_literal_then_star(p: Seq<char>, t: Seq<char>)
    requires
        is_literal(p),
    ensures
        glob(p + seq!['*'], t) <==> (p.len() <= t.len() && t.subrange(0, p.len() as int) == p),
    decreases p.len(),
{
    if p.len() == 0 {
        assert(p + seq!['*'] =~= seq!['*']);
        lemma_star_matches_all(t);
        assert(t.subrange(0, 0) =~= p);
    } else {
        let q = p + seq!['*'];
        assert(q.drop_first() =~= p.drop_first() + seq!['*']);
        assert(q[0] == p[0]);
        if t.len() > 0 {
            lemma_literal_then_star(p.drop_first(), t.drop_first());
            if p.len() <= t.len() && t.subrange(0, p.len() as int) == p {
                assert(t[0] == t.subrange(0, p.len() as int)[0]);
                assert(t.drop_first().subrange(0, p.len() - 1) =~= p.drop_first());
            }
            if p.len() <= t.len() && p[0] == t[0] && t.drop_first().subrange(0, p.len() - 1)
                == p.drop_first() {
                assert forall|j: int| 0 <= j < p.len() implies #[trigger] t.subrange(
                    0,
                    p.len() as int,
                )[j] == p[j] by {
                    if j > 0 {
                        assert(t.drop_first().subrange(0, p.len() - 1)[j - 1] == p.drop_first()[j
                            - 1]);
                    }
                }
                assert(t.subrange(0, p.len() as int) =~= p);
            }
        }
    }
}

proof fn lemma_star_then(q: Seq<char>, s: Seq<char>)
    ensures
        glob(seq!['*'] + q, s) <==> exists|k: int|
            0 <= k <= s.len() && glob(q, #[trigger] s.subrange(k, s.len() as int)),
    decreases s.len(),
{
    let p = seq!['*'] + q;
    assert(p.drop_first() =~= q);
    assert(s.subrange(0, s.len() as int) =~= s);
    if s.len() > 0 {
        lemma_star_then(q, s.drop_first());
        if glob(p, s.drop_first()) {
            let k = choose|k: int|
                0 <= k <= s.drop_first().len() && glob(
                    q,
                    #[trigger] s.drop_first().subrange(k, s.drop_first().len() as int),
                );
            assert(s.drop_first().subrange(k, s.drop_first().len() as int) =~= s.subrange(
                k + 1,
                s.len() as int,
            ));
        }
        if exists|k: int| 0 <= k <= s.len() && glob(q, #[trigger] s.subrange(k, s.len() as int)) {
            let k = choose|k: int| 0 <= k <= s.len() && glob(q, #[trigger] s.subrange(k, s.len() as int));
            if k > 0 {
                assert(s.drop_first().subrange(k - 1, s.drop_first().len() as int) =~= s.subrange(
                    k,
                    s.len() as int,
                ));
            }
        }
    }
}

/// A pattern without wildcards matches exactly the subjects that contain it
/// as a contiguous run of characters.
pub proof fn lemma_literal_pattern_is_substring(p: Seq<char>, s: Seq<char>)
    requires
        is_literal(p),
    ensures
        pattern_matches(p, s) <==> contains_run(s, p),
{
    let q = p + seq!['*'];
    assert(inclusive(p) =~= seq!['*'] + q);
    lemma_star_then(q, s);
    if pattern_matches(p, s) {
        let k = choose|k: int| 0 <= k <= s.len() && glob(q, #[trigger] s.subrange(k, s.len() as int));
        let t = s.subrange(k, s.len() as int);
        lemma_literal_then_star(p, t);
        assert(t.subrange(0, p.len() as int) =~= s.subrange(k, k + p.len()));
    }
    if contains_run(s, p) {
        let i = choose|i: int|
            0 <= i && i + p.len() <= s.len() && #[trigger] s.subrange(i, i + p.len()) == p;
        let t = s.subrange(i, s.len() as int);
        lemma_literal_then_star(p, t);
        assert(t.subrange(0, p.len() as int) =~= s.subrange(i, i + p.len()));
    }
}

} // verus!
