//! The interest evaluator: decides which parts of a commit a rule reports.
//!
//! Message patterns are tried first; the first one that matches the commit
//! message decides the whole commit. Otherwise each changed file is put to
//! the file rules in order, and the first rule that claims the file decides it.
use vstd::prelude::*;
use crate::commit::{
    file_views, match_views, ChangedFile, ChangedFileView, Commit, CommitView, MatchResult,
    MatchTier, MatchView,
};
use crate::config::{file_rule_views, FileView, Notification, NotificationView};
use crate::pattern::pattern_matches;

verus! {

/// The first of `pats`, in listed order, that matches `s`.
pub open spec fn first_match(pats: Seq<Seq<char>>, s: Seq<char>) -> Option<Seq<char>>
    decreases pats.len(),
{
    if pats.len() == 0 {
        None
    } else if pattern_matches(pats[0], s) {
        Some(pats[0])
    } else {
        first_match(pats.drop_first(), s)
    }
}

/// Every one of `pats` that matches `s`, in listed order.
pub open spec fn all_matches(pats: Seq<Seq<char>>, s: Seq<char>) -> Seq<Seq<char>>
    decreases pats.len(),
{
    if pats.len() == 0 {
        Seq::empty()
    } else {
        let r = all_matches(pats.drop_last(), s);
        if pattern_matches(pats.last(), s) {
            r.push(pats.last())
        } else {
            r
        }
    }
}

pub open spec fn or_empty(o: Option<Seq<Seq<char>>>) -> Seq<Seq<char>> {
    match o {
        Some(p) => p,
        None => Seq::empty(),
    }
}

/// The union of two pattern lists: `a`, then each pattern of `b` that is
/// not already listed.
pub open spec fn union_patterns(a: Seq<Seq<char>>, b: Seq<Seq<char>>) -> Seq<Seq<char>>
    decreases b.len(),
{
    if b.len() == 0 {
        a
    } else {
        let r = union_patterns(a, b.drop_last());
        if r.contains(b.last()) {
            r
        } else {
            r.push(b.last())
        }
    }
}

/// What the file rules make of one changed file: `None` when no rule claims
/// it, else the patterns to report (empty for a path-only rule).
pub open spec fn file_verdict(
    rules: Seq<FileView>,
    msg: Option<Seq<Seq<char>>>,
    f: ChangedFileView,
) -> Option<Seq<Seq<char>>>
    decreases rules.len(),
{
    if rules.len() == 0 {
        None
    } else {
        let rest = file_verdict(rules.drop_first(), msg, f);
        if !pattern_matches(rules[0].path, f.filename) {
            rest
        } else {
            match rules[0].pattern {
                None => Some(Seq::empty()),
                Some(cps) => match f.patch {
                    None => rest,
                    Some(patch) => {
                        let hits = all_matches(union_patterns(cps, or_empty(msg)), patch);
                        if hits.len() > 0 {
                            Some(hits)
                        } else {
                            rest
                        }
                    },
                },
            }
        }
    }
}

/// The file-tier findings for the changed files `fs` of commit `c`, in file order.
pub open spec fn file_findings(
    rule: NotificationView,
    c: CommitView,
    fs: Seq<ChangedFileView>,
) -> Seq<MatchView>
    decreases fs.len(),
{
    if fs.len() == 0 {
        Seq::empty()
    } else {
        let prev = file_findings(rule, c, fs.drop_last());
        match file_verdict(rule.files, rule.pattern, fs.last()) {
            Some(ps) => prev.push(
                MatchView {
                    commit: c,
                    matched_at: MatchTier::File,
                    file: Some(fs.last()),
                    patterns_matched: ps,
                },
            ),
            None => prev,
        }
    }
}

/// The message pattern that decides commit `c`, if any.
pub open spec fn message_hit(rule: NotificationView, c: CommitView) -> Option<Seq<char>> {
    match rule.pattern {
        Some(ps) => first_match(ps, c.message),
        None => None,
    }
}

/// The findings of `rule` on commit `c`.
pub open spec fn evaluation(rule: NotificationView, c: CommitView) -> Seq<MatchView> {
    match message_hit(rule, c) {
        Some(p) => seq![
            MatchView {
                commit: c,
                matched_at: MatchTier::Message,
                file: None,
                patterns_matched: seq![p],
            },
        ],
        None => match c.files {
            Some(fs) => file_findings(rule, c, fs),
            None => Seq::empty(),
        },
    }
}

/// Whether `v` lists `x`.
fn lists(v: &Vec<String>, x: &String) -> (r: bool)
    ensures
        r == v.deep_view().contains(x@),
{
    let mut i: usize = 0;
    while i < v.len()
        invariant
            i <= v.len(),
            forall|j: int| 0 <= j < i ==> v.deep_view()[j] != x@,
        decreases v.len() - i,
    {
        if v[i] == *x {
            assert(v.deep_view()[i as int] == x@);
            return true;
        }
        i = i + 1;
    }
    false
}

/// The union of `a` and the patterns of `b`, if any.
fn union_of(a: &Vec<String>, b: &Option<Vec<String>>) -> (r: Vec<String>)
    ensures
        r.deep_view() == union_patterns(a.deep_view(), or_empty(b.deep_view())),
{
    let mut r = a.clone();
    assert(r.deep_view() =~= a.deep_view());
    match b {
        None => {
            assert(or_empty(b.deep_view()) =~= Seq::<Seq<char>>::empty());
        },
        Some(bs) => {
            let ghost bv = bs.deep_view();
            let mut i: usize = 0;
            assert(bv.take(0) =~= Seq::<Seq<char>>::empty());
            while i < bs.len()
                invariant
                    i <= bs.len(),
                    bv == bs.deep_view(),
                    r.deep_view() == union_patterns(a.deep_view(), bv.take(i as int)),
                decreases bs.len() - i,
            {
                assert(bv.take(i + 1).drop_last() =~= bv.take(i as int));
                assert(bv.take(i + 1).last() == bs@[i as int]@);
                if !lists(&r, &bs[i]) {
                    let ghost before = r.deep_view();
                    r.push(bs[i].clone());
                    assert(r.deep_view() =~= before.push(bs@[i as int]@));
                }
                i = i + 1;
            }
            assert(bv.take(i as int) =~= bv);
        },
    }
    r
}

/// The index of the first of `pats` that matches `subject`.
fn first_matching(pats: &Vec<String>, subject: &str) -> (r: Option<usize>)
    ensures
        match r {
            Some(i) => i < pats.len() && first_match(pats.deep_view(), subject@) == Some(
                pats@[i as int]@,
            ),
            None => first_match(pats.deep_view(), subject@) is None,
        },
{
    let ghost all = pats.deep_view();
    let mut i: usize = 0;
    assert(all.skip(0) =~= all);
    while i < pats.len()
        invariant
            i <= pats.len(),
            all == pats.deep_view(),
            first_match(all, subject@) == first_match(all.skip(i as int), subject@),
        decreases pats.len() - i,
    {
        assert(all.skip(i as int)[0] == pats@[i as int]@);
        if crate::pattern::matches(pats[i].as_str(), subject) {
            return Some(i);
        }
        assert(all.skip(i as int).drop_first() =~= all.skip(i + 1));
        i = i + 1;
    }
    assert(all.skip(i as int) =~= Seq::<Seq<char>>::empty());
    None
}

/// Appends to `acc` every one of `pats` that matches `subject`, in order.
fn push_matches(pats: &Vec<String>, subject: &str, acc: &mut Vec<String>)
    ensures
        final(acc).deep_view() == old(acc).deep_view() + all_matches(pats.deep_view(), subject@),
{
    let ghost all = pats.deep_view();
    let ghost start = acc.deep_view();
    let mut i: usize = 0;
    assert(all.take(0) =~= Seq::<Seq<char>>::empty());
    while i < pats.len()
        invariant
            i <= pats.len(),
            all == pats.deep_view(),
            acc.deep_view() == start + all_matches(all.take(i as int), subject@),
        decreases pats.len() - i,
    {
        assert(all.take(i + 1).drop_last() =~= all.take(i as int));
        assert(all.take(i + 1).last() == pats@[i as int]@);
        if crate::pattern::matches(pats[i].as_str(), subject) {
            let ghost before = acc.deep_view();
            acc.push(pats[i].clone());
            assert(acc.deep_view() =~= before.push(pats@[i as int]@));
            assert(acc.deep_view() =~= start + all_matches(all.take(i + 1), subject@));
        }
        i = i + 1;
    }
    assert(all.take(i as int) =~= all);
}

/// Puts one changed file to the file rules of `rule`, in order.
fn judge_file(rule: &Notification, msg: &Option<Vec<String>>, file: &ChangedFile) -> (r: Option<
    Vec<String>,
>)
    requires
        msg.deep_view() == rule@.pattern,
    ensures
        r.deep_view() == file_verdict(rule@.files, rule@.pattern, file@),
{
    let rules = rule.files();
    let ghost views = rule@.files;
    let mut i: usize = 0;
    assert(views.skip(0) =~= views);
    while i < rules.len()
        invariant
            i <= rules.len(),
            views == file_rule_views(rules@),
            views == rule@.files,
            msg.deep_view() == rule@.pattern,
            file_verdict(views, rule@.pattern, file@) == file_verdict(
                views.skip(i as int),
                rule@.pattern,
                file@,
            ),
        decreases rules.len() - i,
    {
        let fr = &rules[i];
        let ghost sk = views.skip(i as int);
        assert(sk[0] == fr@);
        assert(sk[0].pattern == fr.pattern.deep_view());
        assert(views.skip(i as int).drop_first() =~= views.skip(i + 1));
        if crate::pattern::matches(fr.path.as_str(), file.filename.as_str()) {
            match &fr.pattern {
                None => {
                    let r: Vec<String> = Vec::new();
                    assert(r.deep_view() =~= Seq::<Seq<char>>::empty());
                    assert(file_verdict(sk, rule@.pattern, file@) == Some(Seq::<Seq<char>>::empty()));
                    return Some(r);
                },
                Some(cps) => match &file.patch {
                    None => {},
                    Some(patch) => {
                        let candidates = union_of(cps, msg);
                        let mut hits: Vec<String> = Vec::new();
                        push_matches(&candidates, patch.as_str(), &mut hits);
                        assert(hits.deep_view() =~= all_matches(
                            union_patterns(cps.deep_view(), or_empty(rule@.pattern)),
                            patch@,
                        ));
                        if hits.len() > 0 {
                            return Some(hits);
                        }
                    },
                },
            }
        }
        i = i + 1;
    }
    assert(views.skip(i as int) =~= Seq::<FileView>::empty());
    None
}

/// The findings of `rule` on `commit`: one message-tier finding when a
/// message pattern matches, else one file-tier finding per claimed file.
pub fn evaluate(rule: &Notification, commit: &Commit) -> (r: Vec<MatchResult>)
    ensures
        match_views(r@) == evaluation(rule@, commit@),
{
    let msg = rule.patterns();
    match &msg {
        Some(ps) => match first_matching(ps, commit.message.as_str()) {
            Some(i) => {
                let mut pats: Vec<String> = Vec::new();
                pats.push(ps[i].clone());
                let mut r: Vec<MatchResult> = Vec::new();
                r.push(
                    MatchResult {
                        commit: commit.clone(),
                        matched_at: MatchTier::Message,
                        file: None,
                        patterns_matched: pats,
                    },
                );
                assert(pats.deep_view() =~= seq![ps@[i as int]@]);
                assert(match_views(r@) =~= evaluation(rule@, commit@));
                return r;
            },
            None => {},
        },
        None => {},
    }
    let mut r: Vec<MatchResult> = Vec::new();
    match &commit.files {
        None => {},
        Some(fs) => {
            let ghost fv = file_views(fs@);
            let mut j: usize = 0;
            assert(fv.take(0) =~= Seq::<ChangedFileView>::empty());
            while j < fs.len()
                invariant
                    j <= fs.len(),
                    fv == file_views(fs@),
                    msg.deep_view() == rule@.pattern,
                    match_views(r@) == file_findings(rule@, commit@, fv.take(j as int)),
                decreases fs.len() - j,
            {
                assert(fv.take(j + 1).drop_last() =~= fv.take(j as int));
                assert(fv.take(j + 1).last() == fs@[j as int]@);
                match judge_file(rule, &msg, &fs[j]) {
                    Some(ps) => {
                        r.push(
                            MatchResult {
                                commit: commit.clone(),
                                matched_at: MatchTier::File,
                                file: Some(fs[j].clone()),
                                patterns_matched: ps,
                            },
                        );
                        assert(match_views(r@) =~= file_findings(
                            rule@,
                            commit@,
                            fv.take(j + 1),
                        ));
                    },
                    None => {
                        assert(match_views(r@) =~= file_findings(
                            rule@,
                            commit@,
                            fv.take(j + 1),
                        ));
                    },
                }
                j = j + 1;
            }
            assert(fv.take(j as int) =~= fv);
        },
    }
    assert(match_views(r@) =~= evaluation(rule@, commit@));
    r
}

proof fn lemma_first_match_found(pats: Seq<Seq<char>>, p: Seq<char>, s: Seq<char>)
    requires
        pats.contains(p),
        pattern_matches(p, s),
    ensures
        first_match(pats, s) is Some,
    decreases pats.len(),
{
    if !pattern_matches(pats[0], s) {
        let i = choose|i: int| 0 <= i < pats.len() && pats[i] == p;
        assert(i != 0);
        assert(pats.drop_first()[i - 1] == p);
        lemma_first_match_found(pats.drop_first(), p, s);
    }
}

/// Precedence: when one of the rule's message patterns matches the commit
/// message, the commit yields a single message-tier finding and no file-tier
/// finding at all.
pub proof fn lemma_message_tier_precedence(rule: NotificationView, c: CommitView, p: Seq<char>)
    requires
        rule.pattern is Some,
        rule.pattern->Some_0.contains(p),
        pattern_matches(p, c.message),
    ensures
        evaluation(rule, c).len() == 1,
        forall|i: int|
            0 <= i < evaluation(rule, c).len() ==> #[trigger] evaluation(rule, c)[i].matched_at
                == MatchTier::Message,
{
    lemma_first_match_found(rule.pattern->Some_0, p, c.message);
}

} // verus!
