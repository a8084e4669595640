//! Name patterns, written as regular expressions.
use crate::text::{lemma_texts_push, texts};
use vstd::prelude::*;

verus! {

/// Why `regex::Regex::new` rejects a pattern, in the words of its error; `None` where it
/// accepts the pattern.
pub uninterp spec fn regex_error(pattern: Seq<char>) -> Option<Seq<char>>;

/// What `regex::Regex::is_match` says of a text, for a pattern that was accepted.
pub uninterp spec fn regex_is_match(pattern: Seq<char>, text: Seq<char>) -> bool;

/// Calls `regex::Regex::new`. Trusted: whether the pattern is accepted, and the text of
/// the error where it is not, depend on the pattern alone.
#[verifier::external_body]
pub(crate) fn check_regex(pattern: &str) -> (r: Result<(), String>)
    ensures
        match r {
            Ok(()) => regex_error(pattern@) is None,
            Err(e) => regex_error(pattern@) == Some(e@),
        },
{
    match regex::Regex::new(pattern) {
        Ok(_) => Ok(()),
        Err(e) => Err(e.to_string()),
    }
}

/// Calls `regex::Regex::is_match` on an accepted pattern. Trusted: the answer depends on
/// the pattern and the text alone.
#[verifier::external_body]
pub(crate) fn regex_matches(pattern: &str, text: &str) -> (r: bool)
    requires
        regex_error(pattern@) is None,
    ensures
        r == regex_is_match(pattern@, text@),
{
    regex::Regex::new(pattern).map_or(false, |re| re.is_match(text))
}

/// The first error of a list of findings, if there is one.
pub open spec fn first_error(findings: Seq<Option<Seq<char>>>) -> Option<Seq<char>>
    decreases findings.len(),
{
    if findings.len() == 0 {
        None
    } else {
        match first_error(findings.drop_last()) {
            Some(e) => Some(e),
            None => findings.last(),
        }
    }
}

/// What `regex::Regex::new` finds wrong with each of the patterns.
pub open spec fn regex_errors(patterns: Seq<Seq<char>>) -> Seq<Option<Seq<char>>> {
    patterns.map_values(|p: Seq<char>| regex_error(p))
}

/// The texts of a list of findings.
pub open spec fn finding_texts(findings: Seq<Option<String>>) -> Seq<Option<Seq<char>>> {
    findings.map_values(
        |f: Option<String>|
            match f {
                Some(e) => Some(e@),
                None => None,
            },
    )
}

/// What a list of patterns with these findings amounts to: an error where there is one,
/// no filter where there is no pattern, and else all the patterns.
pub open spec fn accepted(
    patterns: Seq<Seq<char>>,
    findings: Seq<Option<Seq<char>>>,
) -> Result<Option<Seq<Seq<char>>>, Seq<char>> {
    match first_error(findings) {
        Some(e) => Err(e),
        None => if patterns.len() == 0 {
            Ok(None)
        } else {
            Ok(Some(patterns))
        },
    }
}

/// The texts of a result of `accept_patterns`.
pub open spec fn accepted_texts(
    r: Result<Option<Vec<String>>, String>,
) -> Result<Option<Seq<Seq<char>>>, Seq<char>> {
    match r {
        Ok(Some(list)) => Ok(Some(texts(list@))),
        Ok(None) => Ok(None),
        Err(e) => Err(e@),
    }
}

/// Takes the patterns of a name filter together with what is wrong with each. No pattern
/// at all means no filter; the first thing wrong is the error.
pub fn accept_patterns(patterns: &Vec<String>, findings: &Vec<Option<String>>) -> (r: Result<
    Option<Vec<String>>,
    String,
>)
    ensures
        accepted_texts(r) == accepted(texts(patterns@), finding_texts(findings@)),
{
    let ghost all = finding_texts(findings@);
    let mut i: usize = 0;
    while i < findings.len()
        invariant
            i <= findings.len(),
            all == finding_texts(findings@),
            first_error(all.take(i as int)) is None,
        decreases findings.len() - i,
    {
        assert(all.take(i + 1).drop_last() =~= all.take(i as int));
        if let Some(e) = &findings[i] {
            proof {
                assert(all.take(i + 1).last() == Some(e@));
                lemma_first_error_in_prefix(all, i + 1);
            }
            return Err(e.clone());
        }
        assert(all.take(i + 1).last() is None);
        i = i + 1;
    }
    assert(all.take(i as int) =~= all);
    if patterns.len() == 0 {
        return Ok(None);
    }
    let mut list: Vec<String> = Vec::new();
    let mut k: usize = 0;
    while k < patterns.len()
        invariant
            k <= patterns.len(),
            texts(list@) == texts(patterns@).take(k as int),
        decreases patterns.len() - k,
    {
        proof {
            lemma_texts_push(list@, patterns@[k as int]);
        }
        list.push(patterns[k].clone());
        assert(texts(list@) =~= texts(patterns@).take(k + 1));
        k = k + 1;
    }
    assert(texts(list@) =~= texts(patterns@));
    Ok(Some(list))
}

/// Takes the patterns of a name filter: no pattern at all means no filter, and the first
/// pattern that is no regular expression is an error.
pub fn compile_patterns(patterns: &Vec<String>) -> (r: Result<Option<Vec<String>>, String>)
    ensures
        accepted_texts(r) == accepted(texts(patterns@), regex_errors(texts(patterns@))),
{
    let mut findings: Vec<Option<String>> = Vec::new();
    let mut i: usize = 0;
    while i < patterns.len()
        invariant
            i <= patterns.len(),
            finding_texts(findings@) == regex_errors(texts(patterns@)).take(i as int),
        decreases patterns.len() - i,
    {
        let finding = match check_regex(patterns[i].as_str()) {
            Ok(()) => None,
            Err(e) => Some(e),
        };
        let ghost before = findings@;
        findings.push(finding);
        assert(finding_texts(findings@) =~= finding_texts(before).push(
            regex_error(patterns@[i as int]@),
        ));
        assert(finding_texts(findings@) =~= regex_errors(texts(patterns@)).take(i + 1));
        i = i + 1;
    }
    assert(finding_texts(findings@) =~= regex_errors(texts(patterns@)));
    accept_patterns(patterns, &findings)
}

/// What is the first in a prefix is the first in the whole.
proof fn lemma_first_error_in_prefix(findings: Seq<Option<Seq<char>>>, n: int)
    requires
        0 <= n <= findings.len(),
        first_error(findings.take(n)) is Some,
    ensures
        first_error(findings) == first_error(findings.take(n)),
    decreases findings.len() - n,
{
    if n == findings.len() {
        assert(findings.take(n) =~= findings);
    } else {
        assert(findings.take(n + 1).drop_last() =~= findings.take(n));
        lemma_first_error_in_prefix(findings, n + 1);
    }
}

/// A list of patterns is accepted exactly where every one of them is a regular
/// expression.
pub proof fn law_accepted_iff_all_are(patterns: Seq<Seq<char>>)
    ensures
        accepted(patterns, regex_errors(patterns)) is Ok <==> forall|i: int|
            0 <= i < patterns.len() ==> regex_error(#[trigger] patterns[i]) is None,
{
    let errors = regex_errors(patterns);
    lemma_no_error_iff_none(errors);
    if first_error(errors) is Some {
        let i = choose|i: int| 0 <= i < errors.len() && #[trigger] errors[i] is Some;
        assert(regex_error(patterns[i]) is Some);
    } else {
        assert forall|i: int| 0 <= i < patterns.len() implies regex_error(
            #[trigger] patterns[i],
        ) is None by {
            assert(errors[i] is None);
        }
    }
}

proof fn lemma_no_error_iff_none(findings: Seq<Option<Seq<char>>>)
    ensures
        first_error(findings) is Some <==> exists|i: int|
            0 <= i < findings.len() && #[trigger] findings[i] is Some,
    decreases findings.len(),
{
    if findings.len() > 0 {
        let init = findings.drop_last();
        lemma_no_error_iff_none(init);
        if first_error(init) is Some {
            let i = choose|i: int| 0 <= i < init.len() && #[trigger] init[i] is Some;
            assert(findings[i] is Some);
        } else {
            assert(findings.last() == findings[findings.len() - 1]);
            assert forall|i: int| 0 <= i < init.len() implies #[trigger] findings[i] is None by {
                assert(init[i] is None);
            }
        }
    }
}

/// The first finding is what a list of patterns is rejected for; without one the patterns
/// are all kept as they are, and no pattern at all means no filter.
pub proof fn law_first_finding_decides(
    patterns: Seq<Seq<char>>,
    findings: Seq<Option<Seq<char>>>,
    n: int,
)
    requires
        0 <= n <= findings.len(),
        forall|j: int| 0 <= j < n ==> #[trigger] findings[j] is None,
    ensures
        n < findings.len() && findings[n] is Some ==> accepted(patterns, findings) == Err::<
            Option<Seq<Seq<char>>>,
            _,
        >(findings[n]->0),
        n == findings.len() && patterns.len() == 0 ==> accepted(patterns, findings) == Ok::<
            Option<Seq<Seq<char>>>,
            Seq<char>,
        >(None),
        n == findings.len() && patterns.len() > 0 ==> accepted(patterns, findings) == Ok::<
            _,
            Seq<char>,
        >(Some(patterns)),
{
    lemma_no_error_iff_none(findings.take(n));
    if n < findings.len() && findings[n] is Some {
        assert(findings.take(n + 1).drop_last() =~= findings.take(n));
        assert(findings.take(n + 1).last() == findings[n]);
        lemma_first_error_in_prefix(findings, n + 1);
    }
    if n == findings.len() {
        assert(findings.take(n) =~= findings);
    }
}

/// The first pattern that is no regular expression is the error, and else all patterns are
/// kept as they are.
pub proof fn law_first_bad_pattern_is_the_error(patterns: Seq<Seq<char>>, n: int)
    requires
        0 <= n <= patterns.len(),
        forall|j: int| 0 <= j < n ==> regex_error(#[trigger] patterns[j]) is None,
    ensures
        n < patterns.len() && regex_error(patterns[n]) is Some ==> accepted(
            patterns,
            regex_errors(patterns),
        ) == Err::<Option<Seq<Seq<char>>>, _>(regex_error(patterns[n])->0),
        n == patterns.len() && n > 0 ==> accepted(patterns, regex_errors(patterns)) == Ok::<
            _,
            Seq<char>,
        >(Some(patterns)),
        patterns.len() == 0 ==> accepted(patterns, regex_errors(patterns)) == Ok::<
            Option<Seq<Seq<char>>>,
            Seq<char>,
        >(None),
{
    let findings = regex_errors(patterns);
    assert forall|j: int| 0 <= j < n implies #[trigger] findings[j] is None by {
        assert(regex_error(patterns[j]) is None);
    }
    law_first_finding_decides(patterns, findings, n);
}

/// What a result says of itself in texts is what it holds.
pub proof fn law_texts_of_a_result(
    r: Result<Option<Vec<String>>, String>,
    findings: Seq<Option<String>>,
    i: int,
)
    ensures
        match r {
            Ok(Some(list)) => {
                &&& accepted_texts(r) is Ok
                &&& accepted_texts(r)->Ok_0 is Some
                &&& accepted_texts(r)->Ok_0->0.len() == list@.len()
                &&& 0 <= i < list@.len() ==> accepted_texts(r)->Ok_0->0[i] == list@[i]@
            },
            Ok(None) => accepted_texts(r) is Ok && accepted_texts(r)->Ok_0 is None,
            Err(e) => accepted_texts(r) is Err && accepted_texts(r)->Err_0 == e@,
        },
        finding_texts(findings).len() == findings.len(),
        0 <= i < findings.len() ==> match findings[i] {
            Some(e) => finding_texts(findings)[i] == Some(e@),
            None => finding_texts(findings)[i] is None,
        },
{
}

} // verus!
