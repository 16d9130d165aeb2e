//! Locating the external programs sync relies on (`git`, `age`): an
//! explicit override wins, then the first of a few usual places where the
//! program runs, then the bare name on the search path.
use vstd::prelude::*;

verus! {

/// Where `git` is looked for, in order.
pub open spec fn git_candidate_texts() -> Seq<Seq<char>> {
    seq![
        "/usr/bin/git"@,
        "/usr/local/bin/git"@,
        "/opt/homebrew/bin/git"@,
        "/home/linuxbrew/.linuxbrew/bin/git"@,
        "git"@,
    ]
}

/// Where `age` is looked for, in order.
pub open spec fn age_candidate_texts() -> Seq<Seq<char>> {
    seq![
        "/usr/bin/age"@,
        "/usr/local/bin/age"@,
        "/opt/homebrew/bin/age"@,
        "/home/linuxbrew/.linuxbrew/bin/age"@,
        "age"@,
    ]
}

/// The places `git` is looked for.
pub fn git_candidates() -> (v: Vec<String>)
    ensures
        crate::text::texts(v@) == git_candidate_texts(),
{
    let v = vec![
        String::from_str("/usr/bin/git"),
        String::from_str("/usr/local/bin/git"),
        String::from_str("/opt/homebrew/bin/git"),
        String::from_str("/home/linuxbrew/.linuxbrew/bin/git"),
        String::from_str("git"),
    ];
    assert(crate::text::texts(v@) =~= git_candidate_texts());
    v
}

/// The places `age` is looked for.
pub fn age_candidates() -> (v: Vec<String>)
    ensures
        crate::text::texts(v@) == age_candidate_texts(),
{
    let v = vec![
        String::from_str("/usr/bin/age"),
        String::from_str("/usr/local/bin/age"),
        String::from_str("/opt/homebrew/bin/age"),
        String::from_str("/home/linuxbrew/.linuxbrew/bin/age"),
        String::from_str("age"),
    ];
    assert(crate::text::texts(v@) =~= age_candidate_texts());
    v
}

/// The next step in locating a program.
#[derive(Debug, PartialEq, Eq)]
pub enum LocateStep {
    /// Use the program at this path.
    Use(String),
    /// Try running this candidate (`<candidate> --version`) and report
    /// whether it succeeded.
    Probe(String),
    /// No candidate works.
    Missing,
}

/// The first index `< n` at which `results` is true.
pub open spec fn first_success(results: Seq<bool>, n: int) -> Option<int>
    decreases n,
{
    if n <= 0 {
        None
    } else {
        match first_success(results, n - 1) {
            Some(i) => Some(i),
            None => if results[n - 1] {
                Some(n - 1)
            } else {
                None
            },
        }
    }
}

/// Given the override (the environment variable's value, if set), the
/// candidates and the outcomes of the probes made so far (`results[i]` for
/// `candidates[i]`): a non-empty override is used as is; otherwise the first
/// candidate that ran is used; otherwise the next candidate is probed, and
/// when none is left the program is missing.
pub fn locate_step(
    override_value: Option<&str>,
    candidates: &Vec<String>,
    results: &Vec<bool>,
) -> (s: LocateStep)
    requires
        results@.len() <= candidates@.len(),
    ensures
        override_value matches Some(v) ==> (v@.len() > 0 ==> (s matches LocateStep::Use(p) && p@
            == v@)),
        !(override_value matches Some(v) && v@.len() > 0) ==> match first_success(
            results@,
            results@.len() as int,
        ) {
            Some(i) => (s matches LocateStep::Use(p) && p@ == candidates@[i]@),
            None => if results@.len() < candidates@.len() {
                (s matches LocateStep::Probe(p) && p@ == candidates@[results@.len() as int]@)
            } else {
                s == LocateStep::Missing
            },
        },
        !(override_value matches Some(v) && v@.len() > 0) ==> forall|i: int|
            0 <= i < results@.len() && #[trigger] results@[i] && (forall|j: int|
                0 <= j < i ==> !results@[j]) ==> (s matches LocateStep::Use(p) && p@
                == candidates@[i]@),
{
    proof {
        lemma_first_success_exact(results@, results@.len() as int);
    }
    match override_value {
        Some(v) => {
            if v.unicode_len() > 0 {
                return LocateStep::Use(String::from_str(v));
            }
        },
        None => {},
    }
    let mut i: usize = 0;
    while i < results.len()
        invariant
            i <= results@.len(),
            results@.len() <= candidates@.len(),
            override_value matches Some(v) ==> v@.len() == 0,
            first_success(results@, i as int) is None,
        decreases results.len() - i,
    {
        if results[i] {
            assert(first_success(results@, i + 1) == Some(i as int));
            proof {
                lemma_first_success_stays(results@, i + 1, results@.len() as int);
                assert forall|k: int|
                    0 <= k < results@.len() && #[trigger] results@[k] && (forall|j: int|
                        0 <= j < k ==> !results@[j]) implies k == i by {
                    if k < i {
                        lemma_first_success_exact(results@, i as int);
                        assert(first_success(results@, i as int) == Some(k));
                    }
                    if k > i {
                        assert(results@[i as int]);
                    }
                }
            }
            return LocateStep::Use(candidates[i].clone());
        }
        i = i + 1;
    }
    if results.len() < candidates.len() {
        LocateStep::Probe(candidates[results.len()].clone())
    } else {
        LocateStep::Missing
    }
}

/// Once found, the first success stays the same as more results come in.
proof fn lemma_first_success_stays(results: Seq<bool>, n: int, m: int)
    requires
        0 <= n <= m,
        first_success(results, n) is Some,
    ensures
        first_success(results, m) == first_success(results, n),
    decreases m - n,
{
    if m > n {
        lemma_first_success_stays(results, n, m - 1);
    }
}

/// The candidate used is the first one whose probe succeeded: whenever
/// `results[i]` is the first true result, the first success is `i` (so a
/// step without an override uses `candidates[i]`), and whenever no result
/// is true there is none (so the next candidate is probed, or the program
/// is missing).
pub proof fn law_first_working_candidate(results: Seq<bool>)
    ensures
        forall|i: int|
            0 <= i < results.len() && #[trigger] results[i] && (forall|j: int|
                0 <= j < i ==> !results[j]) ==> first_success(results, results.len() as int)
                == Some(i),
        (forall|j: int| 0 <= j < results.len() ==> !results[j]) ==> first_success(
            results,
            results.len() as int,
        ) is None,
{
    lemma_first_success_exact(results, results.len() as int);
}

/// `first_success(results, n)` is the least index below `n` whose result is
/// true, if any.
proof fn lemma_first_success_exact(results: Seq<bool>, n: int)
    requires
        0 <= n <= results.len(),
    ensures
        forall|i: int|
            0 <= i < n && #[trigger] results[i] && (forall|j: int| 0 <= j < i ==> !results[j])
                ==> first_success(results, n) == Some(i),
        (forall|j: int| 0 <= j < n ==> !results[j]) ==> first_success(results, n) is None,
    decreases n,
{
    if n > 0 {
        lemma_first_success_exact(results, n - 1);
        assert forall|i: int|
            0 <= i < n && #[trigger] results[i] && (forall|j: int| 0 <= j < i ==> !results[j])
                implies first_success(results, n) == Some(i) by {
            if i < n - 1 {
                assert(first_success(results, n - 1) == Some(i));
            } else {
                assert forall|j: int| 0 <= j < n - 1 implies !results[j] by {}
                assert(first_success(results, n - 1) is None);
            }
        }
    }
}

} // verus!
