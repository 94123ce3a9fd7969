use vstd::prelude::*;
use vstd::string::StrSliceExecFns;

verus! {

/// Case-folded form of a character sequence, as `str::to_lowercase` computes
/// it.
pub uninterp spec fn lower_of(s: Seq<char>) -> Seq<char>;

/// Relies on `str::to_lowercase`: the result depends on the input characters
/// alone.
#[verifier::external_body]
pub(crate) fn fold_case(s: &str) -> (r: String)
    ensures
        r@ == lower_of(s@),
{
    s.to_lowercase()
}

/// `longer` ends with a dot followed by `shorter`.
pub open spec fn dot_suffix_of(longer: Seq<char>, shorter: Seq<char>) -> bool {
    &&& longer.len() > shorter.len()
    &&& longer.skip(longer.len() - shorter.len() - 1) == seq!['.'] + shorter
}

/// Matching policy on already-case-folded identifiers: exact equality, or a
/// whole dot-separated suffix in either direction.
pub open spec fn folded_match(a: Seq<char>, b: Seq<char>) -> bool {
    ||| a == b
    ||| dot_suffix_of(a, b)
    ||| dot_suffix_of(b, a)
}

/// The matching policy over raw identifiers: case-insensitive, and empty
/// identifiers never match.
pub open spec fn id_matches(target: Seq<char>, candidate: Seq<char>) -> bool {
    &&& target.len() > 0
    &&& candidate.len() > 0
    &&& folded_match(lower_of(target), lower_of(candidate))
}

/// Character-for-character equality of two string slices.
fn chars_eq(a: &str, b: &str) -> (r: bool)
    ensures
        r == (a@ == b@),
{
    let an = a.unicode_len();
    let bn = b.unicode_len();
    if an != bn {
        return false;
    }
    let mut i: usize = 0;
    while i < an
        invariant
            i <= an,
            an == a@.len(),
            an == b@.len(),
            forall|j: int| 0 <= j < i ==> a@[j] == b@[j],
        decreases an - i,
    {
        if a.get_char(i) != b.get_char(i) {
            return false;
        }
        i += 1;
    }
    proof {
        assert(a@ =~= b@);
    }
    true
}

/// Whether `longer` ends with a dot followed by `shorter`.
fn ends_with_dot(longer: &str, shorter: &str) -> (r: bool)
    ensures
        r == dot_suffix_of(longer@, shorter@),
{
    let ll = longer.unicode_len();
    let sl = shorter.unicode_len();
    if ll <= sl {
        return false;
    }
    if longer.get_char(ll - sl - 1) != '.' {
        proof {
            assert(!dot_suffix_of(longer@, shorter@)) by {
                if longer@.skip(ll - sl - 1) == seq!['.'] + shorter@ {
                    assert(longer@.skip(ll - sl - 1)[0] == (seq!['.'] + shorter@)[0]);
                }
            }
        }
        return false;
    }
    let mut i: usize = 0;
    while i < sl
        invariant
            i <= sl,
            sl < ll,
            ll == longer@.len(),
            sl == shorter@.len(),
            longer@[ll - sl - 1] == '.',
            forall|j: int| 0 <= j < i ==> longer@[ll - sl + j] == shorter@[j],
        decreases sl - i,
    {
        if longer.get_char(ll - sl + i) != shorter.get_char(i) {
            proof {
                assert(!dot_suffix_of(longer@, shorter@)) by {
                    if longer@.skip(ll - sl - 1) == seq!['.'] + shorter@ {
                        assert(longer@.skip(ll - sl - 1)[i + 1] == (seq!['.'] + shorter@)[i + 1]);
                    }
                }
            }
            return false;
        }
        i += 1;
    }
    proof {
        assert(longer@.skip(ll - sl - 1) =~= seq!['.'] + shorter@) by {
            assert forall|j: int| 0 <= j < sl + 1 implies longer@.skip(ll - sl - 1)[j] == (
            seq!['.'] + shorter@)[j] by {
                if j > 0 {
                    assert(longer@[ll - sl + (j - 1)] == shorter@[j - 1]);
                }
            }
        }
    }
    true
}

/// The matching policy applied to identifiers that are already case-folded.
pub fn matches_folded(target_folded: &str, candidate_folded: &str) -> (r: bool)
    ensures
        r == folded_match(target_folded@, candidate_folded@),
{
    if chars_eq(target_folded, candidate_folded) {
        true
    } else if ends_with_dot(target_folded, candidate_folded) {
        true
    } else {
        ends_with_dot(candidate_folded, target_folded)
    }
}

/// Pure predicate of the discovery engine: does `candidate` denote the same
/// application as `target`?  Case-insensitive; equal identifiers match, and a
/// whole dot-separated suffix in either direction matches; empty identifiers
/// never match.
pub fn app_matches(target: &str, candidate: &str) -> (r: bool)
    ensures
        r == id_matches(target@, candidate@),
{
    if target.is_empty() || candidate.is_empty() {
        return false;
    }
    let tf = fold_case(target);
    let cf = fold_case(candidate);
    matches_folded(tf.as_str(), cf.as_str())
}

/// A non-empty identifier always matches itself.
pub proof fn lemma_matches_reflexive(t: Seq<char>)
    requires
        t.len() > 0,
    ensures
        id_matches(t, t),
{
}

/// Matching is symmetric in its two identifiers.
pub proof fn lemma_matches_symmetric(a: Seq<char>, b: Seq<char>)
    ensures
        id_matches(a, b) == id_matches(b, a),
{
}

/// Matching is case-insensitive: candidates with equal folded forms match
/// alike against any target.
pub proof fn lemma_matches_depends_on_folded(t: Seq<char>, a: Seq<char>, b: Seq<char>)
    requires
        a.len() > 0,
        b.len() > 0,
        lower_of(a) == lower_of(b),
    ensures
        id_matches(t, a) == id_matches(t, b),
{
}

/// Empty identifiers never match.
pub proof fn lemma_empty_never_matches(t: Seq<char>, c: Seq<char>)
    requires
        t.len() == 0 || c.len() == 0,
    ensures
        !id_matches(t, c),
{
}

/// An identifier whose folded form extends the other's folded form by a whole
/// dot-separated prefix matches it.
pub proof fn lemma_dot_suffix_matches(t: Seq<char>, c: Seq<char>)
    requires
        t.len() > 0,
        c.len() > 0,
        dot_suffix_of(lower_of(c), lower_of(t)) || dot_suffix_of(lower_of(t), lower_of(c)),
    ensures
        id_matches(t, c),
{
}

/// A match between distinct folded identifiers is always a whole
/// dot-separated suffix, never a bare substring: the character just before
/// the shorter identifier's occurrence is a dot.
pub proof fn lemma_match_is_whole_suffix(a: Seq<char>, b: Seq<char>)
    requires
        folded_match(a, b),
        a != b,
    ensures
        dot_suffix_of(a, b) || dot_suffix_of(b, a),
{
}

} // verus!
