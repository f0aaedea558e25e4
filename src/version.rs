//! Version tokens and pattern matching.
use vstd::prelude::*;

use crate::error::Error;
use crate::text::strings_view;

verus! {

/// The token class of a version: runs of word characters and `*`.
pub const VERSION_TOKEN_PATTERN: &'static str = "[\\w*]+";

/// What `regex` finds for `pattern` in `text`: the text of each successive
/// non-overlapping match, or `None` when the pattern does not compile.
pub uninterp spec fn regex_match_texts(pattern: Seq<char>, text: Seq<char>) -> Option<Seq<Seq<char>>>;

/// Relies on `regex::Regex::new` (compiles `pattern`) and `Regex::find_iter`
/// (the successive non-overlapping leftmost-first matches of it in `text`).
#[verifier::external_body]
fn regex_find_texts(pattern: &str, text: &str) -> (r: Option<Vec<String>>)
    ensures
        r is Some <==> regex_match_texts(pattern@, text@) is Some,
        r is Some ==> strings_view(r->0@) == regex_match_texts(pattern@, text@)->0,
{
    regex::Regex::new(pattern).ok().map(|re| re.find_iter(text).map(|m| m.as_str().to_string()).collect())
}

/// The tokens of a version string.
pub open spec fn version_tokens(version: Seq<char>) -> Seq<Seq<char>> {
    match regex_match_texts(VERSION_TOKEN_PATTERN@, version) {
        Some(tokens) => tokens,
        None => Seq::empty(),
    }
}

/// The token that matches any candidate token.
pub open spec fn is_wildcard(t: Seq<char>) -> bool {
    t == seq!['*']
}

/// A tokenized pattern matches a tokenized candidate when the candidate has at
/// least as many tokens and every pattern token is `*` or equals the candidate's
/// token at the same index.
pub open spec fn tokens_match_spec(pattern: Seq<Seq<char>>, candidate: Seq<Seq<char>>) -> bool {
    &&& candidate.len() >= pattern.len()
    &&& forall|i: int|
        0 <= i < pattern.len() ==> is_wildcard(#[trigger] pattern[i]) || pattern[i] == candidate[i]
}

/// Whether the version pattern `pattern` matches the version `candidate`.
pub open spec fn version_matches(pattern: Seq<char>, candidate: Seq<char>) -> bool {
    tokens_match_spec(version_tokens(pattern), version_tokens(candidate))
}

/// Index of the first candidate that the pattern matches.
pub open spec fn first_match_spec(pattern: Seq<Seq<char>>, candidates: Seq<Seq<Seq<char>>>) -> Option<int>
    decreases candidates.len(),
{
    if candidates.len() == 0 {
        None
    } else {
        match first_match_spec(pattern, candidates.drop_last()) {
            Some(i) => Some(i),
            None => if tokens_match_spec(pattern, candidates.last()) {
                Some(candidates.len() - 1)
            } else {
                None
            },
        }
    }
}

/// What `find_tag` returns for a target and a list of tags.
pub open spec fn find_tag_spec(target: Seq<char>, tags: Seq<Seq<char>>) -> Option<Seq<char>> {
    if target == "latest"@ {
        if tags.len() == 0 { None } else { Some(tags[0]) }
    } else {
        match first_match_spec(version_tokens(target), tags.map_values(|t: Seq<char>| version_tokens(t))) {
            Some(i) => Some(tags[i]),
            None => None,
        }
    }
}

/// Splits a version into its tokens: the maximal runs of word characters and `*`.
pub fn split_version(version: &str) -> (r: Vec<String>)
    ensures
        strings_view(r@) == version_tokens(version@),
{
    match regex_find_texts(VERSION_TOKEN_PATTERN, version) {
        Some(tokens) => tokens,
        None => Vec::new(),
    }
}

/// Whether a tokenized pattern matches a tokenized candidate.
pub fn tokens_match(pattern: &Vec<String>, candidate: &Vec<String>) -> (r: bool)
    ensures
        r == tokens_match_spec(strings_view(pattern@), strings_view(candidate@)),
{
    if candidate.len() < pattern.len() {
        return false;
    }
    let star = String::from_str("*");
    proof {
        reveal_strlit("*");
    }
    let ghost p = strings_view(pattern@);
    let ghost c = strings_view(candidate@);
    let mut i: usize = 0;
    while i < pattern.len()
        invariant
            i <= pattern.len() <= candidate.len(),
            star@ == seq!['*'],
            p == strings_view(pattern@),
            c == strings_view(candidate@),
            forall|j: int| 0 <= j < i ==> is_wildcard(#[trigger] p[j]) || p[j] == c[j],
        decreases pattern.len() - i,
    {
        if !(pattern[i] == star) && !(pattern[i] == candidate[i]) {
            assert(!(is_wildcard(p[i as int]) || p[i as int] == c[i as int]));
            return false;
        }
        i += 1;
    }
    true
}

/// Whether the version pattern `target` matches the version `source`.
pub fn version_match(target: &str, source: &str) -> (r: bool)
    ensures
        r == version_matches(target@, source@),
{
    let target_tokens = split_version(target);
    let source_tokens = split_version(source);
    tokens_match(&target_tokens, &source_tokens)
}

/// Index of the first tokenized candidate that the tokenized pattern matches.
pub fn first_match(pattern: &Vec<String>, candidates: &Vec<Vec<String>>) -> (r: Option<usize>)
    ensures
        r matches Some(i) ==> first_match_spec(strings_view(pattern@), candidates@.map_values(|c: Vec<String>| strings_view(c@))) == Some(i as int),
        r is None ==> first_match_spec(strings_view(pattern@), candidates@.map_values(|c: Vec<String>| strings_view(c@))) is None,
{
    let ghost p = strings_view(pattern@);
    let ghost cs = candidates@.map_values(|c: Vec<String>| strings_view(c@));
    let mut i: usize = 0;
    while i < candidates.len()
        invariant
            i <= candidates.len(),
            p == strings_view(pattern@),
            cs == candidates@.map_values(|c: Vec<String>| strings_view(c@)),
            first_match_spec(p, cs.subrange(0, i as int)) is None,
        decreases candidates.len() - i,
    {
        let m = tokens_match(pattern, &candidates[i]);
        assert(cs.subrange(0, i + 1).drop_last() == cs.subrange(0, i as int));
        if m {
            assert(first_match_spec(p, cs.subrange(0, i + 1)) == Some(i as int));
            proof { lemma_first_match_extends(p, cs, i as int + 1); }
            return Some(i);
        }
        i += 1;
    }
    assert(cs.subrange(0, i as int) == cs);
    None
}

/// The first match is a matching candidate, and no earlier candidate matches.
pub proof fn lemma_first_match_is_first(p: Seq<Seq<char>>, cs: Seq<Seq<Seq<char>>>)
    ensures
        first_match_spec(p, cs) matches Some(i) ==> 0 <= i < cs.len() && tokens_match_spec(p, cs[i])
            && forall|j: int| 0 <= j < i ==> !tokens_match_spec(p, #[trigger] cs[j]),
        first_match_spec(p, cs) is None ==> forall|j: int| 0 <= j < cs.len() ==> !tokens_match_spec(p, #[trigger] cs[j]),
    decreases cs.len(),
{
    if cs.len() > 0 {
        lemma_first_match_is_first(p, cs.drop_last());
        assert forall|j: int| 0 <= j < cs.len() - 1 implies cs.drop_last()[j] == cs[j] by {}
    }
}

/// A match found in a prefix is the first match of the whole sequence.
proof fn lemma_first_match_extends(p: Seq<Seq<char>>, cs: Seq<Seq<Seq<char>>>, k: int)
    requires
        0 <= k <= cs.len(),
        first_match_spec(p, cs.subrange(0, k)) is Some,
    ensures
        first_match_spec(p, cs) == first_match_spec(p, cs.subrange(0, k)),
    decreases cs.len() - k,
{
    if k < cs.len() {
        assert(cs.subrange(0, k + 1).drop_last() == cs.subrange(0, k));
        lemma_first_match_extends(p, cs, k + 1);
    } else {
        assert(cs.subrange(0, k) == cs);
    }
}

/// Picks the tag that `target` designates: the first tag for `latest`, otherwise
/// the first tag that the version pattern `target` matches.
pub fn find_tag(target: &str, tags: &Vec<String>) -> (r: Result<String, Error>)
    ensures
        r matches Ok(t) ==> find_tag_spec(target@, strings_view(tags@)) == Some(t@),
        r is Err <==> find_tag_spec(target@, strings_view(tags@)) is None,
        r matches Err(e) ==> (e is NoTags <==> target@ == "latest"@),
{
    let latest = String::from_str("latest");
    let target_owned = String::from_str(target);
    if target_owned == latest {
        if tags.len() == 0 {
            return Err(Error::NoTags);
        }
        return Ok(tags[0].clone());
    }
    let pattern = split_version(target);
    let mut candidates: Vec<Vec<String>> = Vec::new();
    let mut i: usize = 0;
    while i < tags.len()
        invariant
            i <= tags.len(),
            candidates@.len() == i,
            forall|j: int| 0 <= j < i ==> strings_view(#[trigger] candidates@[j]@) == version_tokens(tags@[j]@),
        decreases tags.len() - i,
    {
        candidates.push(split_version(tags[i].as_str()));
        i += 1;
    }
    let ghost tv = strings_view(tags@);
    assert(candidates@.map_values(|c: Vec<String>| strings_view(c@)) == tv.map_values(|t: Seq<char>| version_tokens(t)));
    proof { lemma_first_match_is_first(strings_view(pattern@), tv.map_values(|t: Seq<char>| version_tokens(t))); }
    match first_match(&pattern, &candidates) {
        Some(k) => Ok(tags[k].clone()),
        None => Err(Error::NoMatchingTag { target: target_owned }),
    }
}

/// Matching is a function of the pattern and the candidate: two matches of the
/// same inputs agree.
pub proof fn lemma_match_deterministic(pattern: Seq<char>, candidate: Seq<char>, first: bool, second: bool)
    requires
        first == version_matches(pattern, candidate),
        second == version_matches(pattern, candidate),
    ensures
        first == second,
{
}

/// A candidate with fewer tokens than the pattern never matches.
pub proof fn lemma_fewer_tokens_never_match(pattern: Seq<char>, candidate: Seq<char>)
    requires
        version_tokens(candidate).len() < version_tokens(pattern).len(),
    ensures
        !version_matches(pattern, candidate),
{
}

/// `latest` designates the first tag whenever there is one.
pub proof fn lemma_latest_is_first(tags: Seq<Seq<char>>)
    requires
        tags.len() > 0,
    ensures
        find_tag_spec("latest"@, tags) == Some(tags[0]),
{
}

} // verus!
