//! Regular expressions, compiled once and kept for the next use.
use vstd::prelude::*;

verus! {

/// The number of compiled expressions that a cache keeps.
pub const CACHE_SIZE: usize = 32;

/// `regex::Regex`: a compiled regular expression.
#[verifier::external_type_specification]
#[verifier::external_body]
pub struct ExRegex(regex::Regex);

/// `lru::DefaultHasher`: how a cache hashes its keys.
#[verifier::external_type_specification]
#[verifier::external_body]
pub struct ExDefaultHasher(lru::DefaultHasher);

/// `lru::LruCache`: a bounded map that drops the entry that was not used for longest.
#[verifier::external_type_specification]
#[verifier::external_body]
#[verifier::reject_recursive_types(K)]
#[verifier::reject_recursive_types(V)]
#[verifier::reject_recursive_types(S)]
pub struct ExLruCache<K, V, S>(lru::LruCache<K, V, S>);

/// What is wrong with a regular expression, where something is.
pub uninterp spec fn regex_fault(pattern: Seq<char>) -> Option<Seq<char>>;

/// The text that a regular expression was compiled from.
pub uninterp spec fn regex_source(re: regex::Regex) -> Seq<char>;

/// Whether a text matches a regular expression.
pub uninterp spec fn regex_matches(pattern: Seq<char>, s: Seq<char>) -> bool;

/// The groups of the first match of a regular expression in a text, where there is a match.
pub uninterp spec fn regex_groups(pattern: Seq<char>, s: Seq<char>) -> Option<
    Seq<Option<Seq<char>>>,
>;

/// What a cache holds, the entry that was used last in front: each key with the text that the
/// expression under it was compiled from.
pub uninterp spec fn cached(cache: lru::LruCache<String, regex::Regex>) -> Seq<
    (Seq<char>, Seq<char>),
>;

/// The number of entries that a cache holds at most.
pub uninterp spec fn cache_limit(cache: lru::LruCache<String, regex::Regex>) -> nat;

/// `regex::Regex::new`: compiles a regular expression.
///
/// Whether it compiles, and the text of the error where it does not, depends on the pattern
/// alone. The expression keeps the pattern as its source.
#[verifier::external_body]
pub(crate) fn compile(pattern: &str) -> (r: Result<regex::Regex, String>)
    ensures
        match r {
            Ok(re) => regex_fault(pattern@) is None && regex_source(re) == pattern@,
            Err(e) => regex_fault(pattern@) == Some(e@),
        },
{
    regex::Regex::new(pattern).map_err(|e| e.to_string())
}

/// `regex::Regex::is_match`: whether an expression matches somewhere in a text.
///
/// The answer depends on the source of the expression and the text alone.
#[verifier::external_body]
fn is_match(re: &regex::Regex, s: &str) -> (r: bool)
    ensures
        r == regex_matches(regex_source(*re), s@),
{
    re.is_match(s)
}

/// The texts of groups.
pub open spec fn group_texts(groups: Seq<Option<String>>) -> Seq<Option<Seq<char>>> {
    groups.map_values(
        |g: Option<String>|
            match g {
                Some(s) => Some(s@),
                None => None,
            },
    )
}

/// `regex::Regex::captures`: the groups of the first match in a text; the first of them is the
/// whole match.
///
/// The groups depend on the source of the expression and the text alone.
#[verifier::external_body]
pub(crate) fn captures(re: &regex::Regex, s: &str) -> (r: Option<Vec<Option<String>>>)
    ensures
        match r {
            Some(groups) => regex_groups(regex_source(*re), s@) == Some(group_texts(groups@)),
            None => regex_groups(regex_source(*re), s@) is None,
        },
{
    let caps = re.captures(s)?;
    Some(caps.iter().map(|m| m.map(|m| m.as_str().to_string())).collect())
}

/// `lru::LruCache::new`: an empty cache for at most `limit` entries.
#[verifier::external_body]
fn new_cache(limit: usize) -> (r: lru::LruCache<String, regex::Regex>)
    requires
        0 < limit <= CACHE_SIZE,
    ensures
        cached(r) == Seq::<(Seq<char>, Seq<char>)>::empty(),
        cache_limit(r) == limit,
{
    lru::LruCache::new(std::num::NonZeroUsize::new(limit).unwrap())
}

/// The position of a key, where a cache holds it.
pub open spec fn key_at(entries: Seq<(Seq<char>, Seq<char>)>, key: Seq<char>, at: int) -> bool {
    0 <= at < entries.len() && entries[at].0 == key
}

/// The entries after the one at a position was used.
pub open spec fn moved_to_front(entries: Seq<(Seq<char>, Seq<char>)>, at: int) -> Seq<
    (Seq<char>, Seq<char>),
> {
    seq![entries[at]] + entries.remove(at)
}

/// `lru::LruCache::get`: the expression under a key, which moves to the front.
#[verifier::external_body]
fn cache_get(cache: &mut lru::LruCache<String, regex::Regex>, key: &str) -> (r: Option<
    regex::Regex,
>)
    ensures
        cache_limit(*final(cache)) == cache_limit(*old(cache)),
        match r {
            Some(re) => exists|at: int|
                #![trigger moved_to_front(cached(*old(cache)), at)]
                {
                    &&& key_at(cached(*old(cache)), key@, at)
                    &&& regex_source(re) == cached(*old(cache))[at].1
                    &&& cached(*final(cache)) == moved_to_front(cached(*old(cache)), at)
                },
            None => cached(*final(cache)) == cached(*old(cache)) && forall|at: int|
                !#[trigger] key_at(cached(*old(cache)), key@, at),
        },
{
    cache.get(key).cloned()
}

/// The entries after one was put under a key that the cache did not hold: it stands in front,
/// and of a full cache the last one goes.
pub open spec fn put_in_front(
    entries: Seq<(Seq<char>, Seq<char>)>,
    entry: (Seq<char>, Seq<char>),
    limit: nat,
) -> Seq<(Seq<char>, Seq<char>)> {
    seq![entry] + if entries.len() >= limit {
        entries.drop_last()
    } else {
        entries
    }
}

/// `lru::LruCache::put`, for a key that the cache does not hold.
#[verifier::external_body]
fn cache_put(cache: &mut lru::LruCache<String, regex::Regex>, key: String, re: regex::Regex)
    requires
        forall|at: int| !#[trigger] key_at(cached(*old(cache)), key@, at),
    ensures
        cache_limit(*final(cache)) == cache_limit(*old(cache)),
        cached(*final(cache)) == put_in_front(
            cached(*old(cache)),
            (key@, regex_source(re)),
            cache_limit(*old(cache)),
        ),
{
    cache.put(key, re);
}

/// `regex::Regex::clone`: an expression with the same source.
#[verifier::external_body]
fn same_regex(re: &regex::Regex) -> (r: regex::Regex)
    ensures
        regex_source(r) == regex_source(*re),
{
    re.clone()
}

/// The expressions that were used last, compiled.
pub struct RegexpCache {
    entries: lru::LruCache<String, regex::Regex>,
}

impl View for RegexpCache {
    type V = Seq<Seq<char>>;

    /// The patterns, the one that was used last in front.
    closed spec fn view(&self) -> Seq<Seq<char>> {
        keys(cached(self.entries))
    }
}

/// The patterns after one of them was used.
pub open spec fn patterns_after(before: Seq<Seq<char>>, pattern: Seq<char>) -> Seq<Seq<char>> {
    if before.contains(pattern) {
        seq![pattern] + before.remove(before.index_of(pattern))
    } else if regex_fault(pattern) is Some {
        before
    } else {
        seq![pattern] + if before.len() >= CACHE_SIZE {
            before.drop_last()
        } else {
            before
        }
    }
}

/// The keys of entries.
spec fn keys(entries: Seq<(Seq<char>, Seq<char>)>) -> Seq<Seq<char>> {
    entries.map_values(|e: (Seq<char>, Seq<char>)| e.0)
}

impl RegexpCache {
    /// Whether every expression was compiled from the pattern that it is kept under.
    pub closed spec fn wf(&self) -> bool {
        &&& cache_limit(self.entries) == CACHE_SIZE
        &&& forall|i: int|
            0 <= i < cached(self.entries).len() ==> {
                &&& (#[trigger] cached(self.entries)[i]).0 == cached(self.entries)[i].1
                &&& regex_fault(cached(self.entries)[i].0) is None
            }
        &&& keys(cached(self.entries)).no_duplicates()
    }

    /// A cache that holds no expression.
    pub fn new() -> (r: RegexpCache)
        ensures
            r.wf(),
            r@ == Seq::<Seq<char>>::empty(),
    {
        RegexpCache { entries: new_cache(CACHE_SIZE) }
    }

    /// Whether a text matches a pattern; the text of the error where the pattern is no regular
    /// expression.
    ///
    /// A pattern is compiled where the cache does not hold it. What the cache holds makes no
    /// difference to the answer.
    pub fn regexp(&mut self, pattern: &str, s: &str) -> (r: Result<bool, String>)
        requires
            old(self).wf(),
        ensures
            match r {
                Ok(found) => regex_fault(pattern@) is None && found == regex_matches(
                    pattern@,
                    s@,
                ),
                Err(e) => regex_fault(pattern@) == Some(e@),
            },
            final(self)@ == patterns_after(old(self)@, pattern@),
            final(self).wf(),
    {
        let ghost before = cached(self.entries);
        let ghost names = keys(before);
        match cache_get(&mut self.entries, pattern) {
            Some(re) => {
                proof {
                    let at = choose|at: int|
                        #![trigger moved_to_front(before, at)]
                        key_at(before, pattern@, at) && regex_source(re) == before[at].1 && cached(
                            self.entries,
                        ) == moved_to_front(before, at);
                    lemma_keys_moved(before, pattern@, at);
                }
                Ok(is_match(&re, s))
            },
            None => {
                proof {
                    if names.contains(pattern@) {
                        let at = choose|at: int| 0 <= at < names.len() && names[at] == pattern@;
                        assert(key_at(before, pattern@, at));
                    }
                }
                match compile(pattern) {
                    Ok(re) => {
                        cache_put(&mut self.entries, pattern.to_string(), same_regex(&re));
                        proof {
                            let after = cached(self.entries);
                            assert(keys(after) =~= patterns_after(names, pattern@));
                            assert forall|i: int, j: int|
                                0 <= i < j < keys(after).len() implies keys(after)[i] != keys(
                                after,
                            )[j] by {
                                assert(keys(after)[j] == names[j - 1]);
                                if i > 0 {
                                    assert(keys(after)[i] == names[i - 1]);
                                }
                            }
                        }
                        Ok(is_match(&re, s))
                    },
                    Err(e) => Err(e),
                }
            },
        }
    }
}

/// Using an entry moves its key to the front of the keys.
proof fn lemma_keys_moved(entries: Seq<(Seq<char>, Seq<char>)>, key: Seq<char>, at: int)
    requires
        key_at(entries, key, at),
        keys(entries).no_duplicates(),
    ensures
        keys(moved_to_front(entries, at)) == patterns_after(keys(entries), key),
        keys(moved_to_front(entries, at)).no_duplicates(),
        forall|i: int|
            0 <= i < entries.len() ==> exists|j: int|
                0 <= j < entries.len() && #[trigger] moved_to_front(entries, at)[i] == entries[j],
{
    let names = keys(entries);
    let after = moved_to_front(entries, at);
    assert(names[at] == key);
    assert(names.index_of(key) == at);
    assert(keys(after) =~= seq![key] + names.remove(at));
    assert forall|i: int| 0 <= i < entries.len() implies exists|j: int|
        0 <= j < entries.len() && #[trigger] after[i] == entries[j] by {
        let j = if i == 0 {
            at
        } else if i <= at {
            i - 1
        } else {
            i
        };
        assert(after[i] == entries[j]);
    }
    assert forall|i: int, j: int| 0 <= i < j < keys(after).len() implies keys(after)[i] != keys(
        after,
    )[j] by {
        let b = if j <= at {
            j - 1
        } else {
            j
        };
        assert(keys(after)[j] == names[b]);
        if i > 0 {
            let a = if i <= at {
                i - 1
            } else {
                i
            };
            assert(keys(after)[i] == names[a]);
        }
    }
}

/// A cache holds the patterns that were used last: the one that is used stands in front, all others
/// stay, but for the one that was not used for longest where a new one comes into a full cache. A
/// pattern that is no regular expression changes nothing.
pub proof fn last_used_patterns_are_kept(
    before: Seq<Seq<char>>,
    pattern: Seq<char>,
    other: Seq<char>,
)
    requires
        before.no_duplicates(),
        before.len() <= 32,
        other != pattern,
        before.contains(pattern) ==> regex_fault(pattern) is None,
    ensures
        patterns_after(before, pattern).len() <= 32,
        regex_fault(pattern) is None ==> patterns_after(before, pattern)[0] == pattern
            && patterns_after(before, pattern).len() > 0,
        regex_fault(pattern) is Some ==> patterns_after(before, pattern) == before,
        patterns_after(before, pattern).contains(other) ==> before.contains(other),
        before.contains(other) && (before.len() < 32 || before.contains(pattern) || other
            != before.last()) ==> patterns_after(before, pattern).contains(other),
        before.contains(pattern) ==> patterns_after(before, pattern).len() == before.len(),
{
    let after = patterns_after(before, pattern);
    if before.contains(pattern) {
        let at = before.index_of(pattern);
        assert(0 <= at < before.len() && before[at] == pattern);
        if after.contains(other) {
            let k = choose|k: int| 0 <= k < after.len() && after[k] == other;
            let j = if k <= at {
                k - 1
            } else {
                k
            };
            assert(before[j] == other);
        }
        if before.contains(other) {
            let k = choose|k: int| 0 <= k < before.len() && before[k] == other;
            let j = if k < at {
                k + 1
            } else {
                k
            };
            assert(after[j] == other);
        }
    } else if regex_fault(pattern) is None {
        if after.contains(other) {
            let k = choose|k: int| 0 <= k < after.len() && after[k] == other;
            assert(before[k - 1] == other);
        }
        if before.contains(other) && (before.len() < 32 || other != before.last()) {
            let k = choose|k: int| 0 <= k < before.len() && before[k] == other;
            assert(after[k + 1] == other);
        }
    }
}

} // verus!
