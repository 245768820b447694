//! Commit filter: the two pure predicates that decide whether a commit is
//! retained — author-identity match (substring containment on name or email)
//! and time-window match (authored strictly later than `now - days * 86400`).

use vstd::prelude::*;
use vstd::string::*;

verus! {

/// `needle` occurs contiguously somewhere inside `hay`.
pub open spec fn is_substring_of(needle: Seq<char>, hay: Seq<char>) -> bool {
    exists|i: int|
        0 <= i && i + needle.len() <= hay.len() && #[trigger] hay.subrange(
            i,
            i + needle.len() as int,
        ) == needle
}

/// A commit timestamp `t` falls inside the retention window: strictly more
/// recent than `days` whole days before `now`.
pub open spec fn time_retained(t: int, now: int, days: int) -> bool {
    t > now - days * 86400
}

/// The author filter retains a commit when the match string occurs in its
/// author's display name or in its author's email; an author field that could
/// not be decoded never matches.
pub open spec fn field_retained(field: Option<String>, m: Seq<char>) -> bool {
    match field {
        Some(s) => is_substring_of(m, s@),
        None => false,
    }
}

pub open spec fn author_retained(name: Option<String>, email: Option<String>, m: Seq<char>) -> bool {
    field_retained(name, m) || field_retained(email, m)
}

fn chars_of(s: &str) -> (v: Vec<char>)
    ensures
        v@ == s@,
{
    let n = s.unicode_len();
    let mut v: Vec<char> = Vec::new();
    let mut i: usize = 0;
    while i < n
        invariant
            i <= n,
            n == s@.len(),
            v@ == s@.take(i as int),
        decreases n - i,
    {
        let c = s.get_char(i);
        v.push(c);
        proof {
            assert(s@.take(i as int).push(s@[i as int]) =~= s@.take(i as int + 1));
        }
        i += 1;
    }
    proof {
        assert(s@.take(n as int) =~= s@);
    }
    v
}

fn match_at(h: &Vec<char>, n: &Vec<char>, start: usize) -> (r: bool)
    requires
        start + n@.len() <= h@.len(),
        h@.len() <= usize::MAX,
    ensures
        r == (h@.subrange(start as int, start as int + n@.len() as int) == n@),
{
    let mut j: usize = 0;
    while j < n.len()
        invariant
            j <= n@.len(),
            start + n@.len() <= h@.len(),
            h@.len() <= usize::MAX,
            forall|k: int| 0 <= k < j ==> h@[start + k] == n@[k],
        decreases n@.len() - j,
    {
        if h[start + j] != n[j] {
            proof {
                assert(h@.subrange(start as int, start as int + n@.len() as int)[j as int]
                    == h@[start + j]);
            }
            return false;
        }
        j += 1;
    }
    proof {
        assert(h@.subrange(start as int, start as int + n@.len() as int) =~= n@);
    }
    true
}

fn contains_chars(h: &Vec<char>, n: &Vec<char>) -> (r: bool)
    ensures
        r == is_substring_of(n@, h@),
{
    if n.len() == 0 {
        proof {
            lemma_empty_needle_matches(h@);
            assert(n@ =~= Seq::<char>::empty());
        }
        return true;
    }
    if n.len() > h.len() {
        return false;
    }
    let count = h.len() - n.len();
    let mut i: usize = 0;
    while i <= count
        invariant
            1 <= n@.len() <= h@.len(),
            h@.len() <= usize::MAX,
            count == h@.len() - n@.len(),
            i <= count + 1,
            forall|k: int|
                0 <= k < i ==> #[trigger] h@.subrange(k, k + n@.len() as int) != n@,
        decreases count + 1 - i,
    {
        if match_at(h, n, i) {
            assert(is_substring_of(n@, h@)) by {
                assert(0 <= i as int && i as int + n@.len() <= h@.len()
                    && h@.subrange(i as int, i as int + n@.len() as int) == n@);
            }
            return true;
        }
        i += 1;
    }
    proof {
        assert forall|k: int| 0 <= k && k + n@.len() <= h@.len() implies #[trigger] h@.subrange(
            k,
            k + n@.len() as int,
        ) != n@ by {
            assert(k < i);
        }
    }
    false
}

/// Case-sensitive substring containment on strings, as sequences of characters.
pub fn contains_substring(hay: &str, needle: &str) -> (r: bool)
    ensures
        r == is_substring_of(needle@, hay@),
{
    let h = chars_of(hay);
    let n = chars_of(needle);
    contains_chars(&h, &n)
}

/// Does the author signature (name, email) match the configured identity
/// string? True exactly when the string occurs in the decodable name or in
/// the decodable email.
pub fn sig_matches(name: &Option<String>, email: &Option<String>, m: &str) -> (r: bool)
    ensures
        r == author_retained(*name, *email, m@),
{
    let by_name = match name {
        Some(s) => contains_substring(s.as_str(), m),
        None => false,
    };
    if by_name {
        return true;
    }
    match email {
        Some(s) => contains_substring(s.as_str(), m),
        None => false,
    }
}

/// Is the commit timestamp within the retention window ending at `now`?
pub fn time_within(t: i64, now: i64, days: u32) -> (r: bool)
    ensures
        r == time_retained(t as int, now as int, days as int),
{
    let window: i128 = (days as i128) * 86400;
    let cutoff: i128 = (now as i128) - window;
    (t as i128) > cutoff
}

/// A zero-day window retains nothing: no commit dated at or before `now`
/// is strictly more recent than `now`.
pub proof fn lemma_zero_days_retains_nothing(t: int, now: int)
    requires
        t <= now,
    ensures
        !time_retained(t, now, 0),
{
}

/// The empty string is a substring of every string.
pub proof fn lemma_empty_needle_matches(hay: Seq<char>)
    ensures
        is_substring_of(Seq::<char>::empty(), hay),
{
    let e = Seq::<char>::empty();
    assert(hay.subrange(0, 0 + e.len() as int) =~= e);
    assert(0 <= 0 && 0 + e.len() <= hay.len());
}

/// An empty author-match string retains every commit whose author has a
/// decodable name or a decodable email.
pub proof fn lemma_empty_match_retains(name: Option<String>, email: Option<String>, m: Seq<char>)
    requires
        m.len() == 0,
        name is Some || email is Some,
    ensures
        author_retained(name, email, m),
{
    assert(m =~= Seq::<char>::empty());
    match name {
        Some(s) => lemma_empty_needle_matches(s@),
        None => {},
    }
    match email {
        Some(s) => lemma_empty_needle_matches(s@),
        None => {},
    }
}

} // verus!
