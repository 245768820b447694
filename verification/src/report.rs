//! History walking and report aggregation: turn the raw commit metadata read
//! from each repository into the filtered, ordered standup report.
//!
//! The walk over a repository's commit graph is an outside, on-disk concern;
//! this module receives the visited commits in traversal order as plain
//! `RawCommit` values and does everything with logic in it: applying the
//! commit filter, building the display records, dropping repositories whose
//! traversal failed or that had no match, and keeping discovery order.

use vstd::prelude::*;
use vstd::string::*;
use crate::filter::author_retained;
use crate::filter::sig_matches;
use crate::filter::time_retained;
use crate::filter::time_within;

verus! {

/// One commit as read from a repository's history walk: the content hash
/// rendered as text, the first line of the message, the author signature
/// (either field may be undecodable), and the author timestamp with its
/// timezone offset.
pub struct RawCommit {
    pub id: String,
    pub summary: String,
    pub author_name: Option<String>,
    pub author_email: Option<String>,
    pub timestamp_secs: i64,
    pub offset_minutes: i32,
}

/// One retained commit, ready for display: identity, summary, the rendered
/// timestamp, and the raw signature data it was built from.
pub struct GitInfo {
    pub id: String,
    pub summary: String,
    pub authored_at: String,
    pub timestamp_secs: i64,
    pub offset_minutes: i32,
    pub author_name: String,
    pub author_email: String,
}

/// One repository's contribution to the report: its path and its retained
/// commits, in traversal order. Only repositories with at least one retained
/// commit appear in a report.
pub struct RepoInfo(pub String, pub Vec<GitInfo>);

/// The outcome of walking one repository: its path, and the commits the walk
/// visited, in traversal order. `None` means the repository could not be
/// opened or traversed; such a repository is skipped, never fatal.
pub struct RepoSource {
    pub path: String,
    pub commits: Option<Vec<RawCommit>>,
}

/// The text that the timestamp renderer produces for a commit authored at
/// `seconds` since the epoch, displayed at the timezone `offset_seconds`
/// east of UTC: the weekday-month-day-time-year shape, or the empty string
/// where the instant cannot be rendered. The rendering depends on these two
/// arguments alone.
pub uninterp spec fn formatted_time(seconds: int, offset_seconds: int) -> Seq<char>;

/// Relies on the `time` crate: `OffsetDateTime::from_unix_timestamp`,
/// `UtcOffset::from_whole_seconds`, `OffsetDateTime::checked_to_offset` and
/// formatting with the fixed layout `%a %b %e %T %Y` render a timestamp from
/// the two arguments alone; every fallible step falls back rather than
/// panicking, to the unshifted instant or to the empty string.
#[verifier::external_body]
fn format_time(seconds: i64, offset_seconds: i32) -> (r: String)
    ensures
        r@ == formatted_time(seconds as int, offset_seconds as int),
{
    let utc = match time::OffsetDateTime::from_unix_timestamp(seconds) {
        Ok(d) => d,
        Err(_) => return String::new(),
    };
    let stamp = match time::UtcOffset::from_whole_seconds(offset_seconds) {
        Ok(o) => utc.checked_to_offset(o).unwrap_or(utc),
        Err(_) => utc,
    };
    match time::format_description::parse_strftime_borrowed("%a %b %e %T %Y") {
        Ok(shape) => stamp.format(&shape).unwrap_or_default(),
        Err(_) => String::new(),
    }
}

/// A commit's timezone offset in whole seconds, as handed to the renderer:
/// sixty times the offset in minutes where that fits the renderer's range,
/// and zero (UTC) where it does not.
pub open spec fn offset_seconds_of(minutes: int) -> int {
    if -2147483648 <= minutes * 60 && minutes * 60 <= 2147483647 {
        minutes * 60
    } else {
        0
    }
}

fn offset_seconds(minutes: i32) -> (s: i32)
    ensures
        s as int == offset_seconds_of(minutes as int),
{
    let wide: i64 = (minutes as i64) * 60;
    if -2147483648i64 <= wide && wide <= 2147483647i64 {
        wide as i32
    } else {
        0
    }
}

pub open spec fn opt_text(s: Option<String>) -> Seq<char> {
    match s {
        Some(t) => t@,
        None => Seq::<char>::empty(),
    }
}

fn clone_or_empty(s: &Option<String>) -> (r: String)
    ensures
        r@ == opt_text(*s),
{
    match s {
        Some(t) => String::from_str(t.as_str()),
        None => String::new(),
    }
}

/// Both halves of the commit filter: the author signature matches and the
/// timestamp falls inside the retention window.
pub open spec fn commit_retained(c: RawCommit, m: Seq<char>, days: int, now: int) -> bool {
    author_retained(c.author_name, c.author_email, m) && time_retained(
        c.timestamp_secs as int,
        now,
        days,
    )
}

/// The display record that a raw commit turns into.
pub open spec fn record_matches(g: GitInfo, c: RawCommit) -> bool {
    &&& g.id@ == c.id@
    &&& g.summary@ == c.summary@
    &&& g.authored_at@ == formatted_time(
        c.timestamp_secs as int,
        offset_seconds_of(c.offset_minutes as int),
    )
    &&& g.timestamp_secs == c.timestamp_secs
    &&& g.offset_minutes == c.offset_minutes
    &&& g.author_name@ == opt_text(c.author_name)
    &&& g.author_email@ == opt_text(c.author_email)
}

pub open spec fn records_match(recs: Seq<GitInfo>, raws: Seq<RawCommit>) -> bool {
    &&& recs.len() == raws.len()
    &&& forall|i: int| 0 <= i < raws.len() ==> record_matches(#[trigger] recs[i], raws[i])
}

/// The subsequence of `raws` that the commit filter retains, in order.
pub open spec fn kept(raws: Seq<RawCommit>, m: Seq<char>, days: int, now: int) -> Seq<RawCommit>
    decreases raws.len(),
{
    if raws.len() == 0 {
        Seq::<RawCommit>::empty()
    } else {
        let rest = kept(raws.drop_last(), m, days, now);
        if commit_retained(raws.last(), m, days, now) {
            rest.push(raws.last())
        } else {
            rest
        }
    }
}

proof fn lemma_kept_take_step(raws: Seq<RawCommit>, m: Seq<char>, days: int, now: int, i: int)
    requires
        0 <= i < raws.len(),
    ensures
        kept(raws.take(i + 1), m, days, now) == (if commit_retained(raws[i], m, days, now) {
            kept(raws.take(i), m, days, now).push(raws[i])
        } else {
            kept(raws.take(i), m, days, now)
        }),
{
    assert(raws.take(i + 1).drop_last() =~= raws.take(i));
    assert(raws.take(i + 1).last() == raws[i]);
}

/// Walk one repository's visited commits in order and keep those the filter
/// retains, each turned into its display record. Non-matching commits are
/// skipped without cutting the traversal short.
pub fn get_commits(raws: &Vec<RawCommit>, author: &str, days: u32, now: i64) -> (r: Vec<GitInfo>)
    ensures
        records_match(r@, kept(raws@, author@, days as int, now as int)),
{
    let ghost m = author@;
    let ghost d = days as int;
    let ghost n = now as int;
    let mut out: Vec<GitInfo> = Vec::new();
    let mut i: usize = 0;
    while i < raws.len()
        invariant
            i <= raws@.len(),
            m == author@ && d == days as int && n == now as int,
            records_match(out@, kept(raws@.take(i as int), m, d, n)),
        decreases raws@.len() - i,
    {
        let c = &raws[i];
        let by_author = sig_matches(&c.author_name, &c.author_email, author);
        let within = time_within(c.timestamp_secs, now, days);
        if by_author && within {
            let rec = GitInfo {
                id: String::from_str(c.id.as_str()),
                summary: String::from_str(c.summary.as_str()),
                authored_at: format_time(c.timestamp_secs, offset_seconds(c.offset_minutes)),
                timestamp_secs: c.timestamp_secs,
                offset_minutes: c.offset_minutes,
                author_name: clone_or_empty(&c.author_name),
                author_email: clone_or_empty(&c.author_email),
            };
            assert(record_matches(rec, raws@[i as int]));
            out.push(rec);
        }
        proof {
            lemma_kept_take_step(raws@, m, d, n, i as int);
        }
        i += 1;
    }
    proof {
        assert(raws@.take(raws@.len() as int) =~= raws@);
    }
    out
}

/// The commits a source handed over, empty where its traversal failed.
pub open spec fn source_commits(s: RepoSource) -> Seq<RawCommit> {
    match s.commits {
        Some(v) => v@,
        None => Seq::<RawCommit>::empty(),
    }
}

/// A source appears in the report exactly when its traversal succeeded and
/// the filter retained at least one of its commits.
pub open spec fn included(s: RepoSource, m: Seq<char>, days: int, now: int) -> bool {
    s.commits is Some && kept(source_commits(s), m, days, now).len() > 0
}

/// The subsequence of sources that appear in the report, in discovery order.
pub open spec fn included_sources(srcs: Seq<RepoSource>, m: Seq<char>, days: int, now: int) -> Seq<
    RepoSource,
>
    decreases srcs.len(),
{
    if srcs.len() == 0 {
        Seq::<RepoSource>::empty()
    } else {
        let rest = included_sources(srcs.drop_last(), m, days, now);
        if included(srcs.last(), m, days, now) {
            rest.push(srcs.last())
        } else {
            rest
        }
    }
}

proof fn lemma_included_take_step(srcs: Seq<RepoSource>, m: Seq<char>, days: int, now: int, i: int)
    requires
        0 <= i < srcs.len(),
    ensures
        included_sources(srcs.take(i + 1), m, days, now) == (if included(srcs[i], m, days, now) {
            included_sources(srcs.take(i), m, days, now).push(srcs[i])
        } else {
            included_sources(srcs.take(i), m, days, now)
        }),
{
    assert(srcs.take(i + 1).drop_last() =~= srcs.take(i));
    assert(srcs.take(i + 1).last() == srcs[i]);
}

/// One report entry stands for one included source: same path, and its
/// retained commits as display records.
pub open spec fn repo_entry_matches(
    rep: RepoInfo,
    s: RepoSource,
    m: Seq<char>,
    days: int,
    now: int,
) -> bool {
    &&& rep.0@ == s.path@
    &&& records_match(rep.1@, kept(source_commits(s), m, days, now))
}

/// The whole report stands for the included sources, one entry each, in
/// discovery order.
pub open spec fn report_matches(
    reps: Seq<RepoInfo>,
    srcs: Seq<RepoSource>,
    m: Seq<char>,
    days: int,
    now: int,
) -> bool {
    &&& reps.len() == included_sources(srcs, m, days, now).len()
    &&& forall|i: int|
        0 <= i < reps.len() ==> repo_entry_matches(
            #[trigger] reps[i],
            included_sources(srcs, m, days, now)[i],
            m,
            days,
            now,
        )
}

/// Aggregate the walk outcomes of all discovered repositories into the
/// report: a failed traversal is skipped, a repository with no retained
/// commit is omitted, and every other repository contributes one entry, in
/// discovery order.
pub fn get_repo_info(sources: &Vec<RepoSource>, author: &str, days: u32, now: i64) -> (r: Vec<
    RepoInfo,
>)
    ensures
        report_matches(r@, sources@, author@, days as int, now as int),
{
    let ghost m = author@;
    let ghost d = days as int;
    let ghost n = now as int;
    let mut out: Vec<RepoInfo> = Vec::new();
    let mut i: usize = 0;
    while i < sources.len()
        invariant
            i <= sources@.len(),
            m == author@ && d == days as int && n == now as int,
            report_matches(out@, sources@.take(i as int), m, d, n),
        decreases sources@.len() - i,
    {
        let s = &sources[i];
        match &s.commits {
            None => {},
            Some(v) => {
                let recs = get_commits(v, author, days, now);
                if recs.len() > 0 {
                    let entry = RepoInfo(String::from_str(s.path.as_str()), recs);
                    assert(repo_entry_matches(entry, sources@[i as int], m, d, n));
                    out.push(entry);
                }
            },
        }
        proof {
            lemma_included_take_step(sources@, m, d, n, i as int);
        }
        i += 1;
    }
    proof {
        assert(sources@.take(sources@.len() as int) =~= sources@);
    }
    out
}

/// The kept subsequence is exactly the retained commits: every commit in it
/// passes both filter predicates, and every visited commit that passes them
/// appears in it.
pub proof fn lemma_kept_retains_exactly(raws: Seq<RawCommit>, m: Seq<char>, days: int, now: int)
    ensures
        forall|j: int|
            0 <= j < kept(raws, m, days, now).len() ==> commit_retained(
                #[trigger] kept(raws, m, days, now)[j],
                m,
                days,
                now,
            ),
        forall|i: int|
            0 <= i < raws.len() && commit_retained(#[trigger] raws[i], m, days, now) ==> kept(
                raws,
                m,
                days,
                now,
            ).contains(raws[i]),
    decreases raws.len(),
{
    if raws.len() > 0 {
        lemma_kept_retains_exactly(raws.drop_last(), m, days, now);
        let rest = kept(raws.drop_last(), m, days, now);
        let whole = kept(raws, m, days, now);
        assert forall|i: int|
            0 <= i < raws.len() && commit_retained(#[trigger] raws[i], m, days, now) implies whole
            .contains(raws[i]) by {
            if i < raws.len() - 1 {
                assert(raws.drop_last()[i] == raws[i]);
                assert(rest.contains(raws[i]));
                let j = choose|j: int| 0 <= j < rest.len() && rest[j] == raws[i];
                assert(whole[j] == raws[i]);
            } else {
                assert(whole[whole.len() - 1] == raws[i]);
            }
        }
    }
}

/// Every source that contributes a report entry is included: its walk
/// succeeded and retained at least one commit.
proof fn lemma_included_members(srcs: Seq<RepoSource>, m: Seq<char>, days: int, now: int)
    ensures
        forall|j: int|
            0 <= j < included_sources(srcs, m, days, now).len() ==> included(
                #[trigger] included_sources(srcs, m, days, now)[j],
                m,
                days,
                now,
            ),
    decreases srcs.len(),
{
    if srcs.len() > 0 {
        lemma_included_members(srcs.drop_last(), m, days, now);
        let rest = included_sources(srcs.drop_last(), m, days, now);
        let whole = included_sources(srcs, m, days, now);
        assert forall|j: int| 0 <= j < whole.len() implies included(
            #[trigger] whole[j],
            m,
            days,
            now,
        ) by {
            if j < rest.len() {
                assert(whole[j] == rest[j]);
            }
        }
    }
}

/// The report never holds an empty entry: each one carries at least one
/// retained commit of a successfully walked repository.
pub proof fn lemma_report_entries_nonempty(
    reps: Seq<RepoInfo>,
    srcs: Seq<RepoSource>,
    m: Seq<char>,
    days: int,
    now: int,
)
    requires
        report_matches(reps, srcs, m, days, now),
    ensures
        forall|i: int| 0 <= i < reps.len() ==> (#[trigger] reps[i]).1@.len() > 0,
{
    lemma_included_members(srcs, m, days, now);
    let inc = included_sources(srcs, m, days, now);
    assert forall|i: int| 0 <= i < reps.len() implies (#[trigger] reps[i]).1@.len() > 0 by {
        assert(repo_entry_matches(reps[i], inc[i], m, days, now));
        assert(included(inc[i], m, days, now));
    }
}

/// Two display records with the same visible content.
pub open spec fn same_record(a: GitInfo, b: GitInfo) -> bool {
    &&& a.id@ == b.id@
    &&& a.summary@ == b.summary@
    &&& a.authored_at@ == b.authored_at@
    &&& a.timestamp_secs == b.timestamp_secs
    &&& a.offset_minutes == b.offset_minutes
    &&& a.author_name@ == b.author_name@
    &&& a.author_email@ == b.author_email@
}

/// Two report entries with the same path and the same records.
pub open spec fn same_entry(a: RepoInfo, b: RepoInfo) -> bool {
    &&& a.0@ == b.0@
    &&& a.1@.len() == b.1@.len()
    &&& forall|j: int| 0 <= j < a.1@.len() ==> same_record(#[trigger] a.1@[j], b.1@[j])
}

/// Aggregation is a pure function of its inputs: any two reports built from
/// the same walk outcomes with the same author string, day count and clock
/// reading agree entry by entry, in content and in order.
pub proof fn lemma_aggregation_deterministic(
    r1: Seq<RepoInfo>,
    r2: Seq<RepoInfo>,
    srcs: Seq<RepoSource>,
    m: Seq<char>,
    days: int,
    now: int,
)
    requires
        report_matches(r1, srcs, m, days, now),
        report_matches(r2, srcs, m, days, now),
    ensures
        r1.len() == r2.len(),
        forall|i: int| 0 <= i < r1.len() ==> same_entry(#[trigger] r1[i], r2[i]),
{
    let inc = included_sources(srcs, m, days, now);
    assert forall|i: int| 0 <= i < r1.len() implies same_entry(#[trigger] r1[i], r2[i]) by {
        assert(repo_entry_matches(r1[i], inc[i], m, days, now));
        assert(repo_entry_matches(r2[i], inc[i], m, days, now));
        let ks = kept(source_commits(inc[i]), m, days, now);
        assert forall|j: int| 0 <= j < r1[i].1@.len() implies same_record(
            #[trigger] r1[i].1@[j],
            r2[i].1@[j],
        ) by {
            assert(record_matches(r1[i].1@[j], ks[j]));
            assert(record_matches(r2[i].1@[j], ks[j]));
        }
    }
}

/// A repository whose traversal failed never changes the report: with such a
/// source inserted anywhere in the discovery order, the included sources are
/// exactly those without it.
pub proof fn lemma_failed_source_skipped(
    srcs: Seq<RepoSource>,
    bad: RepoSource,
    i: int,
    m: Seq<char>,
    days: int,
    now: int,
)
    requires
        0 <= i <= srcs.len(),
        bad.commits is None,
    ensures
        included_sources(srcs.insert(i, bad), m, days, now) == included_sources(
            srcs,
            m,
            days,
            now,
        ),
    decreases srcs.len(),
{
    let ext = srcs.insert(i, bad);
    if i == srcs.len() {
        assert(ext.drop_last() =~= srcs);
        assert(ext.last() == bad);
    } else {
        assert(ext.last() == srcs.last());
        assert(ext.drop_last() =~= srcs.drop_last().insert(i, bad));
        lemma_failed_source_skipped(srcs.drop_last(), bad, i, m, days, now);
    }
}

} // verus!
