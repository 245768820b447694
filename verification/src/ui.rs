//! Table navigation: the selection state machine behind the interactive
//! table, its flattened display rows, and the dispatch of one input event.
//!
//! Rendering and the blocking read of input events are outside, terminal
//! concerns; everything that decides — which row is selected next, what each
//! row shows, whether the session ends — is here and verified.

use vstd::prelude::*;
use vstd::string::*;
use crate::report::GitInfo;
use crate::report::RepoInfo;

verus! {

/// The next selection: on an empty table nothing changes; from no selection
/// or from the last row the cursor moves to the first row; otherwise it
/// advances by one. (Wraps forward.)
pub open spec fn next_sel(sel: Option<usize>, n: nat) -> Option<usize> {
    if n == 0 {
        sel
    } else {
        match sel {
            None => Some(0usize),
            Some(i) => if i + 1 < n {
                Some((i + 1) as usize)
            } else {
                Some(0usize)
            },
        }
    }
}

/// The previous selection: on an empty table nothing changes; from no
/// selection or from the first row the cursor moves to the last row;
/// otherwise it steps back by one. (Wraps backward.)
pub open spec fn prev_sel(sel: Option<usize>, n: nat) -> Option<usize> {
    if n == 0 {
        sel
    } else {
        match sel {
            None => Some((n - 1) as usize),
            Some(i) => if i == 0 {
                Some((n - 1) as usize)
            } else {
                Some((i - 1) as usize)
            },
        }
    }
}

/// The interactive table: the flattened display items and the cursor.
/// Before any navigation the cursor may be unset; every transition leaves it
/// on a valid row unless the table is empty.
pub struct App {
    pub items: Vec<GitInfo>,
    pub selected: Option<usize>,
}

impl App {
    /// The cursor, when set, points at a row of the table.
    pub open spec fn wf(self) -> bool {
        match self.selected {
            Some(i) => (i as int) < self.items@.len(),
            None => true,
        }
    }

    pub fn new(items: Vec<GitInfo>) -> (app: App)
        ensures
            app.items == items,
            app.selected is None,
            app.wf(),
    {
        App { items, selected: None }
    }

    /// Move the cursor forward one row, wrapping to the first row; on an
    /// empty table this is a no-op and the cursor stays unset.
    pub fn next(&mut self)
        requires
            old(self).wf(),
        ensures
            final(self).items == old(self).items,
            final(self).selected == next_sel(old(self).selected, old(self).items@.len()),
            final(self).wf(),
    {
        let n = self.items.len();
        if n == 0 {
            return;
        }
        let i: usize = match self.selected {
            None => 0,
            Some(i) => if i + 1 < n {
                i + 1
            } else {
                0
            },
        };
        self.selected = Some(i);
    }

    /// Move the cursor back one row, wrapping to the last row; on an empty
    /// table this is a no-op and the cursor stays unset.
    pub fn previous(&mut self)
        requires
            old(self).wf(),
        ensures
            final(self).items == old(self).items,
            final(self).selected == prev_sel(old(self).selected, old(self).items@.len()),
            final(self).wf(),
    {
        let n = self.items.len();
        if n == 0 {
            return;
        }
        let i: usize = match self.selected {
            None => n - 1,
            Some(i) => if i == 0 {
                n - 1
            } else {
                i - 1
            },
        };
        self.selected = Some(i);
    }
}

/// One input event, as the terminal layer reports it.
pub enum InputEvent {
    Quit,
    Down,
    Up,
    Other,
}

/// Dispatch one input event to the table: the down key advances the cursor,
/// the up key steps it back, the quit key ends the session, and anything
/// else is ignored. Returns whether the session should end.
pub fn handle_event(app: &mut App, ev: &InputEvent) -> (quit: bool)
    requires
        old(app).wf(),
    ensures
        final(app).wf(),
        quit == (ev is Quit),
        ev is Down ==> final(app).items == old(app).items && final(app).selected == next_sel(
            old(app).selected,
            old(app).items@.len(),
        ),
        ev is Up ==> final(app).items == old(app).items && final(app).selected == prev_sel(
            old(app).selected,
            old(app).items@.len(),
        ),
        (ev is Quit || ev is Other) ==> *final(app) == *old(app),
{
    match ev {
        InputEvent::Quit => true,
        InputEvent::Down => {
            app.next();
            false
        },
        InputEvent::Up => {
            app.previous();
            false
        },
        InputEvent::Other => false,
    }
}

/// The selection sequence: the cursor after `k` forward steps on a table of
/// `n` rows.
pub open spec fn iter_next(sel: Option<usize>, n: nat, k: nat) -> Option<usize>
    decreases k,
{
    if k == 0 {
        sel
    } else {
        next_sel(iter_next(sel, n, (k - 1) as nat), n)
    }
}

/// From the unselected state the first forward step selects the first row,
/// and the k-th rests on row k - 1, as long as the steps stay within the
/// table.
pub proof fn lemma_next_from_unselected(n: nat, k: nat)
    requires
        1 <= k <= n,
        n <= usize::MAX,
    ensures
        iter_next(None, n, k) == Some((k - 1) as usize),
    decreases k,
{
    if k > 1 {
        lemma_next_from_unselected(n, (k - 1) as nat);
        assert(iter_next(None, n, k) == next_sel(Some((k - 2) as usize), n));
    } else {
        assert(iter_next(None, n, 0nat) == None::<usize>);
        assert(iter_next(None, n, 1nat) == next_sel(None, n));
    }
}

/// Starting unselected, stepping forward as many times as the table has rows
/// returns the cursor to the first row. The very first step selects row zero
/// rather than stepping past it, so this holds exactly on a table of one row.
pub proof fn lemma_wraparound_from_unselected(n: nat)
    requires
        n == 1,
    ensures
        iter_next(None, n, n) == Some(0usize),
{
}

/// Starting unselected, one step more than the table has rows wraps the
/// cursor back to the first row: the first step selects row zero, the
/// remaining ones walk the whole table once.
pub proof fn lemma_next_wraps_after_full_pass(n: nat)
    requires
        1 <= n <= usize::MAX,
    ensures
        iter_next(None, n, n + 1) == Some(0usize),
{
    lemma_next_from_unselected(n, n);
    assert(iter_next(None, n, n + 1) == next_sel(Some((n - 1) as usize), n));
}

proof fn lemma_cycle_helper(n: nat, k: nat)
    requires
        k < n <= usize::MAX,
    ensures
        iter_next(Some(0usize), n, k) == Some(k as usize),
    decreases k,
{
    if k > 0 {
        lemma_cycle_helper(n, (k - 1) as nat);
    }
}

/// A full cycle: from the first row, stepping forward as many times as the
/// table has rows returns the cursor to the first row.
pub proof fn lemma_next_full_cycle(n: nat)
    requires
        1 <= n <= usize::MAX,
    ensures
        iter_next(Some(0usize), n, n) == Some(0usize),
{
    lemma_cycle_helper(n, (n - 1) as nat);
}

/// One step back from the first row wraps the cursor to the last row.
pub proof fn lemma_previous_wraps(n: nat)
    requires
        1 <= n <= usize::MAX,
    ensures
        prev_sel(Some(0usize), n) == Some((n - 1) as usize),
{
}

/// On an empty table neither transition moves the cursor.
pub proof fn lemma_empty_rows_noop(sel: Option<usize>)
    ensures
        next_sel(sel, 0) == sel,
        prev_sel(sel, 0) == sel,
{
}

/// One displayable table row: a short prefix of the commit id, the summary
/// line, and the rendered timestamp.
pub struct DisplayRow {
    pub short_id: String,
    pub summary: String,
    pub authored_at: String,
}

/// The displayed commit id: a ten-character prefix, or the whole id where it
/// is already that short.
pub open spec fn short_id_of(id: Seq<char>) -> Seq<char> {
    if id.len() <= 10 {
        id
    } else {
        id.take(10)
    }
}

pub fn short_id(id: &str) -> (r: String)
    ensures
        r@ == short_id_of(id@),
{
    let n = id.unicode_len();
    if n <= 10 {
        String::from_str(id)
    } else {
        let prefix = id.substring_char(0, 10);
        proof {
            assert(id@.subrange(0, 10) =~= id@.take(10));
        }
        String::from_str(prefix)
    }
}

pub open spec fn row_matches(row: DisplayRow, g: GitInfo) -> bool {
    &&& row.short_id@ == short_id_of(g.id@)
    &&& row.summary@ == g.summary@
    &&& row.authored_at@ == g.authored_at@
}

pub open spec fn rows_match(rows: Seq<DisplayRow>, recs: Seq<GitInfo>) -> bool {
    &&& rows.len() == recs.len()
    &&& forall|i: int| 0 <= i < recs.len() ==> row_matches(#[trigger] rows[i], recs[i])
}

/// All records of a report, entry by entry, in order.
pub open spec fn flattened(reps: Seq<RepoInfo>) -> Seq<GitInfo>
    decreases reps.len(),
{
    if reps.len() == 0 {
        Seq::<GitInfo>::empty()
    } else {
        flattened(reps.drop_last()) + reps.last().1@
    }
}

proof fn lemma_flattened_take_step(reps: Seq<RepoInfo>, i: int)
    requires
        0 <= i < reps.len(),
    ensures
        flattened(reps.take(i + 1)) == flattened(reps.take(i)) + reps[i].1@,
{
    assert(reps.take(i + 1).drop_last() =~= reps.take(i));
    assert(reps.take(i + 1).last() == reps[i]);
}

/// Flatten a report into its display rows: one row per retained commit,
/// repository by repository, commits in traversal order.
pub fn flatten_rows(reps: &Vec<RepoInfo>) -> (rows: Vec<DisplayRow>)
    ensures
        rows_match(rows@, flattened(reps@)),
{
    let mut rows: Vec<DisplayRow> = Vec::new();
    let mut i: usize = 0;
    while i < reps.len()
        invariant
            i <= reps@.len(),
            rows_match(rows@, flattened(reps@.take(i as int))),
        decreases reps@.len() - i,
    {
        let entry = &reps[i];
        let recs = &entry.1;
        let ghost base = flattened(reps@.take(i as int));
        let mut k: usize = 0;
        while k < recs.len()
            invariant
                k <= recs@.len(),
                base == flattened(reps@.take(i as int)),
                recs@ == reps@[i as int].1@,
                rows_match(rows@, base + recs@.take(k as int)),
            decreases recs@.len() - k,
        {
            let g = &recs[k];
            let row = DisplayRow {
                short_id: short_id(g.id.as_str()),
                summary: String::from_str(g.summary.as_str()),
                authored_at: String::from_str(g.authored_at.as_str()),
            };
            rows.push(row);
            proof {
                assert((base + recs@.take(k as int)).push(recs@[k as int]) =~= base + recs@.take(
                    k as int + 1,
                ));
            }
            k += 1;
        }
        proof {
            assert(recs@.take(recs@.len() as int) =~= recs@);
            lemma_flattened_take_step(reps@, i as int);
        }
        i += 1;
    }
    proof {
        assert(reps@.take(reps@.len() as int) =~= reps@);
    }
    rows
}

} // verus!
