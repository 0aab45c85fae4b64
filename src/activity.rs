use vstd::prelude::*;

verus! {

/// One task of the activity, as listed by the remote service.
pub struct Task {
    pub id: u32,
    pub cycle: String,
    pub mileage: u8,
    pub description: String,
    pub count: u8,
    pub event_id: String,
    pub finished: bool,
}

/// The indices of the unfinished tasks, in the order in which they are listed.
pub open spec fn unfinished_indices(tasks: Seq<Task>) -> Seq<int>
    decreases tasks.len(),
{
    if tasks.len() == 0 {
        Seq::empty()
    } else {
        let rest = unfinished_indices(tasks.drop_last());
        if tasks.last().finished {
            rest
        } else {
            rest.push(tasks.len() - 1)
        }
    }
}

/// Selects the tasks to complete: the index of each unfinished task, once, in
/// list order.
pub fn pending_tasks(tasks: &Vec<Task>) -> (r: Vec<usize>)
    ensures
        r@.len() == unfinished_indices(tasks@).len(),
        forall|k: int| 0 <= k < r@.len() ==> r@[k] as int == unfinished_indices(tasks@)[k],
{
    let mut r: Vec<usize> = Vec::new();
    let mut i: usize = 0;
    while i < tasks.len()
        invariant
            i <= tasks@.len(),
            r@.len() == unfinished_indices(tasks@.subrange(0, i as int)).len(),
            forall|k: int|
                0 <= k < r@.len() ==> r@[k] as int == unfinished_indices(
                    tasks@.subrange(0, i as int),
                )[k],
        decreases tasks.len() - i,
    {
        assert(tasks@.subrange(0, i + 1).drop_last() =~= tasks@.subrange(0, i as int));
        if !tasks[i].finished {
            r.push(i);
        }
        i = i + 1;
    }
    assert(tasks@.subrange(0, tasks@.len() as int) =~= tasks@);
    r
}

/// Task selection attempts every unfinished task exactly once and no finished
/// one, in the order in which the tasks are listed.
pub proof fn lemma_unfinished_exactly_once(tasks: Seq<Task>)
    ensures
        forall|k: int|
            0 <= k < unfinished_indices(tasks).len() ==> {
                let i = #[trigger] unfinished_indices(tasks)[k];
                0 <= i < tasks.len() && !tasks[i].finished
            },
        forall|i: int|
            0 <= i < tasks.len() && !tasks[i].finished ==> exists|k: int|
                0 <= k < unfinished_indices(tasks).len() && #[trigger] unfinished_indices(
                    tasks,
                )[k] == i,
        forall|j: int, k: int|
            0 <= j < k < unfinished_indices(tasks).len() ==> unfinished_indices(tasks)[j]
                < unfinished_indices(tasks)[k],
    decreases tasks.len(),
{
    if tasks.len() > 0 {
        let init = tasks.drop_last();
        lemma_unfinished_exactly_once(init);
        let p = unfinished_indices(init);
        assert forall|i: int| 0 <= i < tasks.len() && !tasks[i].finished implies exists|k: int|
            0 <= k < unfinished_indices(tasks).len() && #[trigger] unfinished_indices(tasks)[k]
                == i by {
            if i < tasks.len() - 1 {
                assert(init[i] == tasks[i]);
                let k = choose|k: int| 0 <= k < p.len() && #[trigger] p[k] == i;
                assert(unfinished_indices(tasks)[k] == i);
            } else {
                assert(unfinished_indices(tasks)[p.len() as int] == i);
            }
        }
        assert forall|k: int| 0 <= k < unfinished_indices(tasks).len() implies {
            let i = #[trigger] unfinished_indices(tasks)[k];
            0 <= i < tasks.len() && !tasks[i].finished
        } by {
            if k < p.len() {
                assert(unfinished_indices(tasks)[k] == p[k]);
                assert(init[p[k]] == tasks[p[k]]);
            }
        }
    }
}

/// One category of the prize map and the number of items listed under it; a
/// category whose entry is not a list counts as empty.
pub struct PrizeCategory {
    pub name: String,
    pub item_count: usize,
}

/// The number of categories with at least one item.
pub open spec fn claimable_count(categories: Seq<PrizeCategory>) -> nat
    decreases categories.len(),
{
    if categories.len() == 0 {
        0
    } else {
        claimable_count(categories.drop_last()) + if categories.last().item_count > 0 {
            1nat
        } else {
            0nat
        }
    }
}

proof fn lemma_claimable_count_bound(categories: Seq<PrizeCategory>)
    ensures
        claimable_count(categories) <= categories.len(),
    decreases categories.len(),
{
    if categories.len() > 0 {
        lemma_claimable_count_bound(categories.drop_last());
    }
}

/// Counts the prize categories that hold at least one item.
pub fn count_awards(categories: &Vec<PrizeCategory>) -> (r: usize)
    ensures
        r == claimable_count(categories@),
{
    let mut n: usize = 0;
    let mut i: usize = 0;
    while i < categories.len()
        invariant
            i <= categories@.len(),
            n == claimable_count(categories@.subrange(0, i as int)),
        decreases categories.len() - i,
    {
        assert(categories@.subrange(0, i + 1).drop_last() =~= categories@.subrange(0, i as int));
        proof {
            lemma_claimable_count_bound(categories@.subrange(0, i as int));
        }
        if categories[i].item_count > 0 {
            n = n + 1;
        }
        i = i + 1;
    }
    assert(categories@.subrange(0, categories@.len() as int) =~= categories@);
    n
}

/// Mileage consumed by one voyage.
pub const MILEAGE_PER_VOYAGE: u64 = 10;

/// How the remote service answered one voyage request.
#[derive(PartialEq, Eq, Structural, Clone, Copy, Debug)]
pub enum VoyageReply {
    /// The body was not JSON: the voyage is skipped and the next one tried.
    Unreadable,
    /// The voyage was made.
    Accepted,
    /// The service refused it: no further voyage is tried.
    Refused,
}

/// The redemption loop: how many voyages are still owed, how many were
/// tried, and whether the service has refused one.
#[derive(PartialEq, Eq, Structural, Clone, Copy, Debug)]
pub struct Voyages {
    pub remaining: u64,
    pub attempted: u64,
    pub halted: bool,
}

impl Voyages {
    /// The counters never overflow.
    pub open spec fn wf(self) -> bool {
        self.attempted + self.remaining <= u64::MAX
    }

    /// Whether another voyage is to be tried.
    pub open spec fn may_sail(self) -> bool {
        !self.halted && self.remaining > 0
    }

    /// The state after a voyage has been started.
    pub open spec fn started(self) -> Voyages {
        Voyages { remaining: (self.remaining - 1) as u64, attempted: (self.attempted + 1) as u64, ..self }
    }

    /// The state after a reply has been recorded.
    pub open spec fn answered(self, reply: VoyageReply) -> Voyages {
        Voyages { halted: self.halted || reply == VoyageReply::Refused, ..self }
    }

    /// The state before the first voyage, for a balance of `usable` mileage.
    pub open spec fn fresh(usable: u64) -> Voyages {
        Voyages { remaining: usable / 10, attempted: 0, halted: false }
    }

    /// Starts the loop for a balance of `usable` mileage: one voyage per full
    /// ten, the remainder left unused.
    pub fn new(usable: u64) -> (r: Voyages)
        ensures
            r == Voyages::fresh(usable),
            r.remaining == usable / 10,
            r.wf(),
    {
        Voyages { remaining: usable / MILEAGE_PER_VOYAGE, attempted: 0, halted: false }
    }

    /// Decides whether to try one more voyage, and counts it if so.
    pub fn next_voyage(&mut self) -> (go: bool)
        requires
            old(self).wf(),
        ensures
            go == old(self).may_sail(),
            *final(self) == if go { old(self).started() } else { *old(self) },
            final(self).wf(),
    {
        if !self.halted && self.remaining > 0 {
            self.remaining = self.remaining - 1;
            self.attempted = self.attempted + 1;
            true
        } else {
            false
        }
    }

    /// Records the reply to the voyage just tried.
    pub fn record(&mut self, reply: VoyageReply)
        ensures
            *final(self) == old(self).answered(reply),
    {
        if reply == VoyageReply::Refused {
            self.halted = true;
        }
    }
}

/// The number of voyages tried by the loop that asks `next_voyage` and, after
/// each voyage, records the next reply of `replies`.
pub open spec fn voyages_tried(v: Voyages, replies: Seq<VoyageReply>) -> nat
    decreases v.remaining,
{
    if !v.may_sail() || replies.len() == 0 {
        0
    } else {
        1 + voyages_tried(v.started().answered(replies[0]), replies.drop_first())
    }
}

proof fn lemma_voyages_tried(v: Voyages, replies: Seq<VoyageReply>)
    requires
        !v.halted,
        replies.len() >= v.remaining,
    ensures
        (forall|k: int| 0 <= k < v.remaining ==> replies[k] != VoyageReply::Refused)
            ==> voyages_tried(v, replies) == v.remaining,
        forall|k: int|
            0 <= k < v.remaining && replies[k] == VoyageReply::Refused && (forall|j: int|
                0 <= j < k ==> replies[j] != VoyageReply::Refused) ==> voyages_tried(v, replies)
                == k + 1,
    decreases v.remaining,
{
    if v.remaining > 0 {
        let w = v.started().answered(replies[0]);
        let rest = replies.drop_first();
        if replies[0] != VoyageReply::Refused {
            lemma_voyages_tried(w, rest);
            assert forall|k: int|
                0 <= k < v.remaining && replies[k] == VoyageReply::Refused && (forall|j: int|
                    0 <= j < k ==> replies[j] != VoyageReply::Refused) implies voyages_tried(
                v,
                replies,
            ) == k + 1 by {
                assert(k > 0);
                assert(rest[k - 1] == replies[k]);
                assert forall|j: int| 0 <= j < k - 1 implies rest[j] != VoyageReply::Refused by {
                    assert(rest[j] == replies[j + 1]);
                }
            }
            if forall|k: int| 0 <= k < v.remaining ==> replies[k] != VoyageReply::Refused {
                assert forall|k: int| 0 <= k < w.remaining implies rest[k]
                    != VoyageReply::Refused by {
                    assert(rest[k] == replies[k + 1]);
                }
            }
        } else {
            assert(w.halted);
            assert(voyages_tried(w, rest) == 0);
            assert(voyages_tried(v, replies) == 1);
        }
    }
}

/// Redemption from a balance of `usable` tries `usable / 10` voyages when no
/// reply refuses one; when the first refusal answers the `k`-th voyage, it
/// tries exactly `k + 1` and no more.
pub proof fn lemma_voyage_attempts(usable: u64, replies: Seq<VoyageReply>)
    requires
        replies.len() >= usable / 10,
    ensures
        (forall|k: int| 0 <= k < usable / 10 ==> replies[k] != VoyageReply::Refused)
            ==> voyages_tried(Voyages::fresh(usable), replies) == usable / 10,
        forall|k: int|
            0 <= k < usable / 10 && replies[k] == VoyageReply::Refused && (forall|j: int|
                0 <= j < k ==> replies[j] != VoyageReply::Refused) ==> voyages_tried(
                Voyages::fresh(usable),
                replies,
            ) == k + 1,
{
    lemma_voyages_tried(Voyages::fresh(usable), replies);
}

/// One day of the sign-in history.
pub struct SigninDay {
    /// The day, written `YYYY-MM-DD`.
    pub date: String,
    /// Whether the account signed in on that day; a missing flag is false.
    pub signed_in: bool,
}

/// The sign-in history and the current streak of consecutive days.
pub struct SigninHistory {
    pub days: Vec<SigninDay>,
    pub continuous: u64,
}

/// Whether the history marks `today` as signed in.
pub open spec fn signed_in_on(days: Seq<SigninDay>, today: Seq<char>) -> bool {
    exists|i: int| 0 <= i < days.len() && #[trigger] days[i].date@ == today && days[i].signed_in
}

/// Decides whether to sign in on `today`: not when the history already marks
/// that day as signed in, so that a second run on one day changes nothing.
pub fn signin_due_on(history: &SigninHistory, today: &String) -> (r: bool)
    ensures
        r == !signed_in_on(history.days@, today@),
{
    let mut i: usize = 0;
    while i < history.days.len()
        invariant
            i <= history.days@.len(),
            forall|j: int|
                0 <= j < i ==> !(#[trigger] history.days@[j].date@ == today@
                    && history.days@[j].signed_in),
        decreases history.days.len() - i,
    {
        if history.days[i].signed_in && history.days[i].date == *today {
            return false;
        }
        i = i + 1;
    }
    true
}

/// Offset of the service's calendar (UTC+8) from UTC, in seconds.
pub const UTC8_OFFSET_SECS: i64 = 28800;

/// Unix times within this many seconds of 1970 have a calendar day that can
/// be written.
pub const SECS_IN_DATE_RANGE: i64 = 8_000_000_000_000;

/// The UTC calendar day, written `YYYY-MM-DD`, of a Unix time in seconds.
pub uninterp spec fn utc_day_text(secs: int) -> Seq<char>;

/// Relies on chrono's `DateTime::<Utc>::from_timestamp`, which gives the UTC
/// date and time of a Unix time (`None` only outside its range of dates,
/// years -262142 to 262142, which 8 * 10^12 seconds either side of 1970 stay
/// within), and on its `format("%Y-%m-%d")`, which writes that date.
#[verifier::external_body]
fn utc_day_of(secs: i64) -> (r: Option<String>)
    ensures
        r matches Some(t) ==> t@ == utc_day_text(secs as int),
        -SECS_IN_DATE_RANGE <= secs <= SECS_IN_DATE_RANGE ==> r is Some,
{
    chrono::DateTime::<chrono::Utc>::from_timestamp(secs, 0).map(
        |t| t.format("%Y-%m-%d").to_string(),
    )
}

/// The calendar day in UTC+8 at the Unix time `now_secs`, if it can be written.
pub fn today_in_utc8(now_secs: i64) -> (r: Option<String>)
    ensures
        r matches Some(t) ==> now_secs + UTC8_OFFSET_SECS <= i64::MAX && t@ == utc_day_text(
            now_secs + UTC8_OFFSET_SECS,
        ),
        now_secs + UTC8_OFFSET_SECS > i64::MAX ==> r is None,
        -SECS_IN_DATE_RANGE <= now_secs + UTC8_OFFSET_SECS <= SECS_IN_DATE_RANGE ==> r is Some,
{
    if now_secs > i64::MAX - UTC8_OFFSET_SECS {
        None
    } else {
        utc_day_of(now_secs + UTC8_OFFSET_SECS)
    }
}

/// Decides whether to sign in at the Unix time `now_secs`: not when the
/// history marks the current UTC+8 day as signed in. Where that day cannot be
/// written (more than 8 * 10^12 seconds from 1970), the sign-in is attempted
/// and the service decides.
pub fn signin_due(history: &SigninHistory, now_secs: i64) -> (r: bool)
    ensures
        !r ==> now_secs + UTC8_OFFSET_SECS <= i64::MAX && signed_in_on(
            history.days@,
            utc_day_text(now_secs + UTC8_OFFSET_SECS),
        ),
        !signed_in_on(history.days@, utc_day_text(now_secs + UTC8_OFFSET_SECS)) ==> r,
        -SECS_IN_DATE_RANGE <= now_secs + UTC8_OFFSET_SECS <= SECS_IN_DATE_RANGE ==> r
            == !signed_in_on(history.days@, utc_day_text(now_secs + UTC8_OFFSET_SECS)),
{
    match today_in_utc8(now_secs) {
        Some(today) => signin_due_on(history, &today),
        None => true,
    }
}

} // verus!
