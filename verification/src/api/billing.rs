//! Output-token usage per day and per billing cycle.

use vstd::prelude::*;
use crate::api::sessions::{BillingCycle, BillingPeriod, BillingResponse, DailyUsage};
use crate::json::{Json, get_str, json_get_str};
use crate::api::sessions::entry_type;
use crate::api::session_scan::{scan, lemma_scan_output_grows};
use crate::text::{byte_prefix, byte_prefix_of};
use crate::order::{lex_lt, lex_lt_exec, lemma_lex_total, lemma_lex_transitive, lemma_lex_irreflexive};

verus! {

/// Days from the last Thursday (0 on a Thursday) to a weekday counted from
/// Monday = 0.
pub open spec fn days_since_thursday_spec(weekday: int) -> int {
    ((weekday - 3) + 7) % 7
}

/// Days from the last Thursday, the day a billing cycle starts, to the
/// weekday `weekday` (Monday = 0 .. Sunday = 6).
pub fn days_since_thursday(weekday: u32) -> (r: u32)
    requires
        weekday < 7,
    ensures
        r == days_since_thursday_spec(weekday as int),
        r < 7,
{
    (weekday + 4) % 7
}

/// What billing needs of one session log.
pub struct SessionUsage {
    /// Modification time, Unix seconds.
    pub modified: u64,
    pub output_tokens: u64,
    /// The day the session is booked on ("YYYY-MM-DD").
    pub date: String,
}

/// Usage per day of the sessions of `ss` modified at or after `since`:
/// day -> (output tokens, sessions).
pub open spec fn daily_map(ss: Seq<SessionUsage>, since: u64) -> Map<Seq<char>, (int, int)>
    decreases ss.len(),
{
    if ss.len() == 0 {
        Map::empty()
    } else {
        let m = daily_map(ss.drop_last(), since);
        let s = ss.last();
        if s.modified >= since {
            let prev = if m.contains_key(s.date@) {
                m[s.date@]
            } else {
                (0int, 0int)
            };
            m.insert(s.date@, (prev.0 + s.output_tokens, prev.1 + 1))
        } else {
            m
        }
    }
}

/// Output tokens of the sessions of `ss` modified at or after `since`.
pub open spec fn cycle_output(ss: Seq<SessionUsage>, since: u64) -> int
    decreases ss.len(),
{
    if ss.len() == 0 {
        0
    } else {
        cycle_output(ss.drop_last(), since) + if ss.last().modified >= since {
            ss.last().output_tokens as int
        } else {
            0
        }
    }
}

/// Number of the sessions of `ss` modified at or after `since`.
pub open spec fn cycle_sessions(ss: Seq<SessionUsage>, since: u64) -> int
    decreases ss.len(),
{
    if ss.len() == 0 {
        0
    } else {
        cycle_sessions(ss.drop_last(), since) + if ss.last().modified >= since {
            1int
        } else {
            0
        }
    }
}

/// Each day's usage is part of the cycle's, and the cycle's grows with
/// every session.
pub proof fn lemma_daily_bounded(ss: Seq<SessionUsage>, since: u64, i: int)
    requires
        0 <= i <= ss.len(),
    ensures
        forall|d: Seq<char>|
            #[trigger] daily_map(ss, since).contains_key(d) ==> 0 <= daily_map(ss, since)[d].0
                <= cycle_output(ss, since) && 0 <= daily_map(ss, since)[d].1 <= cycle_sessions(
                ss,
                since,
            ),
        0 <= cycle_output(ss.take(i), since) <= cycle_output(ss, since),
        0 <= cycle_sessions(ss.take(i), since) <= cycle_sessions(ss, since) <= ss.len(),
    decreases ss.len(),
{
    if ss.len() > 0 {
        lemma_daily_bounded(ss.drop_last(), since, if i == ss.len() {
            i - 1
        } else {
            i
        });
        if i == ss.len() {
            assert(ss.take(i) =~= ss);
        } else {
            assert(ss.drop_last().take(i) =~= ss.take(i));
        }
        let m = daily_map(ss.drop_last(), since);
        let s = ss.last();
        assert forall|d: Seq<char>| #[trigger] daily_map(ss, since).contains_key(d) implies 0
            <= daily_map(ss, since)[d].0 <= cycle_output(ss, since) && 0 <= daily_map(
            ss,
            since,
        )[d].1 <= cycle_sessions(ss, since) by {
            if s.modified >= since && d == s.date@ {
                if m.contains_key(d) {
                    assert(m[d].0 <= cycle_output(ss.drop_last(), since));
                }
            } else {
                assert(m.contains_key(d));
            }
        }
    } else {
        assert(ss.take(i) =~= ss);
    }
}

/// One row of the daily table.
struct DayRow {
    date: Vec<char>,
    output: u64,
    sessions: usize,
}

/// `rows` lists the days of `m`, each once, with their usage, in strictly
/// increasing order of day.
spec fn rows_hold(rows: Seq<DayRow>, m: Map<Seq<char>, (int, int)>) -> bool {
    &&& forall|j: int, k: int| 0 <= j < k < rows.len() ==> lex_lt(#[trigger] rows[j].date@, #[trigger] rows[k].date@)
    &&& forall|k: int|
        0 <= k < rows.len() ==> #[trigger] m.contains_key(rows[k].date@) && m[rows[k].date@] == (
            rows[k].output as int,
            rows[k].sessions as int,
        )
    &&& forall|d: Seq<char>| #[trigger] m.contains_key(d) ==> exists|k: int| 0 <= k < rows.len() && rows[k].date@ == d
}

/// Output tokens and sessions over all rows.
spec fn row_sums(rows: Seq<DayRow>) -> (int, int)
    decreases rows.len(),
{
    if rows.len() == 0 {
        (0, 0)
    } else {
        let p = row_sums(rows.drop_last());
        (p.0 + rows.last().output, p.1 + rows.last().sessions)
    }
}

proof fn lemma_row_sums_update(rows: Seq<DayRow>, j: int, v: DayRow)
    requires
        0 <= j < rows.len(),
    ensures
        row_sums(rows.update(j, v)).0 == row_sums(rows).0 - rows[j].output + v.output,
        row_sums(rows.update(j, v)).1 == row_sums(rows).1 - rows[j].sessions + v.sessions,
    decreases rows.len(),
{
    if j == rows.len() - 1 {
        assert(rows.update(j, v).drop_last() =~= rows.drop_last());
    } else {
        assert(rows.update(j, v).drop_last() =~= rows.drop_last().update(j, v));
        lemma_row_sums_update(rows.drop_last(), j, v);
    }
}

proof fn lemma_row_sums_insert(rows: Seq<DayRow>, j: int, v: DayRow)
    requires
        0 <= j <= rows.len(),
    ensures
        row_sums(rows.insert(j, v)).0 == row_sums(rows).0 + v.output,
        row_sums(rows.insert(j, v)).1 == row_sums(rows).1 + v.sessions,
    decreases rows.len(),
{
    if j == rows.len() {
        assert(rows.insert(j, v) =~= rows.push(v));
        assert(rows.push(v).drop_last() =~= rows);
    } else {
        assert(rows.insert(j, v).drop_last() =~= rows.drop_last().insert(j, v));
        assert(rows.insert(j, v).last() == rows.last());
        lemma_row_sums_insert(rows.drop_last(), j, v);
    }
}

/// Output tokens and sessions over all days of a table.
pub open spec fn daily_sums(daily: Seq<DailyUsage>) -> (int, int)
    decreases daily.len(),
{
    if daily.len() == 0 {
        (0, 0)
    } else {
        let p = daily_sums(daily.drop_last());
        (p.0 + daily.last().output_tokens, p.1 + daily.last().sessions)
    }
}

proof fn lemma_daily_sums_first(daily: Seq<DailyUsage>)
    requires
        daily.len() > 0,
    ensures
        daily_sums(daily).0 == daily[0].output_tokens + daily_sums(daily.drop_first()).0,
        daily_sums(daily).1 == daily[0].sessions + daily_sums(daily.drop_first()).1,
    decreases daily.len(),
{
    if daily.len() > 1 {
        lemma_daily_sums_first(daily.drop_last());
        assert(daily.drop_last().drop_first() =~= daily.drop_first().drop_last());
    } else {
        assert(daily.drop_first() =~= Seq::<DailyUsage>::empty());
        assert(daily.drop_last() =~= Seq::<DailyUsage>::empty());
    }
}

/// A table listing the rows backwards has the rows' sums.
proof fn lemma_reversed_sums(rows: Seq<DayRow>, daily: Seq<DailyUsage>)
    requires
        daily.len() == rows.len(),
        forall|x: int| 0 <= x < daily.len() ==> #[trigger] daily[x].output_tokens == rows[rows.len() - 1 - x].output
            && daily[x].sessions == rows[rows.len() - 1 - x].sessions,
    ensures
        daily_sums(daily) == row_sums(rows),
    decreases rows.len(),
{
    if rows.len() > 0 {
        lemma_daily_sums_first(daily);
        let d1 = daily.drop_first();
        let r1 = rows.drop_last();
        assert forall|x: int| 0 <= x < d1.len() implies #[trigger] d1[x].output_tokens == r1[r1.len() - 1 - x].output
            && d1[x].sessions == r1[r1.len() - 1 - x].sessions by {
            assert(d1[x] == daily[x + 1]);
        }
        lemma_reversed_sums(r1, d1);
    }
}

/// Book `out` tokens and one session on `date`.
#[verifier::rlimit(40)]
fn book(rows: &mut Vec<DayRow>, date: Vec<char>, out: u64, Ghost(m): Ghost<Map<Seq<char>, (int, int)>>)
    requires
        rows_hold(old(rows)@, m),
        (if m.contains_key(date@) { m[date@].0 } else { 0 }) + out <= u64::MAX,
        (if m.contains_key(date@) { m[date@].1 } else { 0 }) + 1 <= usize::MAX,
    ensures
        rows_hold(
            final(rows)@,
            m.insert(
                date@,
                (
                    (if m.contains_key(date@) { m[date@].0 } else { 0 }) + out,
                    (if m.contains_key(date@) { m[date@].1 } else { 0 }) + 1,
                ),
            ),
        ),
        row_sums(final(rows)@).0 == row_sums(old(rows)@).0 + out,
        row_sums(final(rows)@).1 == row_sums(old(rows)@).1 + 1,
{
    let ghost prev: (int, int) = if m.contains_key(date@) {
        m[date@]
    } else {
        (0int, 0int)
    };
    let ghost m2 = m.insert(date@, (prev.0 + out, prev.1 + 1));
    let mut j: usize = 0;
    while j < rows.len() && lex_lt_exec(rows[j].date.as_slice(), date.as_slice())
        invariant
            j <= rows@.len(),
            rows@ == old(rows)@,
            rows_hold(rows@, m),
            forall|k: int| 0 <= k < j ==> lex_lt(#[trigger] rows@[k].date@, date@),
        decreases rows@.len() - j,
    {
        j = j + 1;
    }
    if j < rows.len() && crate::text::chars_eq(rows[j].date.as_slice(), date.as_slice()) {
        let o = rows[j].output;
        let c = rows[j].sessions;
        let d = crate::text::slice_chars(date.as_slice(), 0, date.len());
        proof {
            assert(d@ =~= date@);
        }
        let ghost before = rows@;
        let row = DayRow { date: d, output: o + out, sessions: c + 1 };
        proof {
            lemma_row_sums_update(before, j as int, row);
        }
        rows.set(j, row);
        proof {
            assert forall|x: Seq<char>| #[trigger] m2.contains_key(x) implies exists|k: int|
                0 <= k < rows@.len() && rows@[k].date@ == x by {
                if x != date@ {
                    let k = choose|k: int| 0 <= k < old(rows)@.len() && old(rows)@[k].date@ == x;
                    assert(rows@[k].date@ == x);
                } else {
                    assert(rows@[j as int].date@ == x);
                }
            }
            assert forall|k: int| 0 <= k < rows@.len() implies #[trigger] m2.contains_key(
                rows@[k].date@,
            ) && m2[rows@[k].date@] == (rows@[k].output as int, rows@[k].sessions as int) by {
                if k != j {
                    assert(rows@[k] == old(rows)@[k]);
                    if old(rows)@[k].date@ == date@ {
                        if k < j {
                            assert(lex_lt(old(rows)@[k].date@, old(rows)@[j as int].date@));
                            lemma_lex_irreflexive(date@);
                        } else {
                            assert(lex_lt(old(rows)@[j as int].date@, old(rows)@[k].date@));
                            lemma_lex_irreflexive(date@);
                        }
                    }
                    assert(m.contains_key(old(rows)@[k].date@));
                    assert(m2[old(rows)@[k].date@] == m[old(rows)@[k].date@]);
                } else {
                    assert(old(rows)@[j as int].date@ == date@);
                    assert(m.contains_key(date@));
                    assert(prev == m[date@]);
                    assert(rows@[k].date@ == date@);
                }
            }
        }
    } else {
        let ghost old_rows = rows@;
        let ghost dv = date@;
        proof {
            if j < rows@.len() {
                lemma_lex_total(rows@[j as int].date@, dv);
                assert(lex_lt(dv, old_rows[j as int].date@));
            }
            assert(!m.contains_key(dv)) by {
                if m.contains_key(dv) {
                    let k = choose|k: int| 0 <= k < old_rows.len() && old_rows[k].date@ == dv;
                    if k < j {
                        assert(lex_lt(old_rows[k].date@, dv));
                        lemma_lex_irreflexive(dv);
                    } else if k > j {
                        assert(lex_lt(old_rows[j as int].date@, old_rows[k].date@));
                        lemma_lex_transitive(dv, old_rows[j as int].date@, dv);
                        lemma_lex_irreflexive(dv);
                    }
                }
            }
        }
        let row = DayRow { date, output: out, sessions: 1 };
        proof {
            lemma_row_sums_insert(old_rows, j as int, row);
        }
        rows.insert(j, row);
        proof {
            old_rows.insert_ensures(j as int, rows@[j as int]);
            assert(rows@[j as int].date@ == dv);
            assert forall|a: int, b: int| 0 <= a < b < rows@.len() implies lex_lt(
                #[trigger] rows@[a].date@,
                #[trigger] rows@[b].date@,
            ) by {
                if a < j && b == j {
                    assert(rows@[a] == old_rows[a]);
                } else if a < j && b > j {
                    assert(rows@[a] == old_rows[a]);
                    assert(rows@[b] == old_rows[b - 1]);
                    assert(lex_lt(old_rows[a].date@, old_rows[b - 1].date@));
                } else if a == j && b > j {
                    assert(rows@[b] == old_rows[b - 1]);
                    if b - 1 > j {
                        assert(lex_lt(old_rows[j as int].date@, old_rows[b - 1].date@));
                        lemma_lex_transitive(dv, old_rows[j as int].date@, old_rows[b - 1].date@);
                    }
                } else if a > j {
                    assert(rows@[a] == old_rows[a - 1]);
                    assert(rows@[b] == old_rows[b - 1]);
                    assert(lex_lt(old_rows[a - 1].date@, old_rows[b - 1].date@));
                }
            }
            assert forall|x: Seq<char>| #[trigger] m2.contains_key(x) implies exists|k: int|
                0 <= k < rows@.len() && rows@[k].date@ == x by {
                if x != dv {
                    let k = choose|k: int| 0 <= k < old_rows.len() && old_rows[k].date@ == x;
                    if k < j {
                        assert(rows@[k] == old_rows[k]);
                        assert(rows@[k].date@ == x);
                    } else {
                        assert(rows@[k + 1] == old_rows[k]);
                        assert(rows@[k + 1].date@ == x);
                    }
                } else {
                    assert(rows@[j as int].date@ == x);
                }
            }
            assert(!m.contains_key(dv));
            assert(prev == (0int, 0int));
            assert forall|k: int| #![trigger rows@[k]] 0 <= k < rows@.len() implies m2.contains_key(
                rows@[k].date@,
            ) && m2[rows@[k].date@] == (rows@[k].output as int, rows@[k].sessions as int) by {
                if k < j {
                    assert(rows@[k] == old_rows[k]);
                    assert(m.contains_key(old_rows[k].date@));
                    assert(old_rows[k].date@ != dv);
                    assert(m2[old_rows[k].date@] == m[old_rows[k].date@]);
                    assert(m[old_rows[k].date@] == (old_rows[k].output as int, old_rows[k].sessions as int));
                } else if k > j {
                    assert(rows@[k] == old_rows[k - 1]);
                    assert(m.contains_key(old_rows[k - 1].date@));
                    assert(old_rows[k - 1].date@ != dv);
                    assert(m2[old_rows[k - 1].date@] == m[old_rows[k - 1].date@]);
                    assert(m[old_rows[k - 1].date@] == (old_rows[k - 1].output as int, old_rows[k - 1].sessions as int));
                } else {
                    assert(rows@[k].date@ == dv);
                    assert(rows@[k].output == out);
                    assert(rows@[k].sessions == 1);
                    assert(m2[dv] == (prev.0 + out, prev.1 + 1));
                    assert(m2.contains_key(dv));
                }
                assert(m2.contains_key(rows@[k].date@) && m2[rows@[k].date@] == (
                    rows@[k].output as int,
                    rows@[k].sessions as int,
                ));
            }
        }
    }
}

/// `daily` lists the days of `m`, each once, with their usage, latest day
/// first.
pub open spec fn daily_table(daily: Seq<DailyUsage>, m: Map<Seq<char>, (int, int)>) -> bool {
    &&& forall|j: int, k: int| 0 <= j < k < daily.len() ==> lex_lt(#[trigger] daily[k].date@, #[trigger] daily[j].date@)
    &&& forall|k: int|
        0 <= k < daily.len() ==> #[trigger] m.contains_key(daily[k].date@) && m[daily[k].date@] == (
            daily[k].output_tokens as int,
            daily[k].sessions as int,
        )
    &&& forall|d: Seq<char>| #[trigger] m.contains_key(d) ==> exists|k: int| 0 <= k < daily.len() && daily[k].date@ == d
}

/// Whether the billing cycle's output tokens add up to no more than
/// `u64::MAX` (what [`billing`] needs): the test a caller makes before it.
pub fn cycle_output_fits(sessions: &Vec<SessionUsage>, cycle_start_ts: u64) -> (r: bool)
    ensures
        r == (cycle_output(sessions@, cycle_start_ts) <= u64::MAX),
{
    let mut total: u128 = 0;
    let mut i: usize = 0;
    while i < sessions.len()
        invariant
            i <= sessions@.len(),
            total == crate::api::context::capped(cycle_output(sessions@.take(i as int), cycle_start_ts)),
        decreases sessions@.len() - i,
    {
        proof {
            assert(sessions@.take(i as int + 1).drop_last() =~= sessions@.take(i as int));
            lemma_cycle_output_nonneg(sessions@.take(i as int), cycle_start_ts);
        }
        if sessions[i].modified >= cycle_start_ts {
            total = total.saturating_add(sessions[i].output_tokens as u128);
        }
        i = i + 1;
    }
    proof {
        assert(sessions@.take(sessions@.len() as int) =~= sessions@);
    }
    total <= u64::MAX as u128
}

proof fn lemma_cycle_output_nonneg(ss: Seq<SessionUsage>, since: u64)
    ensures
        cycle_output(ss, since) >= 0,
    decreases ss.len(),
{
    if ss.len() > 0 {
        lemma_cycle_output_nonneg(ss.drop_last(), since);
    }
}

/// The usage of a billing cycle: `sessions` are the session logs, those
/// modified at or after `cycle_start_ts` (the cycle's first second) count;
/// `today` and `cycle_start` are days as "YYYY-MM-DD".
pub fn billing(sessions: &Vec<SessionUsage>, today: &str, cycle_start: String, cycle_start_ts: u64) -> (r: BillingResponse)
    requires
        cycle_output(sessions@, cycle_start_ts) <= u64::MAX,
    ensures
        ({
            let m = daily_map(sessions@, cycle_start_ts);
            &&& r.today.output_tokens == (if m.contains_key(today@) { m[today@].0 } else { 0 })
            &&& r.today.sessions == (if m.contains_key(today@) { m[today@].1 } else { 0 })
            &&& daily_table(r.daily@, m)
        }),
        r.billing_cycle.start@ == cycle_start@,
        r.billing_cycle.output_tokens == cycle_output(sessions@, cycle_start_ts),
        r.billing_cycle.sessions == cycle_sessions(sessions@, cycle_start_ts),
        daily_sums(r.daily@) == (r.billing_cycle.output_tokens as int, r.billing_cycle.sessions as int),
{
    let mut rows: Vec<DayRow> = Vec::new();
    let mut total_out: u64 = 0;
    let mut total_sessions: usize = 0;
    let mut i: usize = 0;
    proof {
        assert(sessions@.take(0) =~= Seq::<SessionUsage>::empty());
        assert(daily_map(sessions@.take(0), cycle_start_ts) =~= Map::empty());
    }
    while i < sessions.len()
        invariant
            i <= sessions@.len(),
            cycle_output(sessions@, cycle_start_ts) <= u64::MAX,
            rows_hold(rows@, daily_map(sessions@.take(i as int), cycle_start_ts)),
            total_out == cycle_output(sessions@.take(i as int), cycle_start_ts),
            total_sessions == cycle_sessions(sessions@.take(i as int), cycle_start_ts),
            row_sums(rows@) == (total_out as int, total_sessions as int),
        decreases sessions@.len() - i,
    {
        proof {
            assert(sessions@.take(i as int + 1).drop_last() =~= sessions@.take(i as int));
            assert(sessions@.take(i as int + 1).last() == sessions@[i as int]);
            lemma_daily_bounded(sessions@, cycle_start_ts, i as int + 1);
            lemma_daily_bounded(sessions@.take(i as int + 1), cycle_start_ts, i as int + 1);
        }
        let s = &sessions[i];
        if s.modified >= cycle_start_ts {
            let ghost m = daily_map(sessions@.take(i as int), cycle_start_ts);
            proof {
                let m1 = daily_map(sessions@.take(i as int + 1), cycle_start_ts);
                assert(m1.contains_key(s.date@));
            }
            book(&mut rows, crate::text::chars_of(s.date.as_str()), s.output_tokens, Ghost(m));
            total_out = total_out + s.output_tokens;
            total_sessions = total_sessions + 1;
        }
        i = i + 1;
    }
    proof {
        assert(sessions@.take(sessions@.len() as int) =~= sessions@);
    }
    let ghost m = daily_map(sessions@, cycle_start_ts);
    let tv = crate::text::chars_of(today);
    let mut today_out: u64 = 0;
    let mut today_sessions: usize = 0;
    let mut k: usize = 0;
    while k < rows.len()
        invariant_except_break
            today_out == 0,
            today_sessions == 0,
        invariant
            k <= rows@.len(),
            rows_hold(rows@, m),
            tv@ == today@,
            forall|j: int| 0 <= j < k ==> rows@[j].date@ != today@,
        ensures
            k < rows@.len() ==> rows@[k as int].date@ == today@ && today_out == rows@[k as int].output
                && today_sessions == rows@[k as int].sessions,
            k == rows@.len() ==> today_out == 0 && today_sessions == 0 && forall|j: int|
                0 <= j < rows@.len() ==> rows@[j].date@ != today@,
        decreases rows@.len() - k,
    {
        if crate::text::chars_eq(rows[k].date.as_slice(), tv.as_slice()) {
            today_out = rows[k].output;
            today_sessions = rows[k].sessions;
            break;
        }
        k = k + 1;
    }
    proof {
        if k == rows@.len() {
            if m.contains_key(today@) {
                let j = choose|j: int| 0 <= j < rows@.len() && rows@[j].date@ == today@;
                assert(rows@[j].date@ != today@);
            }
        } else {
            assert(rows@[k as int].date@ == today@);
            assert(m.contains_key(rows@[k as int].date@));
        }
        assert(today_out == (if m.contains_key(today@) { m[today@].0 } else { 0 }));
        assert(today_sessions == (if m.contains_key(today@) { m[today@].1 } else { 0 }));
    }
    let mut daily: Vec<DailyUsage> = Vec::new();
    let n = rows.len();
    let mut j: usize = 0;
    while j < n
        invariant
            n == rows@.len(),
            j <= n,
            daily@.len() == j,
            forall|x: int| 0 <= x < j ==> #[trigger] daily@[x].date@ == rows@[n - 1 - x].date@
                && daily@[x].output_tokens == rows@[n - 1 - x].output && daily@[x].sessions
                == rows@[n - 1 - x].sessions,
        decreases n - j,
    {
        let row = &rows[n - 1 - j];
        let ghost before = daily@;
        let date = crate::text::string_of(row.date.as_slice());
        daily.push(DailyUsage { date, output_tokens: row.output, sessions: row.sessions });
        proof {
            assert(daily@[j as int].date@ == rows@[n - 1 - j].date@);
            assert forall|x: int| 0 <= x < j implies #[trigger] daily@[x] == before[x] by {}
        }
        j = j + 1;
    }
    proof {
        assert forall|a: int, b: int| 0 <= a < b < daily@.len() implies lex_lt(
            #[trigger] daily@[b].date@,
            #[trigger] daily@[a].date@,
        ) by {
            assert(lex_lt(rows@[n - 1 - b].date@, rows@[n - 1 - a].date@));
        }
        assert forall|x: int| 0 <= x < daily@.len() implies #[trigger] m.contains_key(
            daily@[x].date@,
        ) && m[daily@[x].date@] == (daily@[x].output_tokens as int, daily@[x].sessions as int) by {
            assert(m.contains_key(rows@[n - 1 - x].date@));
        }
        assert forall|d: Seq<char>| #[trigger] m.contains_key(d) implies exists|x: int|
            0 <= x < daily@.len() && daily@[x].date@ == d by {
            let y = choose|y: int| 0 <= y < rows@.len() && rows@[y].date@ == d;
            assert(daily@[n - 1 - y].date@ == d);
        }
        assert forall|x: int| 0 <= x < daily@.len() implies #[trigger] daily@[x].output_tokens
            == rows@[rows@.len() - 1 - x].output && daily@[x].sessions == rows@[rows@.len() - 1 - x].sessions by {
            assert(daily@[x].date@ == rows@[n - 1 - x].date@);
        }
        lemma_reversed_sums(rows@, daily@);
    }
    BillingResponse {
        today: BillingPeriod { output_tokens: today_out, sessions: today_sessions },
        billing_cycle: BillingCycle {
            start: cycle_start,
            output_tokens: total_out,
            sessions: total_sessions,
        },
        daily,
    }
}

/// The day a session log names: the first ten bytes of the timestamp of its
/// first `system` entry that yields a non-empty one.
pub open spec fn log_date(es: Seq<Json>) -> Seq<char>
    decreases es.len(),
{
    if es.len() == 0 {
        seq![]
    } else {
        let d = log_date(es.drop_last());
        let e = es.last();
        if entry_type(e) == "system"@ && d.len() == 0 {
            match get_str(e, "timestamp"@) {
                Some(ts) => byte_prefix(ts, 10),
                None => d,
            }
        } else {
            d
        }
    }
}

/// The UTC day ("YYYY-MM-DD") of a Unix time.
pub uninterp spec fn utc_day(secs: u64) -> Seq<char>;

/// chrono: `DateTime::from_timestamp(secs as i64, 0)` (the epoch where
/// that is out of range), formatted as `%Y-%m-%d`. The result is named,
/// not stated: it depends on `secs` alone.
#[verifier::external_body]
fn utc_day_of(secs: u64) -> (r: String)
    ensures
        r@ == utc_day(secs),
{
    chrono::DateTime::from_timestamp(secs as i64, 0).unwrap_or_default().format("%Y-%m-%d").to_string()
}

/// What billing needs of a session log: its output tokens and its day
/// (the log's own, else the UTC day it was last modified).
pub fn session_usage(entries: &Vec<Json>, modified: u64) -> (r: SessionUsage)
    requires
        scan(entries@).output <= u64::MAX,
    ensures
        r.modified == modified,
        r.output_tokens == scan(entries@).output,
        r.date@ == (if log_date(entries@).len() == 0 {
            utc_day(modified)
        } else {
            log_date(entries@)
        }),
{
    let mut output: u64 = 0;
    let mut date = String::new();
    let mut i: usize = 0;
    while i < entries.len()
        invariant
            i <= entries@.len(),
            scan(entries@).output <= u64::MAX,
            output == scan(entries@.take(i as int)).output,
            date@ == log_date(entries@.take(i as int)),
        decreases entries@.len() - i,
    {
        proof {
            reveal_strlit("system");
            reveal_strlit("assistant");
            reveal_strlit("user");
            reveal_strlit("");
            assert(entries@.take(i as int + 1).drop_last() =~= entries@.take(i as int));
            assert(entries@.take(i as int + 1).last() == entries@[i as int]);
            lemma_scan_output_grows(entries@, i as int + 1);
        }
        let e = &entries[i];
        let t: &str = match json_get_str(e, "type") {
            Some(x) => x.as_str(),
            None => "",
        };
        let ghost tt = match get_str(*e, "type"@) {
            Some(x) => x,
            None => seq![],
        };
        assert(tt == t@);
        if crate::text::str_eq(t, "assistant") {
            if let Some(m) = crate::json::json_get(e, "message") {
                if let Some(u) = crate::json::json_get(m, "usage") {
                    if let Some(o) = crate::json::json_get_u64(u, "output_tokens") {
                        output = output + o;
                    }
                }
            }
        }
        if crate::text::str_eq(t, "system") && date.as_str().is_empty() {
            if let Some(ts) = json_get_str(e, "timestamp") {
                date = byte_prefix_of(ts.as_str(), 10);
            }
        }
        i = i + 1;
    }
    proof {
        assert(entries@.take(entries@.len() as int) =~= entries@);
    }
    if date.as_str().is_empty() {
        date = utc_day_of(modified);
    }
    SessionUsage { modified, output_tokens: output, date }
}

} // verus!
