//! Insights over the history of recordings: recording streaks by calendar
//! day, the fixed-order length histogram, recordings by hour of day, usage
//! counts by backend and enhancement prompt, and the disk usage breakdown.
use vstd::prelude::*;
use vstd::string::StringExecFns;

verus! {

broadcast use vstd::string::group_string_axioms;

/// Time range selector for insights.
#[derive(Debug, Clone, Copy, PartialEq, Eq, Structural)]
pub enum InsightsRange {
    /// No lower bound.
    AllTime,
    /// The last 365 days.
    Year,
    /// The last 30 days.
    Month,
    /// The last 7 days.
    Week,
}

/// How many calendar days back a range reaches, or `None` for all time.
pub fn range_days(range: InsightsRange) -> (r: Option<i64>)
    ensures
        r == match range {
            InsightsRange::AllTime => None,
            InsightsRange::Year => Some(365i64),
            InsightsRange::Month => Some(30i64),
            InsightsRange::Week => Some(7i64),
        },
{
    match range {
        InsightsRange::AllTime => None,
        InsightsRange::Year => Some(365),
        InsightsRange::Month => Some(30),
        InsightsRange::Week => Some(7),
    }
}

/// Recordings on one calendar day.
#[derive(Debug, Clone)]
pub struct DailyActivity {
    /// The day, as `YYYY-MM-DD`.
    pub day: String,
    /// Number of recordings.
    pub count: i64,
    /// Approximate word count.
    pub words: i64,
}

/// The day number (days from the start of the common era) of a `YYYY-MM-DD`
/// date, as `chrono` parses and counts it, or `None` when it does not parse.
pub uninterp spec fn spec_parse_day(s: Seq<char>) -> Option<i32>;

/// Parse a `YYYY-MM-DD` date into its day number.
///
/// Wraps `chrono::NaiveDate::parse_from_str` with the format `%Y-%m-%d`
/// and `Datelike::num_days_from_ce`; the result depends on the text alone,
/// which the contract names.
#[verifier::external_body]
fn parse_day(s: &str) -> (r: Option<i32>)
    ensures
        r == spec_parse_day(s@),
{
    match chrono::NaiveDate::parse_from_str(s, "%Y-%m-%d") {
        Ok(d) => Some(chrono::Datelike::num_days_from_ce(&d)),
        Err(_) => None,
    }
}

/// Today's day number in the local calendar.
///
/// Wraps `chrono::Local::now` and `Datelike::num_days_from_ce`; it depends
/// on the clock and the time zone, so nothing is claimed of it.
#[verifier::external_body]
fn today_day_number() -> (r: i32) {
    chrono::Datelike::num_days_from_ce(&chrono::Local::now().date_naive())
}

/// Day numbers as integers.
pub open spec fn day_ints(v: Seq<i64>) -> Seq<int> {
    v.map_values(|x: i64| x as int)
}

/// The days with at least one recording.
pub open spec fn active_days(activity: Seq<DailyActivity>) -> Set<int> {
    Set::new(
        |d: int|
            exists|i: int|
                0 <= i < activity.len() && (#[trigger] activity[i]).count > 0 && spec_parse_day(activity[i].day@)
                    == Some(d as i32) && -0x8000_0000 <= d < 0x8000_0000,
    )
}

/// Every day from `start` for `len` days is active.
pub open spec fn run_from(days: Set<int>, start: int, len: int) -> bool {
    forall|i: int| 0 <= i < len ==> #[trigger] days.contains(start + i)
}

/// Every day back from `today` for `len` days is active.
pub open spec fn run_back(days: Set<int>, today: int, len: int) -> bool {
    forall|i: int| 0 <= i < len ==> #[trigger] days.contains(today - i)
}

/// `longest` is the longest run of consecutive active days.
pub open spec fn is_longest_streak(days: Set<int>, longest: int) -> bool {
    &&& (longest == 0 || exists|d: int| run_from(days, d, longest))
    &&& forall|d: int| !#[trigger] run_from(days, d, longest + 1)
}

/// `current` is the run of active days ending today (zero when today is not
/// active).
pub open spec fn is_current_streak(days: Set<int>, today: int, current: int) -> bool {
    run_back(days, today, current) && !days.contains(today - current)
}

/// A run of distinct values is no longer than the values there are.
proof fn lemma_run_bounded(days: Seq<int>, start: int, len: int)
    requires
        days.no_duplicates(),
        len >= 0,
        forall|i: int| 0 <= i < len ==> #[trigger] days.contains(start + i),
    ensures
        len <= days.len(),
{
    let r = vstd::set_lib::set_int_range(start, start + len);
    vstd::set_lib::lemma_int_range(start, start + len);
    assert(r.subset_of(days.to_set())) by {
        assert forall|x: int| r.contains(x) implies days.to_set().contains(x) by {
            assert(days.contains(start + (x - start)));
        }
    }
    days.unique_seq_to_set();
    vstd::set_lib::lemma_len_subset(r, days.to_set());
}

fn contains_day(days: &Vec<i64>, d: i64) -> (r: bool)
    ensures
        r == day_ints(days@).contains(d as int),
{
    let ghost dv = day_ints(days@);
    let mut i: usize = 0;
    while i < days.len()
        invariant
            i <= days@.len(),
            dv == day_ints(days@),
            forall|j: int| 0 <= j < i ==> dv[j] != d,
        decreases days@.len() - i,
    {
        if days[i] == d {
            assert(dv[i as int] == d as int);
            return true;
        }
        i = i + 1;
    }
    false
}

/// The distinct active day numbers, in order of first appearance.
fn distinct_active_days(activity: &[DailyActivity]) -> (r: Vec<i64>)
    ensures
        r@.len() <= activity@.len(),
        day_ints(r@).no_duplicates(),
        day_ints(r@).to_set() == active_days(activity@),
        forall|i: int| 0 <= i < r@.len() ==> -0x8000_0000 <= #[trigger] r@[i] < 0x8000_0000,
{
    let mut days: Vec<i64> = Vec::new();
    let mut i: usize = 0;
    while i < activity.len()
        invariant
            i <= activity@.len(),
            days@.len() <= i,
            day_ints(days@).no_duplicates(),
            forall|k: int| 0 <= k < days@.len() ==> -0x8000_0000 <= #[trigger] days@[k] < 0x8000_0000,
            forall|d: int|
                #[trigger] day_ints(days@).contains(d) <==> exists|j: int|
                    0 <= j < i && (#[trigger] activity@[j]).count > 0 && spec_parse_day(activity@[j].day@) == Some(
                        d as i32,
                    ) && -0x8000_0000 <= d < 0x8000_0000,
        decreases activity@.len() - i,
    {
        let ghost before = day_ints(days@);
        if activity[i].count > 0 {
            match parse_day(activity[i].day.as_str()) {
                Some(d) => {
                    if !contains_day(&days, d as i64) {
                        days.push(d as i64);
                        assert(day_ints(days@) =~= before.push(d as int));
                    }
                },
                None => {},
            }
        }
        proof {
            let now = day_ints(days@);
            assert forall|d: int| now.contains(d) <==> exists|j: int|
                0 <= j < i + 1 && (#[trigger] activity@[j]).count > 0 && spec_parse_day(activity@[j].day@) == Some(
                    d as i32,
                ) && -0x8000_0000 <= d < 0x8000_0000 by {
                if now.contains(d) && !before.contains(d) {
                    let k = choose|k: int| 0 <= k < now.len() && now[k] == d;
                    assert(k == now.len() - 1);
                    assert(activity@[i as int].count > 0);
                }
                if exists|j: int|
                    0 <= j < i + 1 && (#[trigger] activity@[j]).count > 0 && spec_parse_day(activity@[j].day@)
                        == Some(d as i32) && -0x8000_0000 <= d < 0x8000_0000 {
                    let j = choose|j: int|
                        0 <= j < i + 1 && (#[trigger] activity@[j]).count > 0 && spec_parse_day(activity@[j].day@)
                            == Some(d as i32) && -0x8000_0000 <= d < 0x8000_0000;
                    if j == i {
                        assert(spec_parse_day(activity@[i as int].day@) == Some(d as i32));
                        if !before.contains(d) {
                            assert(now[now.len() - 1] == d);
                        }
                    }
                }
                if before.contains(d) {
                    let k = choose|k: int| 0 <= k < before.len() && before[k] == d;
                    assert(now[k] == d);
                }
            }
        }
        i = i + 1;
    }
    let ghost dv = day_ints(days@);
    assert(dv.to_set() =~= active_days(activity@));
    days
}

/// The current and longest recording streaks, in days, with `today` as the
/// current day number: the longest run of consecutive days each with a
/// recording, and the run of such days ending today.
pub fn compute_streaks_at(activity: &[DailyActivity], today: i32) -> (r: (u32, u32))
    requires
        activity@.len() < u32::MAX,
    ensures
        is_current_streak(active_days(activity@), today as int, r.0 as int),
        is_longest_streak(active_days(activity@), r.1 as int),
{
    let days = distinct_active_days(activity);
    let ghost dv = day_ints(days@);
    let ghost set = active_days(activity@);
    let n = days.len();
    assert(n < u32::MAX);
    proof {
        assert forall|d: int| #[trigger] set.contains(d) <==> dv.contains(d) by {
            assert(dv.to_set().contains(d) <==> dv.contains(d));
        }
    }
    let mut longest: usize = 0;
    let mut k: usize = 0;
    while k < n
        invariant
            n < u32::MAX,
            k <= n,
            n == days@.len(),
            dv == day_ints(days@),
            dv.no_duplicates(),
            forall|d: int| #[trigger] set.contains(d) <==> dv.contains(d),
            forall|i: int| 0 <= i < days@.len() ==> -0x8000_0000 <= #[trigger] days@[i] < 0x8000_0000,
            longest <= n,
            longest == 0 || exists|d: int| run_from(set, d, longest as int),
            forall|j: int| 0 <= j < k ==> !run_from(set, #[trigger] dv[j], longest + 1),
        decreases n - k,
    {
        let start = days[k];
        let mut len: usize = 0;
        loop
            invariant
                n < u32::MAX,
                len <= n,
                n == days@.len(),
                k < n,
                start == days@[k as int],
                -0x8000_0000 <= start < 0x8000_0000,
                n <= usize::MAX,
                dv == day_ints(days@),
                forall|d: int| #[trigger] set.contains(d) <==> dv.contains(d),
                run_from(set, start as int, len as int),
            ensures
                len <= n,
                run_from(set, start as int, len as int),
                len == n || !set.contains(start + len),
            decreases n - len,
        {
            if len >= n {
                break;
            }
            let probe: i64 = start + len as i64;
            if !contains_day(&days, probe) {
                break;
            }
            assert(set.contains(start + len));
            len = len + 1;
        }
        proof {
            if len == n {
                if set.contains(start + n) {
                    assert forall|i: int| 0 <= i < n + 1 implies #[trigger] dv.contains(start + i) by {
                        assert(set.contains(start + i));
                    }
                    lemma_run_bounded(dv, start as int, n + 1);
                }
            }
            assert(!run_from(set, start as int, len + 1)) by {
                assert(!set.contains(start + len));
            }
        }
        if len > longest {
            proof {
                assert forall|j: int| 0 <= j < k implies !run_from(set, #[trigger] dv[j], len + 1) by {
                    if run_from(set, dv[j], len + 1) {
                        assert forall|i: int| 0 <= i < longest + 1 implies #[trigger] set.contains(dv[j] + i) by {
                            assert(set.contains(dv[j] + i));
                        }
                    }
                }
            }
            longest = len;
        } else {
            proof {
                if run_from(set, start as int, longest + 1) {
                    assert(set.contains(start + len));
                }
            }
        }
        k = k + 1;
    }
    proof {
        assert forall|d: int| !#[trigger] run_from(set, d, longest + 1) by {
            if run_from(set, d, longest + 1) {
                assert(set.contains(d + 0));
                assert(dv.contains(d));
                let j = choose|j: int| 0 <= j < dv.len() && dv[j] == d;
                assert(!run_from(set, dv[j], longest + 1));
            }
        }
    }
    let mut current: usize = 0;
    let t = today as i64;
    loop
        invariant
            n < u32::MAX,
            current <= n,
            n == days@.len(),
            n <= usize::MAX,
            -0x8000_0000 <= t < 0x8000_0000,
            dv == day_ints(days@),
            forall|d: int| #[trigger] set.contains(d) <==> dv.contains(d),
            run_back(set, t as int, current as int),
        ensures
            current <= n,
            run_back(set, t as int, current as int),
            current == n || !set.contains(t - current),
        decreases n - current,
    {
        if current >= n {
            break;
        }
        let probe: i64 = t - current as i64;
        if !contains_day(&days, probe) {
            break;
        }
        assert(set.contains(t - current));
        current = current + 1;
    }
    proof {
        if current == n && set.contains(t - n) {
            assert forall|i: int| 0 <= i < n + 1 implies #[trigger] dv.contains((t - n) + i) by {
                assert(set.contains(t - (n - i)));
            }
            lemma_run_bounded(dv, t - n, n + 1);
        }
    }
    (current as u32, longest as u32)
}

/// The current and longest recording streaks, in days, counting back from
/// today in the local calendar.
pub fn compute_streaks(activity: &[DailyActivity]) -> (r: (u32, u32))
    requires
        activity@.len() < u32::MAX,
    ensures
        is_longest_streak(active_days(activity@), r.1 as int),
        exists|today: int| is_current_streak(active_days(activity@), today, r.0 as int),
{
    let today = today_day_number();
    compute_streaks_at(activity, today)
}

/// A bucket of the length histogram.
#[derive(Debug, Clone)]
pub struct HistogramBucket {
    /// The bucket's label, such as `0-5s`.
    pub bucket_label: String,
    /// Recordings in the bucket.
    pub count: i64,
}

/// The histogram's labels, in order.
pub open spec fn histogram_label(k: int) -> Seq<char> {
    if k == 0 {
        "0-5s"@
    } else if k == 1 {
        "5-10s"@
    } else if k == 2 {
        "10-20s"@
    } else if k == 3 {
        "20-40s"@
    } else if k == 4 {
        "40-60s"@
    } else if k == 5 {
        "60-120s"@
    } else {
        "120s+"@
    }
}

/// The count a label gets from the query rows: that of the last row with
/// the label, or zero.
pub open spec fn count_for(rows: Seq<(String, i64)>, label: Seq<char>, n: int) -> i64
    decreases n,
{
    if n <= 0 {
        0
    } else if rows[n - 1].0@ == label {
        rows[n - 1].1
    } else {
        count_for(rows, label, n - 1)
    }
}

fn count_for_exec(rows: &Vec<(String, i64)>, label: &str) -> (r: i64)
    ensures
        r == count_for(rows@, label@, rows@.len() as int),
{
    let mut r: i64 = 0;
    let mut i: usize = 0;
    while i < rows.len()
        invariant
            i <= rows@.len(),
            r == count_for(rows@, label@, i as int),
        decreases rows@.len() - i,
    {
        if crate::text::str_eq(rows[i].0.as_str(), label) {
            r = rows[i].1;
        }
        i = i + 1;
    }
    r
}

/// The length histogram in its fixed bucket order, every bucket present,
/// from the `(label, count)` rows of the query.
pub fn ordered_histogram(rows: &Vec<(String, i64)>) -> (r: Vec<HistogramBucket>)
    ensures
        r@.len() == 7,
        forall|k: int|
            0 <= k < 7 ==> (#[trigger] r@[k]).bucket_label@ == histogram_label(k) && r@[k].count == count_for(
                rows@,
                histogram_label(k),
                rows@.len() as int,
            ),
{
    let labels = ["0-5s", "5-10s", "10-20s", "20-40s", "40-60s", "60-120s", "120s+"];
    let mut out: Vec<HistogramBucket> = Vec::new();
    let mut k: usize = 0;
    while k < 7
        invariant
            k <= 7,
            labels@ == seq!["0-5s", "5-10s", "10-20s", "20-40s", "40-60s", "60-120s", "120s+"],
            out@.len() == k,
            forall|j: int|
                0 <= j < k ==> (#[trigger] out@[j]).bucket_label@ == histogram_label(j) && out@[j].count == count_for(
                    rows@,
                    histogram_label(j),
                    rows@.len() as int,
                ),
        decreases 7 - k,
    {
        let label = labels[k];
        assert(label@ == histogram_label(k as int));
        let count = count_for_exec(rows, label);
        out.push(HistogramBucket { bucket_label: String::from_str(label), count });
        k = k + 1;
    }
    out
}

/// The count an hour gets from the query rows: that of the last row for the
/// hour, truncated to 32 bits, or zero.
pub open spec fn hour_count(rows: Seq<(i64, i64)>, hour: int, n: int) -> u32
    decreases n,
{
    if n <= 0 {
        0
    } else if rows[n - 1].0 == hour {
        rows[n - 1].1 as u32
    } else {
        hour_count(rows, hour, n - 1)
    }
}

/// Recordings by local hour of day, all 24 hours present, from the
/// `(hour, count)` rows of the query; rows for hours outside `0..24` are
/// ignored.
pub fn time_of_day_counts(rows: &Vec<(i64, i64)>) -> (r: Vec<u32>)
    ensures
        r@.len() == 24,
        forall|h: int| 0 <= h < 24 ==> #[trigger] r@[h] == hour_count(rows@, h, rows@.len() as int),
{
    let mut counts: Vec<u32> = Vec::new();
    let mut h: usize = 0;
    while h < 24
        invariant
            h <= 24,
            counts@.len() == h,
            forall|j: int| 0 <= j < h ==> #[trigger] counts@[j] == 0,
        decreases 24 - h,
    {
        counts.push(0);
        h = h + 1;
    }
    let mut i: usize = 0;
    while i < rows.len()
        invariant
            i <= rows@.len(),
            counts@.len() == 24,
            forall|j: int| 0 <= j < 24 ==> #[trigger] counts@[j] == hour_count(rows@, j, i as int),
        decreases rows@.len() - i,
    {
        let (hour, cnt) = rows[i];
        if 0 <= hour && hour < 24 {
            counts.set(hour as usize, cnt as u32);
        }
        i = i + 1;
    }
    counts
}

/// Recordings made with one transcription backend.
#[derive(Debug, Clone)]
pub struct BackendCount {
    /// The backend's model name, or `unknown`.
    pub name: String,
    /// Number of recordings.
    pub count: i64,
}

/// Enhanced recordings made with one enhancement prompt.
#[derive(Debug, Clone)]
pub struct PromptCount {
    /// The prompt's name, or `unknown`.
    pub prompt: String,
    /// Number of recordings.
    pub count: i64,
}

/// The sum of the counts of a list of prompt counts.
pub open spec fn prompt_total(prompts: Seq<PromptCount>) -> int
    decreases prompts.len(),
{
    if prompts.len() == 0 {
        0
    } else {
        prompt_total(prompts.drop_last()) + prompts.last().count
    }
}

/// Every running total of the counts fits in an `i64`.
pub open spec fn prompt_totals_fit(prompts: Seq<PromptCount>) -> bool {
    forall|i: int| 0 <= i <= prompts.len() ==> i64::MIN <= #[trigger] prompt_total(prompts.take(i)) <= i64::MAX
}

/// The number of enhanced recordings: the sum of the per-prompt counts.
pub fn enhanced_total(prompts: &Vec<PromptCount>) -> (r: i64)
    requires
        prompt_totals_fit(prompts@),
    ensures
        r == prompt_total(prompts@),
{
    let mut total: i64 = 0;
    let mut i: usize = 0;
    assert(prompts@.take(0) =~= Seq::<PromptCount>::empty());
    while i < prompts.len()
        invariant
            i <= prompts@.len(),
            prompt_totals_fit(prompts@),
            total == prompt_total(prompts@.take(i as int)),
        decreases prompts@.len() - i,
    {
        proof {
            assert(prompts@.take(i + 1).drop_last() =~= prompts@.take(i as int));
            assert(i64::MIN <= prompt_total(prompts@.take(i + 1)) <= i64::MAX);
        }
        total = total + prompts[i].count;
        i = i + 1;
    }
    assert(prompts@.take(prompts@.len() as int) =~= prompts@);
    total
}

/// Disk usage of the recordings, the models and the database.
#[derive(Debug, Clone)]
pub struct StorageBreakdown {
    /// Bytes under the recordings directory.
    pub recordings_bytes: u64,
    /// Bytes under the models directory.
    pub models_bytes: u64,
    /// Bytes of the database file.
    pub db_bytes: u64,
    /// The three together.
    pub total_bytes: u64,
    /// Modification time of the oldest recording, if any.
    pub oldest_recording_at: Option<String>,
}

impl StorageBreakdown {
    /// The breakdown of the three sizes, with their total.
    pub fn new(recordings_bytes: u64, models_bytes: u64, db_bytes: u64, oldest_recording_at: Option<String>) -> (r:
        Self)
        requires
            recordings_bytes + models_bytes + db_bytes <= u64::MAX,
        ensures
            r.recordings_bytes == recordings_bytes,
            r.models_bytes == models_bytes,
            r.db_bytes == db_bytes,
            r.total_bytes == recordings_bytes + models_bytes + db_bytes,
            r.oldest_recording_at == oldest_recording_at,
    {
        StorageBreakdown {
            recordings_bytes,
            models_bytes,
            db_bytes,
            total_bytes: recordings_bytes + models_bytes + db_bytes,
            oldest_recording_at,
        }
    }
}

} // verus!
