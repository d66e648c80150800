//! The decisions of the command line: errors and exit codes, task sources,
//! writable lane options, lane identifiers, run slugs and lane scripts.
use crate::clock::{
    date_in_range, hour_of, minute_of, second_of, simple_strftime, strftime_spec, unix_time_now,
    utc_date, utc_timestamp_formatted, year_text,
};
use crate::manifest::{ConflictStatus, ParseStatus, RunManifest, StrMap, SynthesisStatus};
use crate::text::{
    all_digits, chars_of, decimal, digit_char, digits_value, find_char, hex_char, hex_digits,
    is_digit,
    occurs_at, owned, parse_usize, parse_usize_spec, push_decimal, push_hex_digits, push_str,
    string_of, unsigned_digits,
};
use vstd::prelude::*;

verus! {

/// An error that ends the program, with the exit code it ends with.
#[derive(Debug)]
pub struct AppError {
    exit_code: i32,
    message: String,
}

impl AppError {
    /// The exit code the program ends with.
    pub closed spec fn code(self) -> i32 {
        self.exit_code
    }

    /// The message shown to the user.
    pub closed spec fn text(self) -> Seq<char> {
        self.message@
    }

    /// An error with the given exit code and message.
    pub fn new(exit_code: i32, message: String) -> (e: Self)
        ensures
            e.code() == exit_code,
            e.text() == message@,
    {
        AppError { exit_code, message }
    }

    /// The exit code the program ends with.
    pub fn exit_code(&self) -> (code: i32)
        ensures
            code == self.code(),
    {
        self.exit_code
    }

    /// The message shown to the user.
    pub fn message(&self) -> (m: &str)
        ensures
            m@ == self.text(),
    {
        self.message.as_str()
    }
}

/// An error with exit code 1 whose message is `prefix` followed by `detail`.
pub fn error_with(prefix: &str, detail: &str) -> (e: AppError)
    ensures
        e.code() == 1,
        e.text() == prefix@ + detail@,
{
    let mut m = String::new();
    push_str(&mut m, prefix);
    push_str(&mut m, detail);
    assert(m@ =~= prefix@ + detail@);
    AppError::new(1, m)
}


/// Fails with "--lanes must be at least 1" when no lane is asked for.
pub fn check_lane_count(lanes: usize) -> (res: Result<(), AppError>)
    ensures
        res is Ok <==> lanes >= 1,
        match res {
            Ok(()) => true,
            Err(e) => e.code() == 1 && e.text() == "--lanes must be at least 1"@,
        },
{
    if lanes == 0 {
        return Err(AppError::new(1, owned("--lanes must be at least 1")));
    }
    Ok(())
}

/// Fails with "clean requires --yes" unless removal was confirmed.
pub fn check_clean_confirmed(yes: bool) -> (res: Result<(), AppError>)
    ensures
        res is Ok <==> yes,
        match res {
            Ok(()) => true,
            Err(e) => e.code() == 1 && e.text() == "clean requires --yes"@,
        },
{
    if !yes {
        return Err(AppError::new(1, owned("clean requires --yes")));
    }
    Ok(())
}

/// Where the task of a run comes from.
pub enum TaskSource {
    /// The task text given on the command line.
    Inline(String),
    /// The path of a file that holds the task text.
    File(String),
}

/// Chooses the source of the task: exactly one of the text and the file must be given.
pub fn resolve_task(task: Option<String>, task_file: Option<String>) -> (res: Result<
    TaskSource,
    AppError,
>)
    ensures
        match (task, task_file) {
            (Some(t), None) => res matches Ok(TaskSource::Inline(r)) && r == t,
            (None, Some(f)) => res matches Ok(TaskSource::File(r)) && r == f,
            (Some(_), Some(_)) => res matches Err(e) && e.code() == 1 && e.text()
                == "choose either --task or --task-file"@,
            (None, None) => res matches Err(e) && e.code() == 1 && e.text()
                == "run requires --task or --task-file"@,
        },
{
    match (task, task_file) {
        (Some(t), None) => Ok(TaskSource::Inline(t)),
        (None, Some(f)) => Ok(TaskSource::File(f)),
        (Some(_), Some(_)) => Err(AppError::new(1, owned("choose either --task or --task-file"))),
        (None, None) => Err(AppError::new(1, owned("run requires --task or --task-file"))),
    }
}

/// The identifier of a run: its time stamp, a dash, and the low 24 bits of the
/// sub-second nanoseconds as six lower-case hexadecimal digits.
pub open spec fn run_slug_spec(stamp: Seq<char>, nanos: u32) -> Seq<char> {
    stamp + seq!['-'] + hex_digits((nanos as nat) % 0x1000000, 6)
}

/// Builds the identifier of a run from its time stamp and sub-second nanoseconds.
pub fn run_slug_from(stamp: &str, nanos: u32) -> (slug: String)
    ensures
        slug@ == run_slug_spec(stamp@, nanos),
{
    let low: u32 = nanos & 0x00ff_ffff;
    assert(low == nanos % 0x1000000) by (bit_vector)
        requires
            low == nanos & 0x00ff_ffff,
    ;
    let mut slug = owned(stamp);
    slug.push('-');
    push_hex_digits(&mut slug, low, 6);
    slug
}

/// The time stamp pattern of run identifiers: date, dash, time, to the second.
pub const RUN_STAMP_FORMAT: &'static str = "%Y%m%d-%H%M%S";

/// The message of a run that cannot read the clock.
pub const CLOCK_ERROR: &'static str = "system clock is before the Unix epoch or out of range";

/// The time stamp of a run: the year, month and day, a dash, and the hour, minute and
/// second of `secs`, as `%Y%m%d-%H%M%S` writes them.
pub open spec fn run_stamp_spec(year: nat, month: nat, day: nat, secs: int) -> Seq<char> {
    year_text(year) + two_digits(month) + two_digits(day) + seq!['-'] + two_digits(hour_of(secs))
        + two_digits(minute_of(secs)) + two_digits(second_of(secs))
}

/// The run stamp pattern writes the run stamp.
#[verifier::spinoff_prover]
#[verifier::rlimit(40)]
proof fn lemma_run_stamp_format(year: nat, month: nat, day: nat, secs: int)
    ensures
        strftime_spec(RUN_STAMP_FORMAT@, year, month, day, secs) == run_stamp_spec(
            year,
            month,
            day,
            secs,
        ),
{
    reveal_strlit("%Y%m%d-%H%M%S");
    let p = RUN_STAMP_FORMAT@;
    let p1 = seq!['%', 'm', '%', 'd', '-', '%', 'H', '%', 'M', '%', 'S'];
    let p2 = seq!['%', 'd', '-', '%', 'H', '%', 'M', '%', 'S'];
    let p3 = seq!['-', '%', 'H', '%', 'M', '%', 'S'];
    let p4 = seq!['%', 'H', '%', 'M', '%', 'S'];
    let p5 = seq!['%', 'M', '%', 'S'];
    let p6 = seq!['%', 'S'];
    let e = Seq::<char>::empty();
    assert(p.skip(2) =~= p1);
    assert(p1.skip(2) =~= p2);
    assert(p2.skip(2) =~= p3);
    assert(p3.skip(1) =~= p4);
    assert(p4.skip(2) =~= p5);
    assert(p5.skip(2) =~= p6);
    assert(p6.skip(2) =~= e);
    assert(strftime_spec(e, year, month, day, secs) =~= e);
    let s6 = strftime_spec(p6, year, month, day, secs);
    assert(p6[0] == '%' && p6[1] == 'S' && p6.len() >= 2);
    assert(s6 =~= two_digits(second_of(secs)));
    let s5 = strftime_spec(p5, year, month, day, secs);
    assert(s5 =~= two_digits(minute_of(secs)) + s6);
    let s4 = strftime_spec(p4, year, month, day, secs);
    assert(s4 =~= two_digits(hour_of(secs)) + s5);
    let s3 = strftime_spec(p3, year, month, day, secs);
    assert(s3 =~= seq!['-'] + s4);
    let s2 = strftime_spec(p2, year, month, day, secs);
    assert(s2 =~= two_digits(day) + s3);
    let s1 = strftime_spec(p1, year, month, day, secs);
    assert(s1 =~= two_digits(month) + s2);
    assert(strftime_spec(p, year, month, day, secs) =~= year_text(year) + s1);
    assert(strftime_spec(p, year, month, day, secs) =~= run_stamp_spec(year, month, day, secs));
}

/// A lower-case hexadecimal digit.
pub open spec fn is_lower_hex(c: char) -> bool {
    is_digit(c) || ('a' <= c && c <= 'f')
}

proof fn lemma_decimal_four(n: nat)
    requires
        1000 <= n <= 9999,
    ensures
        decimal(n).len() == 4,
{
    assert(decimal(n / 1000).len() == 1);
    assert(decimal(n / 100) == decimal(n / 1000).push(digit_char((n / 100) % 10)));
    assert(decimal(n / 10) == decimal(n / 100).push(digit_char((n / 10) % 10)));
    assert(decimal(n) == decimal(n / 10).push(digit_char(n % 10)));
}

proof fn lemma_two_digits_shape(n: nat)
    requires
        n < 100,
    ensures
        two_digits(n).len() == 2,
        all_digits(two_digits(n)),
{
    lemma_decimal_reads_back(n);
    let t = two_digits(n);
    if n < 10 {
        assert(decimal(n).len() == 1);
        assert forall|i: int| 0 <= i < t.len() implies is_digit(#[trigger] t[i]) by {
            if i > 0 {
                assert(t[i] == decimal(n)[i - 1]);
            }
        }
    } else {
        assert(decimal(n / 10).len() == 1);
        assert(decimal(n) == decimal(n / 10).push(digit_char(n % 10)));
    }
}

proof fn lemma_hex_digits_shape(n: nat, width: nat)
    ensures
        hex_digits(n, width).len() == width,
        forall|i: int| 0 <= i < width ==> is_lower_hex(#[trigger] hex_digits(n, width)[i]),
    decreases width,
{
    if width > 0 {
        lemma_hex_digits_shape(n / 16, (width - 1) as nat);
        let d = n % 16;
        assert(hex_char(d) as u32 == if d < 10 { d + 48 } else { d + 87 });
        assert(is_lower_hex(hex_char(d)));
        let h = hex_digits(n, width);
        assert forall|i: int| 0 <= i < width implies is_lower_hex(#[trigger] h[i]) by {
            if i < width - 1 {
                assert(h[i] == hex_digits(n / 16, (width - 1) as nat)[i]);
            }
        }
    }
}

/// A run identifier of a year up to 9999 is 22 characters: eight digits, a dash, six
/// digits, a dash and six lower-case hexadecimal digits.
pub proof fn law_run_slug_shape(year: nat, month: nat, day: nat, secs: int, nanos: u32)
    requires
        date_in_range(year, month, day),
        year <= 9999,
        secs >= 0,
    ensures
        ({
            let s = run_slug_spec(run_stamp_spec(year, month, day, secs), nanos);
            &&& s.len() == 22
            &&& s[8] == '-'
            &&& s[15] == '-'
            &&& forall|i: int| (0 <= i < 8 || 9 <= i < 15) ==> is_digit(#[trigger] s[i])
            &&& forall|i: int| 16 <= i < 22 ==> is_lower_hex(#[trigger] s[i])
        }),
{
    lemma_decimal_four(year);
    lemma_decimal_reads_back(year);
    lemma_two_digits_shape(month);
    lemma_two_digits_shape(day);
    lemma_two_digits_shape(hour_of(secs));
    lemma_two_digits_shape(minute_of(secs));
    lemma_two_digits_shape(second_of(secs));
    let low = (nanos as nat) % 0x1000000;
    lemma_hex_digits_shape(low, 6);
    let y = decimal(year);
    let mo = two_digits(month);
    let d = two_digits(day);
    let h = two_digits(hour_of(secs));
    let mi = two_digits(minute_of(secs));
    let se = two_digits(second_of(secs));
    let x = hex_digits(low, 6);
    let s = run_slug_spec(run_stamp_spec(year, month, day, secs), nanos);
    assert(s =~= y + mo + d + seq!['-'] + h + mi + se + seq!['-'] + x);
    assert forall|i: int| (0 <= i < 8 || 9 <= i < 15) implies is_digit(#[trigger] s[i]) by {
        if i < 4 {
            assert(s[i] == y[i]);
        } else if i < 6 {
            assert(s[i] == mo[i - 4]);
        } else if i < 8 {
            assert(s[i] == d[i - 6]);
        } else if i < 11 {
            assert(s[i] == h[i - 9]);
        } else if i < 13 {
            assert(s[i] == mi[i - 11]);
        } else {
            assert(s[i] == se[i - 13]);
        }
    }
    assert forall|i: int| 16 <= i < 22 implies is_lower_hex(#[trigger] s[i]) by {
        assert(s[i] == x[i - 16]);
    }
}

/// A fresh identifier for a run: the current UTC time as `%Y%m%d-%H%M%S`, a dash, and
/// the low 24 bits of its sub-second nanoseconds as six hexadecimal digits, from one
/// reading of the clock. Fails with exit code 1 when the clock is before the Unix epoch
/// or beyond chrono's calendar.
pub fn build_run_slug() -> (res: Result<String, AppError>)
    ensures
        match res {
            Ok(slug) => exists|secs: i64, nanos: u32|
                {
                    &&& call_ensures(unix_time_now, (), Some((secs, nanos)))
                    &&& secs >= 0 && nanos < 1_000_000_000
                    &&& utc_date(secs) matches Some((year, month, day))
                    &&& date_in_range(year, month, day)
                    &&& slug@ == run_slug_spec(run_stamp_spec(year, month, day, secs as int), nanos)
                },
            Err(e) => {
                &&& e.code() == 1 && e.text() == CLOCK_ERROR@
                &&& call_ensures(unix_time_now, (), None) || exists|secs: i64, nanos: u32|
                    call_ensures(unix_time_now, (), Some((secs, nanos))) && utc_date(secs) is None
            },
        },
{
    proof {
        reveal_strlit("%Y%m%d-%H%M%S");
        assert(simple_strftime(RUN_STAMP_FORMAT@));
    }
    let now = unix_time_now();
    match now {
        Some((secs, nanos)) => match utc_timestamp_formatted(secs, nanos, RUN_STAMP_FORMAT) {
            Some(stamp) => {
                let ghost (y, m, d) = utc_date(secs).unwrap();
                proof {
                    lemma_run_stamp_format(y, m, d, secs as int);
                }
                let slug = run_slug_from(stamp.as_str(), nanos);
                assert(slug@ == run_slug_spec(run_stamp_spec(y, m, d, secs as int), nanos));
                Ok(slug)
            },
            None => Err(AppError::new(1, owned(CLOCK_ERROR))),
        },
        None => Err(AppError::new(1, owned(CLOCK_ERROR))),
    }
}

/// The name of the tmux session of a run.
pub fn session_name_for(run_slug: &str) -> (name: String)
    ensures
        name@ == "executainer-"@ + run_slug@,
{
    let mut name = owned("executainer-");
    push_str(&mut name, run_slug);
    name
}

/// The number of a lane written with at least two digits, as `{:02}` writes it.
pub open spec fn two_digits(n: nat) -> Seq<char> {
    if n < 10 {
        seq!['0'] + decimal(n)
    } else {
        decimal(n)
    }
}

/// The identifier of lane number `n`.
pub open spec fn lane_id_spec(n: nat) -> Seq<char> {
    "lane-"@ + two_digits(n)
}

/// The identifiers of lanes 1 to `count`, in order.
pub fn lane_ids(count: usize) -> (ids: Vec<String>)
    ensures
        ids@.len() == count,
        forall|i: int| 0 <= i < count ==> (#[trigger] ids@[i])@ == lane_id_spec((i + 1) as nat),
{
    let mut ids: Vec<String> = Vec::new();
    let mut n: usize = 0;
    while n < count
        invariant
            n <= count,
            ids@.len() == n,
            forall|i: int| 0 <= i < n ==> (#[trigger] ids@[i])@ == lane_id_spec((i + 1) as nat),
        decreases count - n,
    {
        let idx = n + 1;
        let mut id = owned("lane-");
        if idx < 10 {
            id.push('0');
        }
        push_decimal(&mut id, idx);
        assert(id@ =~= lane_id_spec(idx as nat));
        ids.push(id);
        n += 1;
    }
    ids
}

/// The position of the first `c` in `s`, if `s` holds one.
pub open spec fn first_index_of(s: Seq<char>, c: char) -> Option<int> {
    if exists|i: int| 0 <= i < s.len() && s[i] == c {
        Some(
            choose|i: int|
                0 <= i < s.len() && s[i] == c && forall|j: int| 0 <= j < i ==> s[j] != c,
        )
    } else {
        None
    }
}

/// The message for an option value without a colon.
pub open spec fn invalid_value_message(entry: Seq<char>) -> Seq<char> {
    "invalid --writable-lane value: "@ + entry
}

/// The message for an option whose lane is not `lane-` followed by a number.
pub open spec fn invalid_lane_message(lane: Seq<char>) -> Seq<char> {
    "invalid lane id in --writable-lane: "@ + lane
}

/// The message for an option whose lane number is 0 or above the lane count.
pub open spec fn lane_out_of_range_message(lane: Seq<char>, lane_count: nat) -> Seq<char> {
    "writable lane "@ + lane + " exceeds lane count "@ + decimal(lane_count)
}

/// What one `--writable-lane` value gives: the lane and its scope, split at the first
/// colon, when the lane is `lane-` followed by a number from 1 to `lane_count`;
/// otherwise the message of the error it raises.
pub open spec fn writable_entry_spec(entry: Seq<char>, lane_count: nat) -> Result<
    (Seq<char>, Seq<char>),
    Seq<char>,
> {
    match first_index_of(entry, ':') {
        None => Err(invalid_value_message(entry)),
        Some(i) => {
            let lane = entry.take(i);
            let scope = entry.skip(i + 1);
            if !occurs_at(lane, "lane-"@, 0) {
                Err(invalid_lane_message(lane))
            } else {
                match parse_usize_spec(lane.skip("lane-"@.len() as int)) {
                    None => Err(invalid_lane_message(lane)),
                    Some(n) => if n == 0 || n > lane_count {
                        Err(lane_out_of_range_message(lane, lane_count))
                    } else {
                        Ok((lane, scope))
                    },
                }
            }
        },
    }
}

/// The scopes that the `--writable-lane` values give, later values for the same lane
/// taking precedence, or the message of the first value that is refused.
pub open spec fn writable_scopes_spec(entries: Seq<Seq<char>>, lane_count: nat) -> Result<
    Map<Seq<char>, Seq<char>>,
    Seq<char>,
>
    decreases entries.len(),
{
    if entries.len() == 0 {
        Ok(Map::empty())
    } else {
        match writable_scopes_spec(entries.drop_last(), lane_count) {
            Err(m) => Err(m),
            Ok(scopes) => match writable_entry_spec(entries.last(), lane_count) {
                Err(m) => Err(m),
                Ok((lane, scope)) => Ok(scopes.insert(lane, scope)),
            },
        }
    }
}

/// The texts of the values of a map.
pub open spec fn text_values(m: Map<Seq<char>, String>) -> Map<Seq<char>, Seq<char>> {
    m.map_values(|s: String| s@)
}

/// Reads one `--writable-lane` value.
fn parse_writable_entry(entry: &String, lane_count: usize) -> (res: Result<
    (String, String),
    AppError,
>)
    ensures
        match res {
            Ok((lane, scope)) => writable_entry_spec(entry@, lane_count as nat) == Ok::<
                (Seq<char>, Seq<char>),
                Seq<char>,
            >((lane@, scope@)),
            Err(e) => e.code() == 1 && writable_entry_spec(entry@, lane_count as nat) == Err::<
                (Seq<char>, Seq<char>),
                Seq<char>,
            >(e.text()),
        },
{
    let cs = chars_of(entry.as_str());
    let colon = find_char(&cs, 0, cs.len(), ':');
    match colon {
        None => {
            proof {
                assert(!(exists|i: int| 0 <= i < entry@.len() && entry@[i] == ':'));
            }
            Err(error_with("invalid --writable-lane value: ", entry.as_str()))
        },
        Some(i) => {
            proof {
                let w = choose|w: int|
                    0 <= w < entry@.len() && entry@[w] == ':' && forall|j: int|
                        0 <= j < w ==> entry@[j] != ':';
                assert(entry@[i as int] == ':');
                if w < i {
                    assert(cs@[w] == ':');
                } else if w > i {
                    assert(entry@[i as int] != ':');
                }
                assert(first_index_of(entry@, ':') == Some(i as int));
            }
            let lane = string_of(&cs, 0, i);
            let scope = string_of(&cs, i + 1, cs.len());
            assert(lane@ =~= entry@.take(i as int));
            assert(scope@ =~= entry@.skip(i + 1));
            let prefix = chars_of("lane-");
            proof {
                reveal_strlit("lane-");
            }
            let lane_cs = chars_of(lane.as_str());
            let starts = crate::text::matches_at(&lane_cs, &prefix, 0);
            if !starts {
                return Err(error_with("invalid lane id in --writable-lane: ", lane.as_str()));
            }
            let parsed = parse_usize(&lane_cs, 5, lane_cs.len());
            assert(lane_cs@.subrange(5, lane_cs@.len() as int) =~= lane@.skip(
                "lane-"@.len() as int,
            ));
            match parsed {
                None => Err(error_with("invalid lane id in --writable-lane: ", lane.as_str())),
                Some(n) => {
                    if n == 0 || n > lane_count {
                        let mut m = owned("writable lane ");
                        push_str(&mut m, lane.as_str());
                        push_str(&mut m, " exceeds lane count ");
                        push_decimal(&mut m, lane_count);
                        assert(m@ =~= lane_out_of_range_message(lane@, lane_count as nat));
                        Err(AppError::new(1, m))
                    } else {
                        Ok((lane, scope))
                    }
                },
            }
        },
    }
}

/// Reads the `--writable-lane` values, each `lane-N:scope`, into the writable scope of
/// each named lane. The first value that is refused ends the reading with its error.
pub fn parse_writable_lanes(entries: &[String], lane_count: usize) -> (res: Result<
    StrMap<String>,
    AppError,
>)
    ensures
        match res {
            Ok(m) => writable_scopes_spec(entries@.map_values(|s: String| s@), lane_count as nat)
                == Ok::<Map<Seq<char>, Seq<char>>, Seq<char>>(text_values(m@)),
            Err(e) => e.code() == 1 && writable_scopes_spec(
                entries@.map_values(|s: String| s@),
                lane_count as nat,
            ) == Err::<Map<Seq<char>, Seq<char>>, Seq<char>>(e.text()),
        },
{
    let ghost all = entries@.map_values(|s: String| s@);
    let mut scopes: StrMap<String> = StrMap::new();
    let mut i: usize = 0;
    assert(text_values(scopes@) =~= Map::<Seq<char>, Seq<char>>::empty());
    assert(all.take(0) =~= Seq::<Seq<char>>::empty());
    while i < entries.len()
        invariant
            i <= entries@.len(),
            all == entries@.map_values(|s: String| s@),
            writable_scopes_spec(all.take(i as int), lane_count as nat) == Ok::<
                Map<Seq<char>, Seq<char>>,
                Seq<char>,
            >(text_values(scopes@)),
        decreases entries@.len() - i,
    {
        assert(all.take(i + 1).drop_last() =~= all.take(i as int));
        assert(all.take(i + 1).last() == entries@[i as int]@);
        match parse_writable_entry(&entries[i], lane_count) {
            Err(e) => {
                proof {
                    lemma_scopes_error_persists(all, i as int + 1, lane_count as nat, e.text());
                }
                return Err(e);
            },
            Ok((lane, scope)) => {
                let ghost before = scopes@;
                scopes.insert(lane, scope);
                assert(text_values(scopes@) =~= text_values(before).insert(lane@, scope@));
            },
        }
        i += 1;
    }
    assert(all.take(i as int) =~= all);
    Ok(scopes)
}

/// Once a value is refused, reading more values keeps that error.
proof fn lemma_scopes_error_persists(all: Seq<Seq<char>>, k: int, lane_count: nat, m: Seq<char>)
    requires
        0 <= k <= all.len(),
        writable_scopes_spec(all.take(k), lane_count) == Err::<Map<Seq<char>, Seq<char>>, Seq<char>>(m),
    ensures
        writable_scopes_spec(all, lane_count) == Err::<Map<Seq<char>, Seq<char>>, Seq<char>>(m),
    decreases all.len() - k,
{
    if k < all.len() {
        assert(all.take(k + 1).drop_last() =~= all.take(k));
        lemma_scopes_error_persists(all, k + 1, lane_count, m);
    } else {
        assert(all.take(k) =~= all);
    }
}


// ---------------------------------------------------------------------------
// Lane scripts
// ---------------------------------------------------------------------------

/// `value` with every single quote written as `'\''`.
pub open spec fn escape_quotes(value: Seq<char>) -> Seq<char>
    decreases value.len(),
{
    if value.len() == 0 {
        seq![]
    } else {
        (if value[0] == '\'' {
            seq!['\'', '\\', '\'', '\'']
        } else {
            seq![value[0]]
        }) + escape_quotes(value.skip(1))
    }
}

/// `value` as one single-quoted shell word.
pub open spec fn shell_quoted(value: Seq<char>) -> Seq<char> {
    seq!['\''] + escape_quotes(value) + seq!['\'']
}

/// The text a POSIX shell reads from a word made of single-quoted parts and
/// backslash escapes: `quoted` says whether the reading starts inside quotes.
pub open spec fn shell_word_text(word: Seq<char>, quoted: bool) -> Seq<char>
    decreases word.len(),
{
    if word.len() == 0 {
        seq![]
    } else if quoted {
        if word[0] == '\'' {
            shell_word_text(word.skip(1), false)
        } else {
            seq![word[0]] + shell_word_text(word.skip(1), true)
        }
    } else if word[0] == '\'' {
        shell_word_text(word.skip(1), true)
    } else if word[0] == '\\' && word.len() >= 2 {
        seq![word[1]] + shell_word_text(word.skip(2), false)
    } else {
        seq![word[0]] + shell_word_text(word.skip(1), false)
    }
}

proof fn lemma_escaped_reads_back(value: Seq<char>)
    ensures
        shell_word_text(escape_quotes(value) + seq!['\''], true) == value,
    decreases value.len(),
{
    let w = escape_quotes(value) + seq!['\''];
    if value.len() == 0 {
        assert(w =~= seq!['\'']);
        assert(w.skip(1) =~= Seq::<char>::empty());
        assert(shell_word_text(w, true) == shell_word_text(w.skip(1), false));
        assert(value =~= Seq::<char>::empty());
    } else {
        let rest = escape_quotes(value.skip(1)) + seq!['\''];
        lemma_escaped_reads_back(value.skip(1));
        if value[0] == '\'' {
            assert(w =~= seq!['\'', '\\', '\'', '\''] + rest);
            assert(w.skip(1) =~= seq!['\\', '\'', '\''] + rest);
            assert(w.skip(1).skip(2) =~= seq!['\''] + rest);
            assert(w.skip(1).skip(2).skip(1) =~= rest);
            let a = w.skip(1);
            let b = a.skip(2);
            assert(w[0] == '\'');
            assert(shell_word_text(w, true) == shell_word_text(a, false));
            assert(a[0] == '\\' && a[1] == '\'' && a.len() >= 2);
            assert(shell_word_text(a, false) == seq!['\''] + shell_word_text(b, false));
            assert(b[0] == '\'');
            assert(shell_word_text(b, false) == shell_word_text(b.skip(1), true));
            assert(shell_word_text(w, true) == seq!['\''] + shell_word_text(rest, true));
        } else {
            assert(w =~= seq![value[0]] + rest);
            assert(w.skip(1) =~= rest);
            assert(w[0] == value[0]);
            assert(shell_word_text(w, true) == seq![value[0]] + shell_word_text(rest, true));
        }
        assert(value =~= seq![value[0]] + value.skip(1));
    }
}

/// A quoted path reads back, in the shell, as the path itself.
pub proof fn law_shell_quoting_reads_back(value: Seq<char>)
    ensures
        shell_word_text(shell_quoted(value), false) == value,
{
    lemma_escaped_reads_back(value);
    let w = shell_quoted(value);
    assert(w.skip(1) =~= escape_quotes(value) + seq!['\'']);
}

/// Quotes `value` as one shell word, writing each single quote as `'\''`.
pub fn shell_escape(value: &str) -> (res: String)
    ensures
        res@ == shell_quoted(value@),
{
    let cs = chars_of(value);
    let mut res = String::new();
    res.push('\'');
    let mut i: usize = 0;
    assert(cs@.skip(0) =~= cs@);
    assert(res@ + escape_quotes(cs@.skip(0)) + seq!['\''] =~= shell_quoted(value@));
    while i < cs.len()
        invariant
            i <= cs@.len(),
            cs@ == value@,
            res@ + escape_quotes(cs@.skip(i as int)) + seq!['\''] == shell_quoted(value@),
        decreases cs@.len() - i,
    {
        let ghost rest = cs@.skip(i as int);
        assert(rest.skip(1) =~= cs@.skip(i + 1));
        if cs[i] == '\'' {
            res.push('\'');
            res.push('\\');
            res.push('\'');
            res.push('\'');
        } else {
            res.push(cs[i]);
        }
        i += 1;
        assert(res@ + escape_quotes(cs@.skip(i as int)) + seq!['\''] =~= shell_quoted(value@));
    }
    assert(cs@.skip(i as int) =~= Seq::<char>::empty());
    res.push('\'');
    assert(res@ =~= shell_quoted(value@));
    res
}

/// The script of a read-only lane: it runs `codex exec` on the prompt file in the
/// working directory with a read-only sandbox, keeps the last message and the raw
/// output, and records the exit status in the done file.
pub open spec fn read_only_script_spec(
    cwd: Seq<char>,
    prompt_file: Seq<char>,
    output_last_message: Seq<char>,
    raw_stdout: Seq<char>,
    done_file: Seq<char>,
) -> Seq<char> {
    "#!/bin/zsh\nset +e\ncat "@ + shell_quoted(prompt_file)
        + " | codex exec - --skip-git-repo-check -C "@ + shell_quoted(cwd)
        + " -s read-only -o "@ + shell_quoted(output_last_message) + " > "@ + shell_quoted(
        raw_stdout,
    ) + " 2>&1\nstatus=$?\necho \"$status\" > "@ + shell_quoted(done_file) + "\nexit 0\n"@
}

/// Builds the script of a read-only lane.
pub fn build_read_only_script(
    cwd: &str,
    prompt_file: &str,
    output_last_message: &str,
    raw_stdout: &str,
    done_file: &str,
) -> (script: String)
    ensures
        script@ == read_only_script_spec(
            cwd@,
            prompt_file@,
            output_last_message@,
            raw_stdout@,
            done_file@,
        ),
{
    let mut s = owned("#!/bin/zsh\nset +e\ncat ");
    push_str(&mut s, shell_escape(prompt_file).as_str());
    push_str(&mut s, " | codex exec - --skip-git-repo-check -C ");
    push_str(&mut s, shell_escape(cwd).as_str());
    push_str(&mut s, " -s read-only -o ");
    push_str(&mut s, shell_escape(output_last_message).as_str());
    push_str(&mut s, " > ");
    push_str(&mut s, shell_escape(raw_stdout).as_str());
    push_str(&mut s, " 2>&1\nstatus=$?\necho \"$status\" > ");
    push_str(&mut s, shell_escape(done_file).as_str());
    push_str(&mut s, "\nexit 0\n");
    assert(s@ =~= read_only_script_spec(
        cwd@,
        prompt_file@,
        output_last_message@,
        raw_stdout@,
        done_file@,
    ));
    s
}

/// The script of a writable lane: it records the scope, starts an interactive
/// `codex` session on the prompt with a workspace-write sandbox and on-request
/// approvals, records the exit status, and leaves a note for manual inspection when
/// no last message was written. The scope is `.` when none was given.
pub open spec fn writable_script_spec(
    cwd: Seq<char>,
    prompt_file: Seq<char>,
    output_last_message: Seq<char>,
    raw_stdout: Seq<char>,
    done_file: Seq<char>,
    writable_scope: Option<Seq<char>>,
) -> Seq<char> {
    let scope = match writable_scope {
        Some(s) => s,
        None => "."@,
    };
    "#!/bin/zsh\necho \"[executainer] writable lane scope: "@ + scope + "\" > "@ + shell_quoted(
        raw_stdout,
    ) + "\necho \"[executainer] interactive lane started\" >> "@ + shell_quoted(raw_stdout)
        + "\necho \"pending\" > "@ + shell_quoted(done_file) + "\ncodex \"$(cat "@
        + shell_quoted(prompt_file) + ")\" -C "@ + shell_quoted(cwd)
        + " -s workspace-write -a on-request --no-alt-screen >> "@ + shell_quoted(raw_stdout)
        + " 2>&1\nstatus=$?\necho \"$status\" > "@ + shell_quoted(done_file) + "\nif [ -f "@
        + shell_quoted(output_last_message)
        + " ]; then\n  true\nelse\n  echo \"writable lane requires manual inspection\" > "@
        + shell_quoted(output_last_message) + "\nfi\nexit 0\n"@
}

/// Builds the script of a writable lane.
pub fn build_writable_script(
    cwd: &str,
    prompt_file: &str,
    output_last_message: &str,
    raw_stdout: &str,
    done_file: &str,
    writable_scope: Option<&str>,
) -> (script: String)
    ensures
        script@ == writable_script_spec(
            cwd@,
            prompt_file@,
            output_last_message@,
            raw_stdout@,
            done_file@,
            match writable_scope {
                Some(s) => Some(s@),
                None => None,
            },
        ),
{
    let scope: &str = match writable_scope {
        Some(s) => s,
        None => ".",
    };
    let stdout_q = shell_escape(raw_stdout);
    let done_q = shell_escape(done_file);
    let last_q = shell_escape(output_last_message);
    let mut s = owned("#!/bin/zsh\necho \"[executainer] writable lane scope: ");
    push_str(&mut s, scope);
    push_str(&mut s, "\" > ");
    push_str(&mut s, stdout_q.as_str());
    push_str(&mut s, "\necho \"[executainer] interactive lane started\" >> ");
    push_str(&mut s, stdout_q.as_str());
    push_str(&mut s, "\necho \"pending\" > ");
    push_str(&mut s, done_q.as_str());
    push_str(&mut s, "\ncodex \"$(cat ");
    push_str(&mut s, shell_escape(prompt_file).as_str());
    push_str(&mut s, ")\" -C ");
    push_str(&mut s, shell_escape(cwd).as_str());
    push_str(&mut s, " -s workspace-write -a on-request --no-alt-screen >> ");
    push_str(&mut s, stdout_q.as_str());
    push_str(&mut s, " 2>&1\nstatus=$?\necho \"$status\" > ");
    push_str(&mut s, done_q.as_str());
    push_str(&mut s, "\nif [ -f ");
    push_str(&mut s, last_q.as_str());
    push_str(&mut s, " ]; then\n  true\nelse\n  echo \"writable lane requires manual inspection\" > ");
    push_str(&mut s, last_q.as_str());
    push_str(&mut s, "\nfi\nexit 0\n");
    assert(s@ =~= writable_script_spec(
        cwd@,
        prompt_file@,
        output_last_message@,
        raw_stdout@,
        done_file@,
        match writable_scope {
            Some(s) => Some(s@),
            None => None,
        },
    ));
    s
}

/// The command typed into a lane's pane: `zsh` on the quoted script path.
pub fn launch_command(script_path: &str) -> (cmd: String)
    ensures
        cmd@ == "zsh "@ + shell_quoted(script_path@),
{
    let mut cmd = owned("zsh ");
    push_str(&mut cmd, shell_escape(script_path).as_str());
    cmd
}


// ---------------------------------------------------------------------------
// Lane identifiers read back
// ---------------------------------------------------------------------------

proof fn lemma_decimal_reads_back(n: nat)
    ensures
        all_digits(decimal(n)),
        decimal(n).len() > 0,
        digits_value(decimal(n)) == n,
        decimal(n)[0] != '+',
    decreases n,
{
    let d = decimal(n);
    if n >= 10 {
        lemma_decimal_reads_back(n / 10);
        assert(d.drop_last() =~= decimal(n / 10));
        assert(d[0] == decimal(n / 10)[0]);
        assert(d.last() == digit_char(n % 10));
        assert(((digit_char(n % 10)) as u32) == n % 10 + 48);
        assert(n == (n / 10) * 10 + n % 10);
        assert(d.len() > 0);
        assert(digits_value(d) == digits_value(d.drop_last()) * 10 + ((d.last() as u32) - 48) as nat);
        assert forall|i: int| 0 <= i < d.len() implies is_digit(#[trigger] d[i]) by {
            if i < d.len() - 1 {
                assert(d[i] == decimal(n / 10)[i]);
            }
        }
    } else {
        assert(d.drop_last() =~= Seq::<char>::empty());
        assert(d.last() == digit_char(n));
        assert(((digit_char(n)) as u32) == n + 48);
        assert(d.len() > 0);
        assert(digits_value(d) == digits_value(d.drop_last()) * 10 + ((d.last() as u32) - 48) as nat);
    }
}

proof fn lemma_leading_zero_value(d: Seq<char>)
    ensures
        digits_value(seq!['0'] + d) == digits_value(d),
    decreases d.len(),
{
    let z = seq!['0'] + d;
    if d.len() == 0 {
        assert(z.drop_last() =~= Seq::<char>::empty());
        assert(z.last() == '0');
        assert(digits_value(z.drop_last()) == 0);
        assert(digits_value(z) == digits_value(z.drop_last()) * 10 + ((z.last() as u32) - 48) as nat);
        assert(digits_value(d) == 0);
    } else {
        assert(z.drop_last() =~= seq!['0'] + d.drop_last());
        assert(z.last() == d.last());
        lemma_leading_zero_value(d.drop_last());
    }
}

/// The number of a lane, written with at least two digits, reads back as that number.
pub proof fn law_two_digits_read_back(n: nat)
    requires
        n <= usize::MAX,
    ensures
        parse_usize_spec(two_digits(n)) == Some(n as usize),
{
    lemma_decimal_reads_back(n);
    let t = two_digits(n);
    if n < 10 {
        lemma_leading_zero_value(decimal(n));
        assert forall|i: int| 0 <= i < t.len() implies is_digit(#[trigger] t[i]) by {
            if i > 0 {
                assert(t[i] == decimal(n)[i - 1]);
            }
        }
    }
    assert(unsigned_digits(t) == t);
}

/// A `--writable-lane` value that names one of the run's lane identifiers, with any
/// scope, is accepted for that lane with that scope.
pub proof fn law_lane_ids_name_writable_lanes(n: nat, lane_count: nat, scope: Seq<char>)
    requires
        1 <= n <= lane_count,
        lane_count <= usize::MAX,
    ensures
        writable_entry_spec(lane_id_spec(n) + seq![':'] + scope, lane_count) == Ok::<
            (Seq<char>, Seq<char>),
            Seq<char>,
        >((lane_id_spec(n), scope)),
{
    reveal_strlit("lane-");
    law_two_digits_read_back(n);
    lemma_decimal_reads_back(n);
    let lane = lane_id_spec(n);
    let entry = lane + seq![':'] + scope;
    let k = lane.len() as int;
    assert forall|i: int| 0 <= i < k implies entry[i] != ':' by {
        assert(entry[i] == lane[i]);
        if i >= 5 {
            let t = two_digits(n);
            assert(lane[i] == t[i - 5]);
            assert(is_digit(t[i - 5]));
        }
    }
    assert(entry[k] == ':');
    let w = choose|w: int| 0 <= w < entry.len() && entry[w] == ':' && forall|j: int| 0 <= j < w ==> entry[j] != ':';
    if w < k {
        assert(entry[w] != ':');
    } else if w > k {
        assert(entry[k] != ':');
    }
    assert(first_index_of(entry, ':') == Some(k));
    assert(entry.take(k) =~= lane);
    assert(entry.skip(k + 1) =~= scope);
    assert(lane.subrange(0, 5) =~= "lane-"@);
    assert(lane.skip(5) =~= two_digits(n));
}


// ---------------------------------------------------------------------------
// Waiting for lanes and inspecting runs
// ---------------------------------------------------------------------------

/// Whether to keep waiting for the read-only lanes: not while every awaited lane is
/// done, and not once the elapsed time exceeds the timeout (both in nanoseconds).
pub fn keep_waiting(done: &Vec<bool>, elapsed_ns: u64, timeout_ns: u64) -> (res: bool)
    ensures
        res == (!(forall|i: int| 0 <= i < done@.len() ==> #[trigger] done@[i]) && elapsed_ns
            <= timeout_ns),
{
    let mut all_done = true;
    let mut i: usize = 0;
    while i < done.len()
        invariant
            i <= done@.len(),
            all_done == (forall|j: int| 0 <= j < i ==> #[trigger] done@[j]),
        decreases done@.len() - i,
    {
        if !done[i] {
            all_done = false;
        }
        i += 1;
    }
    !all_done && elapsed_ns <= timeout_ns
}

/// The name of a parse status.
pub open spec fn parse_status_name(s: ParseStatus) -> Seq<char> {
    match s {
        ParseStatus::Pending => "Pending"@,
        ParseStatus::Success => "Success"@,
        ParseStatus::Failed => "Failed"@,
    }
}

/// The name of a synthesis status.
pub open spec fn synthesis_status_name(s: SynthesisStatus) -> Seq<char> {
    match s {
        SynthesisStatus::Pending => "Pending"@,
        SynthesisStatus::Completed => "Completed"@,
        SynthesisStatus::Blocked => "Blocked"@,
    }
}

/// The name of a conflict status.
pub open spec fn conflict_status_name(s: ConflictStatus) -> Seq<char> {
    match s {
        ConflictStatus::Clear => "Clear"@,
        ConflictStatus::Detected => "Detected"@,
    }
}

/// The summary of a run that `inspect` shows: one line each for the run, its
/// creation time, its directory, its lane count and its three statuses, and a line
/// for its session when it has one.
pub open spec fn inspect_summary_spec(m: RunManifest) -> Seq<char> {
    "run: "@ + m.run_slug@ + "\ncreated: "@ + m.created_at@ + "\ncwd: "@ + m.cwd@ + "\nlanes: "@
        + decimal(m.requested_lane_count as nat) + "\nparse: "@ + parse_status_name(
        m.parse_status,
    ) + "\nsynthesis: "@ + synthesis_status_name(m.synthesis_status) + "\nconflict: "@
        + conflict_status_name(m.conflict_status) + "\n"@ + match m.session_name {
        Some(s) => "session: "@ + s@ + "\n"@,
        None => Seq::<char>::empty(),
    }
}

/// Each status is shown by its own name, and no two statuses of a kind share one.
pub proof fn law_status_names_are_their_own(
    p1: ParseStatus,
    p2: ParseStatus,
    s1: SynthesisStatus,
    s2: SynthesisStatus,
    c1: ConflictStatus,
    c2: ConflictStatus,
)
    ensures
        parse_status_name(p1) == parse_status_name(p2) ==> p1 == p2,
        synthesis_status_name(s1) == synthesis_status_name(s2) ==> s1 == s2,
        conflict_status_name(c1) == conflict_status_name(c2) ==> c1 == c2,
        parse_status_name(ParseStatus::Pending) == "Pending"@,
        parse_status_name(ParseStatus::Success) == "Success"@,
        parse_status_name(ParseStatus::Failed) == "Failed"@,
        synthesis_status_name(SynthesisStatus::Pending) == "Pending"@,
        synthesis_status_name(SynthesisStatus::Completed) == "Completed"@,
        synthesis_status_name(SynthesisStatus::Blocked) == "Blocked"@,
        conflict_status_name(ConflictStatus::Clear) == "Clear"@,
        conflict_status_name(ConflictStatus::Detected) == "Detected"@,
{
    lemma_status_names_start_apart(p1, p2, s1, s2, c1, c2);
}

proof fn lemma_status_names_start_apart(
    p1: ParseStatus,
    p2: ParseStatus,
    s1: SynthesisStatus,
    s2: SynthesisStatus,
    c1: ConflictStatus,
    c2: ConflictStatus,
)
    ensures
        parse_status_name(p1).len() > 0,
        synthesis_status_name(s1).len() > 0,
        conflict_status_name(c1).len() > 0,
        parse_status_name(p2).len() > 0,
        synthesis_status_name(s2).len() > 0,
        conflict_status_name(c2).len() > 0,
        parse_status_name(p1)[0] == parse_status_name(p2)[0] ==> p1 == p2,
        synthesis_status_name(s1)[0] == synthesis_status_name(s2)[0] ==> s1 == s2,
        conflict_status_name(c1)[0] == conflict_status_name(c2)[0] ==> c1 == c2,
{
    reveal_strlit("Pending");
    reveal_strlit("Success");
    reveal_strlit("Failed");
    reveal_strlit("Completed");
    reveal_strlit("Blocked");
    reveal_strlit("Clear");
    reveal_strlit("Detected");
}

/// What follows a manifest's conflict status in its summary.
pub open spec fn summary_session_part(m: RunManifest) -> Seq<char> {
    "\n"@ + match m.session_name {
        Some(s) => "session: "@ + s@ + "\n"@,
        None => Seq::<char>::empty(),
    }
}

/// The summary tells the statuses apart: two runs with the same slug, creation
/// time, directory and lane count whose summaries read the same have the same
/// parse, synthesis and conflict status.
#[verifier::spinoff_prover]
pub proof fn law_inspect_summary_shows_the_statuses(m1: RunManifest, m2: RunManifest)
    requires
        m1.run_slug@ == m2.run_slug@,
        m1.created_at@ == m2.created_at@,
        m1.cwd@ == m2.cwd@,
        m1.requested_lane_count == m2.requested_lane_count,
        inspect_summary_spec(m1) == inspect_summary_spec(m2),
    ensures
        m1.parse_status == m2.parse_status,
        m1.synthesis_status == m2.synthesis_status,
        m1.conflict_status == m2.conflict_status,
{
    let t1 = inspect_summary_spec(m1);
    let t2 = inspect_summary_spec(m2);
    lemma_status_names_start_apart(
        m1.parse_status,
        m2.parse_status,
        m1.synthesis_status,
        m2.synthesis_status,
        m1.conflict_status,
        m2.conflict_status,
    );
    let head = "run: "@ + m1.run_slug@ + "\ncreated: "@ + m1.created_at@ + "\ncwd: "@ + m1.cwd@
        + "\nlanes: "@ + decimal(m1.requested_lane_count as nat) + "\nparse: "@;
    let n1 = parse_status_name(m1.parse_status);
    let n2 = parse_status_name(m2.parse_status);
    let y1 = synthesis_status_name(m1.synthesis_status);
    let y2 = synthesis_status_name(m2.synthesis_status);
    let k1 = conflict_status_name(m1.conflict_status);
    let k2 = conflict_status_name(m2.conflict_status);
    let r1 = summary_session_part(m1);
    let r2 = summary_session_part(m2);
    assert(t1 == head + n1 + "\nsynthesis: "@ + y1 + "\nconflict: "@ + k1 + r1);
    assert(t2 == head + n2 + "\nsynthesis: "@ + y2 + "\nconflict: "@ + k2 + r2);
    assert(t1[head.len() as int] == n1[0]);
    assert(t2[head.len() as int] == n2[0]);
    let head2 = head + n1 + "\nsynthesis: "@;
    assert(t1[head2.len() as int] == y1[0]);
    assert(t2[head2.len() as int] == y2[0]);
    let head3 = head2 + y1 + "\nconflict: "@;
    assert(t1[head3.len() as int] == k1[0]);
    assert(t2[head3.len() as int] == k2[0]);
}

/// Renders the summary of a run.
pub fn inspect_summary(m: &RunManifest) -> (text: String)
    ensures
        text@ == inspect_summary_spec(*m),
{
    let mut t = owned("run: ");
    push_str(&mut t, m.run_slug.as_str());
    push_str(&mut t, "\ncreated: ");
    push_str(&mut t, m.created_at.as_str());
    push_str(&mut t, "\ncwd: ");
    push_str(&mut t, m.cwd.as_str());
    push_str(&mut t, "\nlanes: ");
    push_decimal(&mut t, m.requested_lane_count);
    push_str(&mut t, "\nparse: ");
    push_str(
        &mut t,
        match m.parse_status {
            ParseStatus::Pending => "Pending",
            ParseStatus::Success => "Success",
            ParseStatus::Failed => "Failed",
        },
    );
    push_str(&mut t, "\nsynthesis: ");
    push_str(
        &mut t,
        match m.synthesis_status {
            SynthesisStatus::Pending => "Pending",
            SynthesisStatus::Completed => "Completed",
            SynthesisStatus::Blocked => "Blocked",
        },
    );
    push_str(&mut t, "\nconflict: ");
    push_str(
        &mut t,
        match m.conflict_status {
            ConflictStatus::Clear => "Clear",
            ConflictStatus::Detected => "Detected",
        },
    );
    push_str(&mut t, "\n");
    let ghost body = t@;
    match &m.session_name {
        Some(s) => {
            push_str(&mut t, "session: ");
            push_str(&mut t, s.as_str());
            push_str(&mut t, "\n");
        },
        None => {},
    }
    assert(t@ =~= inspect_summary_spec(*m));
    t
}

/// The lane that a `--writable-lane` value names, when the value is accepted.
pub open spec fn named_lane(entry: Seq<char>, lane_count: nat, lane: Seq<char>) -> bool {
    writable_entry_spec(entry, lane_count) matches Ok((l, _)) && l == lane
}

/// Writable lanes are opt-in: once the `--writable-lane` values are accepted, a lane
/// has a writable scope exactly when one of the values names it.
pub proof fn law_writable_lanes_are_opt_in(
    entries: Seq<Seq<char>>,
    lane_count: nat,
    scopes: Map<Seq<char>, Seq<char>>,
    lane: Seq<char>,
)
    requires
        writable_scopes_spec(entries, lane_count) == Ok::<Map<Seq<char>, Seq<char>>, Seq<char>>(
            scopes,
        ),
    ensures
        scopes.contains_key(lane) <==> exists|i: int|
            0 <= i < entries.len() && named_lane(#[trigger] entries[i], lane_count, lane),
    decreases entries.len(),
{
    if entries.len() > 0 {
        let prev = entries.drop_last();
        let last = entries.last();
        match writable_scopes_spec(prev, lane_count) {
            Ok(prev_scopes) => {
                law_writable_lanes_are_opt_in(prev, lane_count, prev_scopes, lane);
                if let Ok((l, s)) = writable_entry_spec(last, lane_count) {
                    assert(scopes == prev_scopes.insert(l, s));
                    if scopes.contains_key(lane) {
                        if l == lane {
                            assert(named_lane(entries[entries.len() - 1], lane_count, lane));
                        } else {
                            let i = choose|i: int|
                                0 <= i < prev.len() && named_lane(#[trigger] prev[i], lane_count, lane);
                            assert(entries[i] == prev[i]);
                        }
                    }
                    if exists|i: int|
                        0 <= i < entries.len() && named_lane(#[trigger] entries[i], lane_count, lane) {
                        let i = choose|i: int|
                            0 <= i < entries.len() && named_lane(#[trigger] entries[i], lane_count, lane);
                        if i < entries.len() - 1 {
                            assert(prev[i] == entries[i]);
                        }
                    }
                }
            },
            Err(_) => {},
        }
    }
}

} // verus!
