//! Which log files are kept.

use vstd::prelude::*;

use crate::config::LoggingConfig;
use crate::filter;
use crate::text;

verus! {

/// A log file: its name and the moment of its last change, in nanoseconds
/// since the start of 1970.
#[derive(Debug, PartialEq, Eq)]
pub struct LogFile {
    pub name: String,
    pub modified_at: i128,
}

/// The beginning of the names of the log files.
pub open spec fn name_prefix(config: LoggingConfig) -> Seq<char> {
    config.file_prefix@ + ".log"@
}

pub fn log_name(config: &LoggingConfig) -> (r: String)
    ensures
        r@ == name_prefix(*config),
{
    config.file_prefix.clone().concat(".log")
}

/// Whether a file of this name is one of the log files.
pub fn is_log_file(config: &LoggingConfig, name: &str) -> (r: bool)
    ensures
        r == name_prefix(*config).is_prefix_of(name@),
{
    text::starts_with(name, log_name(config).as_str())
}

pub open spec fn level_or_info(level: Seq<char>, filter_ok: bool) -> Seq<char> {
    if filter_ok {
        level
    } else {
        "info"@
    }
}

/// The filter of the log: the level that is configured, or `info` where that is
/// no filter.
pub fn log_level(config: &LoggingConfig) -> (r: String)
    ensures
        r@ == level_or_info(config.level@, filter::usable_filter(config.level@)),
{
    let filter_ok = filter::is_usable_filter(config.level.as_str());
    log_level_with(config, filter_ok)
}

/// The same, where it is known whether the level is a filter.
pub fn log_level_with(config: &LoggingConfig, filter_ok: bool) -> (r: String)
    ensures
        r@ == level_or_info(config.level@, filter_ok),
{
    if filter_ok {
        config.level.clone()
    } else {
        "info".to_string()
    }
}

// ---------------------------------------------------------------------------
// Age

/// A file is too old when it was changed longer ago than the days that files
/// are kept. With no days given no file is, nor is one from the future.
pub open spec fn expired(modified_at: int, now: int, retention_days: int) -> bool {
    retention_days > 0 && now - modified_at > retention_days * 86_400_000_000_000
}

/// The files that are too old, by their place in the list.
pub fn expired_files(files: &Vec<LogFile>, now: i128, retention_days: u64) -> (r: Vec<usize>)
    requires
        retention_days * 86_400 <= u64::MAX,
    ensures
        forall|i: int, j: int| 0 <= i < j < r@.len() ==> r@[i] < r@[j],
        forall|i: usize| #[trigger]
            r@.contains(i) <==> i < files@.len() && expired(
                files@[i as int].modified_at as int,
                now as int,
                retention_days as int,
            ),
{
    let mut r: Vec<usize> = Vec::new();
    let max_age = retention_days as i128 * 86_400_000_000_000;
    let mut i: usize = 0;
    while i < files.len()
        invariant
            i <= files@.len(),
            max_age == retention_days * 86_400_000_000_000,
            0 <= max_age <= u64::MAX * 1_000_000_000,
            forall|a: int, b: int| 0 <= a < b < r@.len() ==> r@[a] < r@[b],
            forall|k: int| 0 <= k < r@.len() ==> (#[trigger] r@[k]) < i,
            forall|k: usize| #[trigger]
                r@.contains(k) <==> k < i && expired(
                    files@[k as int].modified_at as int,
                    now as int,
                    retention_days as int,
                ),
        decreases files@.len() - i,
    {
        let modified_at = files[i].modified_at;
        let limit = now.checked_sub(max_age);
        let old = retention_days > 0 && (match limit {
            Some(oldest) => modified_at < oldest,
            None => false,
        });
        let ghost before = r@;
        if old {
            r.push(i);
            proof {
                assert forall|k: usize| #[trigger] r@.contains(k) <==> (before.contains(k) || k
                    == i) by {
                    if before.contains(k) {
                        let j = choose|j: int| 0 <= j < before.len() && before[j] == k;
                        assert(r@[j] == k);
                    }
                    assert(r@[before.len() as int] == i);
                }
            }
        }
        i += 1;
    }
    r
}

// ---------------------------------------------------------------------------
// Number

/// File `j` is kept before file `i`: it is newer, or as old and listed first.
pub open spec fn before(times: Seq<i128>, j: int, i: int) -> bool {
    times[j] > times[i] || (times[j] == times[i] && j < i)
}

/// The number of files among the first `n` that are kept before file `i`.
pub open spec fn ahead(times: Seq<i128>, i: int, n: int) -> nat
    decreases n,
{
    if n <= 0 {
        0
    } else {
        ahead(times, i, n - 1) + if before(times, n - 1, i) {
            1nat
        } else {
            0
        }
    }
}

/// The place of file `i` when the newest comes first.
pub open spec fn age_rank(times: Seq<i128>, i: int) -> nat {
    ahead(times, i, times.len() as int)
}

pub open spec fn times_of(files: Seq<LogFile>) -> Seq<i128> {
    files.map_values(|f: LogFile| f.modified_at)
}

pub proof fn lemma_ahead_bound(times: Seq<i128>, i: int, n: int)
    requires
        0 <= n,
    ensures
        ahead(times, i, n) <= n,
        0 <= i < n ==> ahead(times, i, n) < n,
    decreases n,
{
    if n > 0 {
        lemma_ahead_bound(times, i, n - 1);
    }
}

fn rank_of(files: &Vec<LogFile>, i: usize) -> (r: usize)
    requires
        i < files@.len(),
    ensures
        r == age_rank(times_of(files@), i as int),
{
    let ghost times = times_of(files@);
    let mut r: usize = 0;
    let mut j: usize = 0;
    while j < files.len()
        invariant
            i < files@.len(),
            j <= files@.len(),
            times == times_of(files@),
            r == ahead(times, i as int, j as int),
            r <= j,
        decreases files@.len() - j,
    {
        if files[j].modified_at > files[i].modified_at || (files[j].modified_at
            == files[i].modified_at && j < i) {
            r += 1;
        }
        j += 1;
    }
    r
}

/// The files beyond the number that is kept, newest first, by their place in
/// the list.
pub fn surplus_files(files: &Vec<LogFile>, retention_files: usize) -> (r: Vec<usize>)
    ensures
        forall|i: int, j: int| 0 <= i < j < r@.len() ==> r@[i] < r@[j],
        forall|i: usize| #[trigger]
            r@.contains(i) <==> i < files@.len() && age_rank(times_of(files@), i as int)
                >= retention_files,
{
    let mut r: Vec<usize> = Vec::new();
    let mut i: usize = 0;
    while i < files.len()
        invariant
            i <= files@.len(),
            forall|a: int, b: int| 0 <= a < b < r@.len() ==> r@[a] < r@[b],
            forall|k: int| 0 <= k < r@.len() ==> (#[trigger] r@[k]) < i,
            forall|k: usize| #[trigger]
                r@.contains(k) <==> k < i && age_rank(times_of(files@), k as int)
                    >= retention_files,
        decreases files@.len() - i,
    {
        let ghost known = r@;
        if rank_of(files, i) >= retention_files {
            r.push(i);
            proof {
                assert forall|k: usize| #[trigger] r@.contains(k) <==> (known.contains(k) || k
                    == i) by {
                    if known.contains(k) {
                        let j = choose|j: int| 0 <= j < known.len() && known[j] == k;
                        assert(r@[j] == k);
                    }
                    assert(r@[known.len() as int] == i);
                }
            }
        }
        i += 1;
    }
    r
}

// ---------------------------------------------------------------------------
// Laws

proof fn lemma_ahead_order(times: Seq<i128>, a: int, b: int, n: int)
    requires
        0 <= n <= times.len(),
        before(times, a, b),
        0 <= a < times.len(),
        0 <= b < times.len(),
    ensures
        ahead(times, a, n) <= ahead(times, b, n),
        a < n ==> ahead(times, a, n) < ahead(times, b, n),
    decreases n,
{
    if n > 0 {
        lemma_ahead_order(times, a, b, n - 1);
        let c = n - 1;
        assert(before(times, c, a) ==> before(times, c, b));
    }
}

/// A file that is kept is at least as new as any that is not.
pub proof fn law_newest_files_are_kept(times: Seq<i128>, retention_files: nat, i: int, j: int)
    requires
        0 <= i < times.len(),
        0 <= j < times.len(),
        age_rank(times, i) < retention_files,
        age_rank(times, j) >= retention_files,
    ensures
        times[i] >= times[j],
{
    if times[j] > times[i] {
        lemma_ahead_order(times, j, i, times.len() as int);
    }
}

/// The places of the files that are kept.
pub open spec fn kept(times: Seq<i128>, retention_files: nat) -> Set<int> {
    vstd::set_lib::set_int_range(0, times.len() as int).filter(
        |i: int| age_rank(times, i) < retention_files,
    )
}

/// As many files are kept as were asked for, or all where there are fewer.
pub proof fn law_number_of_kept_files(times: Seq<i128>, retention_files: nat)
    ensures
        kept(times, retention_files).finite(),
        kept(times, retention_files).len() == if times.len() < retention_files {
            times.len()
        } else {
            retention_files
        },
{
    let n = times.len() as int;
    let all = vstd::set_lib::set_int_range(0, n);
    vstd::set_lib::lemma_int_range(0, n);
    let rank = |i: int| age_rank(times, i) as int;
    let image = all.map(rank);
    assert forall|a: int, b: int| all.contains(a) && all.contains(b) && #[trigger] rank(a)
        == #[trigger] rank(b) implies a == b by {
        if a != b {
            if before(times, a, b) {
                lemma_ahead_order(times, a, b, n);
            } else {
                lemma_ahead_order(times, b, a, n);
            }
        }
    }
    vstd::set_lib::lemma_map_size(all, image, rank);
    assert forall|r: int| image.contains(r) implies all.contains(r) by {
        let i = choose|i: int| all.contains(i) && rank(i) == r;
        lemma_ahead_bound(times, i, n);
    }
    vstd::set_lib::lemma_subset_equality(image, all);
    let k = if times.len() < retention_files {
        n
    } else {
        retention_files as int
    };
    let some = kept(times, retention_files);
    let low = vstd::set_lib::set_int_range(0, k);
    vstd::set_lib::lemma_int_range(0, k);
    assert(some.subset_of(all));
    vstd::set_lib::lemma_len_subset(some, all);
    assert(some.map(rank) =~= low) by {
        assert forall|r: int| #[trigger] some.map(rank).contains(r) <==> low.contains(r) by {
            if some.map(rank).contains(r) {
                let i = choose|i: int| some.contains(i) && rank(i) == r;
                lemma_ahead_bound(times, i, n);
            }
            if low.contains(r) {
                assert(image.contains(r));
                let i = choose|i: int| all.contains(i) && rank(i) == r;
                assert(some.contains(i));
                assert(rank(i) == r);
            }
        }
    }
    vstd::set_lib::lemma_map_size(some, low, rank);
}

/// A file is too old exactly when a whole number of days that is asked for, of
/// twenty-four hours each, is less than its age. Without days, and for files
/// from the future, none is.
pub proof fn law_age_is_counted_in_days(modified_at: int, now: int, retention_days: int)
    requires
        retention_days >= 0,
    ensures
        retention_days == 0 ==> !expired(modified_at, now, retention_days),
        modified_at >= now ==> !expired(modified_at, now, retention_days),
        retention_days > 0 ==> (expired(modified_at, now, retention_days) <==> now - modified_at > (
        24 * 60 * 60) * 1_000_000_000 * retention_days),
        expired(modified_at, now, retention_days) ==> expired(modified_at, now + 1, retention_days),
{
    assert((24 * 60 * 60) * 1_000_000_000 == 86_400_000_000_000int);
    assert(86_400_000_000_000 * retention_days == retention_days * 86_400_000_000_000)
        by (nonlinear_arith);
    assert(retention_days * 86_400_000_000_000 >= 0) by (nonlinear_arith)
        requires
            retention_days >= 0,
    ;
}

/// Of two files the newer one is kept before the older one, and of two that
/// are as old the one that is listed first; so no two files share a place.
pub proof fn law_places_follow_age(times: Seq<i128>, i: int, j: int)
    requires
        0 <= i < times.len(),
        0 <= j < times.len(),
        i != j,
    ensures
        times[i] > times[j] ==> age_rank(times, i) < age_rank(times, j),
        times[i] == times[j] && i < j ==> age_rank(times, i) < age_rank(times, j),
        age_rank(times, i) < times.len(),
{
    lemma_ahead_bound(times, i, times.len() as int);
    if times[i] > times[j] || (times[i] == times[j] && i < j) {
        lemma_ahead_order(times, i, j, times.len() as int);
    }
}

/// The names of the log files begin with the prefix that is configured and
/// `.log`, and the level that is used is the one that is configured wherever
/// it can be.
pub proof fn law_names_and_level(config: LoggingConfig, rest: Seq<char>, filter_ok: bool)
    ensures
        name_prefix(config).is_prefix_of(config.file_prefix@ + ".log"@ + rest),
        name_prefix(config) == config.file_prefix@ + ".log"@,
        level_or_info(config.level@, filter_ok) == if filter_ok {
            config.level@
        } else {
            "info"@
        },
{
    let name = config.file_prefix@ + ".log"@ + rest;
    assert(name.take(name_prefix(config).len() as int) =~= name_prefix(config));
}

} // verus!
