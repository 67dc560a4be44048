//! What is done with the scanned entries: the summary reported to the user,
//! directories before files, and which files are compressed in memory by
//! workers and which are streamed into the archive.
use vstd::prelude::*;
use crate::budget::{BudgetView, acquire_model};
use crate::entries::ArchiveEntry;
use crate::sizing::{MAX_PARALLEL_FILE_SIZE, reservation, buffer_reservation};

verus! {

broadcast use vstd::seq_lib::group_filter_ensures;

/// The entry is a directory.
pub open spec fn is_directory(e: ArchiveEntry) -> bool {
    e.is_dir
}

/// The entry is a file.
pub open spec fn is_file(e: ArchiveEntry) -> bool {
    !e.is_dir
}

/// The sum of the sizes of the entries.
pub open spec fn total_size_of(s: Seq<ArchiveEntry>) -> nat
    decreases s.len(),
{
    if s.len() == 0 {
        0
    } else {
        total_size_of(s.drop_last()) + s.last().size as nat
    }
}

/// A file is compressed in memory by a worker when it is at most 64 MiB and
/// its reservation fits in the memory budget; otherwise it is streamed.
pub open spec fn fits_in_memory(e: ArchiveEntry, memory_limit: nat) -> bool {
    e.size <= MAX_PARALLEL_FILE_SIZE && reservation(e.size as nat) <= memory_limit
}

/// Filtering one more element of a prefix.
proof fn lemma_filter_take_step(s: Seq<ArchiveEntry>, pred: spec_fn(ArchiveEntry) -> bool, i: int)
    requires
        0 <= i < s.len(),
    ensures
        s.take(i + 1).filter(pred) == if pred(s[i]) {
            s.take(i).filter(pred).push(s[i])
        } else {
            s.take(i).filter(pred)
        },
{
    reveal(Seq::filter);
    assert(s.take(i + 1).drop_last() =~= s.take(i));
    assert(s.take(i + 1).last() == s[i]);
}

/// The number of files (entries that are not directories).
pub fn count_files(entries: &[ArchiveEntry]) -> (r: usize)
    ensures
        r == entries@.filter(|e: ArchiveEntry| is_file(e)).len(),
        r == files_of(entries@).len(),
{
    let ghost pred = |e: ArchiveEntry| is_file(e);
    let mut count: usize = 0;
    let mut i: usize = 0;
    while i < entries.len()
        invariant
            i <= entries@.len(),
            pred == (|e: ArchiveEntry| is_file(e)),
            count == entries@.take(i as int).filter(pred).len(),
            count <= i,
        decreases entries@.len() - i,
    {
        proof {
            lemma_filter_take_step(entries@, pred, i as int);
        }
        if !entries[i].is_dir {
            count = count + 1;
        }
        i = i + 1;
    }
    assert(entries@.take(entries@.len() as int) =~= entries@);
    count
}

/// The total size of the entries, if it fits in a `u64`.
pub fn total_size(entries: &[ArchiveEntry]) -> (r: Option<u64>)
    ensures
        match r {
            Some(t) => t as nat == total_size_of(entries@),
            None => total_size_of(entries@) > u64::MAX,
        },
{
    let mut total: u64 = 0;
    let mut i: usize = 0;
    while i < entries.len()
        invariant
            i <= entries@.len(),
            total as nat == total_size_of(entries@.take(i as int)),
        decreases entries@.len() - i,
    {
        assert(entries@.take(i + 1).drop_last() =~= entries@.take(i as int));
        let size = entries[i].size;
        match total.checked_add(size) {
            Some(t) => {
                total = t;
            },
            None => {
                proof {
                    lemma_total_size_prefix(entries@, i + 1);
                }
                return None;
            },
        }
        i = i + 1;
    }
    assert(entries@.take(entries@.len() as int) =~= entries@);
    Some(total)
}

/// The total of a prefix never exceeds the total of the whole.
proof fn lemma_total_size_prefix(s: Seq<ArchiveEntry>, n: int)
    requires
        0 <= n <= s.len(),
    ensures
        total_size_of(s.take(n)) <= total_size_of(s),
    decreases s.len(),
{
    if n < s.len() {
        assert(s.drop_last().take(n) =~= s.take(n));
        lemma_total_size_prefix(s.drop_last(), n);
    } else {
        assert(s.take(n) =~= s);
    }
}

/// The number of threads reported to the user: the requested count, but no
/// more than there are files (and at least one).
pub fn threads_shown(requested_threads: usize, file_count: usize) -> (r: usize)
    ensures
        r == if requested_threads < (if file_count > 1 {
            file_count
        } else {
            1
        }) {
            requested_threads
        } else if file_count > 1 {
            file_count
        } else {
            1
        },
{
    let at_least_one = if file_count > 1 {
        file_count
    } else {
        1
    };
    if requested_threads < at_least_one {
        requested_threads
    } else {
        at_least_one
    }
}

/// Splits the entries into directories and files, each in the given order.
pub fn split_by_kind(entries: Vec<ArchiveEntry>) -> (r: (Vec<ArchiveEntry>, Vec<ArchiveEntry>))
    ensures
        r.0@ == entries@.filter(|e: ArchiveEntry| is_directory(e)),
        r.1@ == entries@.filter(|e: ArchiveEntry| is_file(e)),
        r.0@ == directories_of(entries@),
        r.1@ == files_of(entries@),
{
    let ghost all = entries@;
    let ghost dir_pred = |e: ArchiveEntry| is_directory(e);
    let ghost file_pred = |e: ArchiveEntry| is_file(e);
    let mut dirs: Vec<ArchiveEntry> = Vec::new();
    let mut files: Vec<ArchiveEntry> = Vec::new();
    for e in it: entries
        invariant
            it.seq() == all,
            dir_pred == (|e: ArchiveEntry| is_directory(e)),
            file_pred == (|e: ArchiveEntry| is_file(e)),
            dirs@ == all.take(it.index()).filter(dir_pred),
            files@ == all.take(it.index()).filter(file_pred),
    {
        proof {
            assert(e == all[it.index()]);
            lemma_filter_take_step(all, dir_pred, it.index());
            lemma_filter_take_step(all, file_pred, it.index());
        }
        if e.is_dir {
            dirs.push(e);
        } else {
            files.push(e);
        }
    }
    assert(all.take(all.len() as int) =~= all);
    (dirs, files)
}

/// How the files are compressed.
pub struct CompressionPlan {
    /// Files compressed in memory by workers, in the given order.
    pub buffered: Vec<ArchiveEntry>,
    /// Files streamed straight into the archive afterwards, in the given order.
    pub streamed: Vec<ArchiveEntry>,
    /// The number of worker threads to start.
    pub worker_count: usize,
    /// How many compressed results may wait for the writer at once.
    pub channel_capacity: usize,
}

/// Decides how the files are compressed. Files of at most 64 MiB whose
/// reservation fits in `memory_limit` go to the workers; the others are
/// streamed with constant memory. As many workers are started as requested,
/// but no more than there are buffered files, and at least one whenever there
/// is buffered work and a thread to do it; the result channel always has room
/// for at least one result.
pub fn plan_compression(files: Vec<ArchiveEntry>, requested_threads: usize, memory_limit: u64) -> (r:
    CompressionPlan)
    ensures
        r.buffered@ == files@.filter(|e: ArchiveEntry| fits_in_memory(e, memory_limit as nat)),
        r.streamed@ == files@.filter(|e: ArchiveEntry| !fits_in_memory(e, memory_limit as nat)),
        r.worker_count == if requested_threads < r.buffered@.len() {
            requested_threads as int
        } else {
            r.buffered@.len() as int
        },
        r.channel_capacity == if r.worker_count > 1 {
            r.worker_count
        } else {
            1
        },
        r.worker_count <= requested_threads,
        r.worker_count <= r.buffered@.len(),
        requested_threads >= 1 && r.buffered@.len() >= 1 ==> r.worker_count >= 1,
        r.channel_capacity >= 1,
{
    let ghost all = files@;
    let ghost fits = |e: ArchiveEntry| fits_in_memory(e, memory_limit as nat);
    let ghost does_not_fit = |e: ArchiveEntry| !fits_in_memory(e, memory_limit as nat);
    let mut buffered: Vec<ArchiveEntry> = Vec::new();
    let mut streamed: Vec<ArchiveEntry> = Vec::new();
    for e in it: files
        invariant
            it.seq() == all,
            fits == (|e: ArchiveEntry| fits_in_memory(e, memory_limit as nat)),
            does_not_fit == (|e: ArchiveEntry| !fits_in_memory(e, memory_limit as nat)),
            buffered@ == all.take(it.index()).filter(fits),
            streamed@ == all.take(it.index()).filter(does_not_fit),
    {
        proof {
            assert(e == all[it.index()]);
            lemma_filter_take_step(all, fits, it.index());
            lemma_filter_take_step(all, does_not_fit, it.index());
        }
        if e.size <= MAX_PARALLEL_FILE_SIZE && buffer_reservation(e.size) <= memory_limit {
            buffered.push(e);
        } else {
            streamed.push(e);
        }
    }
    assert(all.take(all.len() as int) =~= all);
    let worker_count = if requested_threads < buffered.len() {
        requested_threads
    } else {
        buffered.len()
    };
    let channel_capacity = if worker_count > 1 {
        worker_count
    } else {
        1
    };
    CompressionPlan { buffered, streamed, worker_count, channel_capacity }
}

/// Every file the plan buffers is granted its reservation by a budget of
/// `memory_limit` bytes once nothing else holds memory, so no worker waits
/// forever; and it is small enough to be buffered at all.
pub proof fn lemma_buffered_files_fit_budget(files: Seq<ArchiveEntry>, memory_limit: nat, i: int)
    requires
        0 <= i < files.filter(|e: ArchiveEntry| fits_in_memory(e, memory_limit)).len(),
    ensures
        ({
            let e = files.filter(|e: ArchiveEntry| fits_in_memory(e, memory_limit))[i];
            &&& e.size <= MAX_PARALLEL_FILE_SIZE
            &&& acquire_model(
                BudgetView { capacity: memory_limit, available: memory_limit, outstanding: 0 },
                reservation(e.size as nat),
            ) is Some
        }),
{
    let pred = |e: ArchiveEntry| fits_in_memory(e, memory_limit);
    assert(pred(files.filter(pred)[i]));
}

/// The lanes are decided by the two limits alone, in raw numbers: a file goes
/// to the workers exactly when it is at most 64 MiB and its reservation
/// (size, plus one percent, plus 64 KiB, capped at `u64::MAX`) is within the
/// memory limit. Every file meeting both is buffered and not streamed; every
/// other file is streamed and not buffered.
pub proof fn lemma_lanes_follow_the_limits(files: Seq<ArchiveEntry>, memory_limit: nat)
    ensures
        forall|e: ArchiveEntry|
            #[trigger] fits_in_memory(e, memory_limit) <==> (e.size <= 67108864 && (if e.size
                + e.size / 100 + 65536 > u64::MAX {
                u64::MAX as nat
            } else {
                (e.size + e.size / 100 + 65536) as nat
            }) <= memory_limit),
        forall|k: int|
            0 <= k < files.len() && fits_in_memory(#[trigger] files[k], memory_limit) ==> files.filter(
                |e: ArchiveEntry| fits_in_memory(e, memory_limit),
            ).contains(files[k]) && !files.filter(
                |e: ArchiveEntry| !fits_in_memory(e, memory_limit),
            ).contains(files[k]),
        forall|k: int|
            0 <= k < files.len() && !fits_in_memory(#[trigger] files[k], memory_limit)
                ==> files.filter(|e: ArchiveEntry| !fits_in_memory(e, memory_limit)).contains(
                files[k],
            ) && !files.filter(|e: ArchiveEntry| fits_in_memory(e, memory_limit)).contains(
                files[k],
            ),
{
    let fits = |e: ArchiveEntry| fits_in_memory(e, memory_limit);
    let rest = |e: ArchiveEntry| !fits_in_memory(e, memory_limit);
    assert forall|k: int| 0 <= k < files.len() && fits_in_memory(#[trigger] files[k], memory_limit) implies files.filter(
        fits,
    ).contains(files[k]) && !files.filter(rest).contains(files[k]) by {
        files.lemma_filter_contains(fits, k);
        if files.filter(rest).contains(files[k]) {
            let j = choose|j: int| 0 <= j < files.filter(rest).len() && files.filter(rest)[j] == files[k];
            files.lemma_filter_pred(rest, j);
        }
    }
    assert forall|k: int| 0 <= k < files.len() && !fits_in_memory(#[trigger] files[k], memory_limit) implies files.filter(
        rest,
    ).contains(files[k]) && !files.filter(fits).contains(files[k]) by {
        files.lemma_filter_contains(rest, k);
        if files.filter(fits).contains(files[k]) {
            let j = choose|j: int| 0 <= j < files.filter(fits).len() && files.filter(fits)[j] == files[k];
            files.lemma_filter_pred(fits, j);
        }
    }
}

/// The directories among the entries, in order (what `split_by_kind` returns first).
pub open spec fn directories_of(entries: Seq<ArchiveEntry>) -> Seq<ArchiveEntry> {
    entries.filter(|e: ArchiveEntry| is_directory(e))
}

/// The files among the entries, in order (what `split_by_kind` returns second
/// and `count_files` counts).
pub open spec fn files_of(entries: Seq<ArchiveEntry>) -> Seq<ArchiveEntry> {
    entries.filter(|e: ArchiveEntry| is_file(e))
}

/// Directories and files are told apart by the entry's own `is_dir` flag
/// alone, whatever its size: every returned directory has `is_dir` set, every
/// returned file (and so every counted file) has it clear, and each entry is
/// returned on the side its flag names.
pub proof fn lemma_kind_follows_is_dir(entries: Seq<ArchiveEntry>)
    ensures
        forall|i: int|
            0 <= i < directories_of(entries).len() ==> (#[trigger] directories_of(entries)[i]).is_dir,
        forall|i: int| 0 <= i < files_of(entries).len() ==> !(#[trigger] files_of(entries)[i]).is_dir,
        forall|k: int|
            0 <= k < entries.len() && (#[trigger] entries[k]).is_dir ==> directories_of(
                entries,
            ).contains(entries[k]),
        forall|k: int|
            0 <= k < entries.len() && !(#[trigger] entries[k]).is_dir ==> files_of(entries).contains(
                entries[k],
            ),
{
    let dirs = |e: ArchiveEntry| is_directory(e);
    let files = |e: ArchiveEntry| is_file(e);
    assert forall|i: int| 0 <= i < directories_of(entries).len() implies (#[trigger] directories_of(
        entries,
    )[i]).is_dir by {
        entries.lemma_filter_pred(dirs, i);
    }
    assert forall|i: int| 0 <= i < files_of(entries).len() implies !(#[trigger] files_of(
        entries,
    )[i]).is_dir by {
        entries.lemma_filter_pred(files, i);
    }
    assert forall|k: int| 0 <= k < entries.len() && (#[trigger] entries[k]).is_dir implies directories_of(
        entries,
    ).contains(entries[k]) by {
        entries.lemma_filter_contains(dirs, k);
    }
    assert forall|k: int| 0 <= k < entries.len() && !(#[trigger] entries[k]).is_dir implies files_of(
        entries,
    ).contains(entries[k]) by {
        entries.lemma_filter_contains(files, k);
    }
}

/// Filtering by a condition and by its negation splits a list: together the
/// two parts hold every element, no more and no fewer.
pub proof fn lemma_filter_partition(s: Seq<ArchiveEntry>, pred: spec_fn(ArchiveEntry) -> bool)
    ensures
        s.filter(pred).to_multiset().add(s.filter(|e: ArchiveEntry| !pred(e)).to_multiset())
            == s.to_multiset(),
    decreases s.len(),
{
    let rest = |e: ArchiveEntry| !pred(e);
    broadcast use vstd::seq_lib::group_to_multiset_ensures;

    reveal(Seq::filter);
    if s.len() == 0 {
        assert(s.filter(pred) =~= Seq::<ArchiveEntry>::empty());
        assert(s.filter(rest) =~= Seq::<ArchiveEntry>::empty());
        assert(s.to_multiset() =~= vstd::multiset::Multiset::empty());
    } else {
        lemma_filter_partition(s.drop_last(), pred);
        assert(s =~= s.drop_last().push(s.last()));
        assert(s.filter(pred).to_multiset().add(s.filter(rest).to_multiset()) =~= s.to_multiset());
    }
}

/// Every file ends up in exactly one of the two lanes: together they hold the
/// files, no more and no fewer.
pub proof fn lemma_plan_partitions_files(files: Seq<ArchiveEntry>, memory_limit: nat)
    ensures
        files.filter(|e: ArchiveEntry| fits_in_memory(e, memory_limit)).to_multiset().add(
            files.filter(|e: ArchiveEntry| !fits_in_memory(e, memory_limit)).to_multiset(),
        ) == files.to_multiset(),
{
    let fits = |e: ArchiveEntry| fits_in_memory(e, memory_limit);
    lemma_filter_partition(files, fits);
    assert((|e: ArchiveEntry| !fits(e)) =~= (|e: ArchiveEntry| !fits_in_memory(e, memory_limit)));
}

/// Every scanned entry is archived exactly once: as a directory or as a file.
pub proof fn lemma_split_partitions_entries(entries: Seq<ArchiveEntry>)
    ensures
        entries.filter(|e: ArchiveEntry| is_directory(e)).to_multiset().add(
            entries.filter(|e: ArchiveEntry| is_file(e)).to_multiset(),
        ) == entries.to_multiset(),
{
    let dirs = |e: ArchiveEntry| is_directory(e);
    lemma_filter_partition(entries, dirs);
    assert((|e: ArchiveEntry| !dirs(e)) =~= (|e: ArchiveEntry| is_file(e)));
}

} // verus!
