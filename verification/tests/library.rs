use std::path::PathBuf;

use zwi::budget::MemoryBudget;
use zwi::entries::{bytes_le, sort_by_name, ArchiveEntry};
use zwi::inputs::{default_output_name, scan_error, validate_inputs};
use zwi::messages::{
    created_summary, created_summary_text, decimal_text, file_error_message, found_summary,
    found_summary_text, progress_message, FileStep,
};
use zwi::parse::{default_threads, parse_memory_limit, parse_threads, parse_unsigned, MIB};
use zwi::paths::{archive_name, is_git_path, is_walk_excluded};
use zwi::plan::{count_files, plan_compression, split_by_kind, threads_shown, total_size};
use zwi::sizing::{buffer_reservation, zip64_required, MAX_PARALLEL_FILE_SIZE};

fn parts(items: &[&str]) -> Vec<String> {
    items.iter().map(|s| s.to_string()).collect()
}

fn entry(name: &str, size: u64, is_dir: bool) -> ArchiveEntry {
    ArchiveEntry {
        path: PathBuf::from(format!("/base/{name}")),
        name: name.to_string(),
        size,
        is_dir,
    }
}

fn names(entries: &[ArchiveEntry]) -> Vec<String> {
    entries.iter().map(|e| e.name.clone()).collect()
}

#[test]
fn zip64_is_enabled_before_a_file_can_cross_the_32_bit_limit() {
    assert!(!zip64_required(1024 * 1024));
    assert!(zip64_required(u32::MAX as u64));
}

#[test]
fn zip64_switches_on_where_the_reservation_passes_32_bits() {
    // 4_252_370_000 + 42_523_700 + 65_536 = 4_294_959_236 fits in 32 bits;
    // 4_252_380_000 + 42_523_800 + 65_536 = 4_294_969_336 does not.
    assert!(!zip64_required(4_252_370_000));
    assert!(zip64_required(4_252_380_000));
    assert!(!zip64_required(0));
    assert!(zip64_required(u64::MAX));
}

#[test]
fn buffer_reservation_adds_one_percent_and_header_room() {
    assert_eq!(buffer_reservation(0), 65_536);
    assert_eq!(buffer_reservation(100), 100 + 1 + 65_536);
    assert_eq!(buffer_reservation(1_000_000), 1_000_000 + 10_000 + 65_536);
    assert_eq!(buffer_reservation(u64::MAX), u64::MAX);
    assert_eq!(buffer_reservation(u64::MAX - 10), u64::MAX);
}

#[test]
fn parse_threads_accepts_positive_decimal_counts() {
    assert_eq!(parse_threads("4"), Ok(4));
    assert_eq!(parse_threads("+12"), Ok(12));
    assert_eq!(parse_threads("007"), Ok(7));
    assert_eq!(parse_threads(&usize::MAX.to_string()), Ok(usize::MAX));
}

#[test]
fn parse_threads_rejects_zero_signs_and_junk() {
    let message = Err("thread count must be at least 1".to_string());
    for bad in ["0", "", "+", "-1", " 4", "4 ", "four", "1.5", "٣", "+-1"] {
        assert_eq!(parse_threads(bad), message, "input {bad:?}");
    }
    let too_big = format!("{}0", usize::MAX);
    assert_eq!(parse_threads(&too_big), message);
}

#[test]
fn parse_unsigned_matches_std_parsing() {
    for text in ["0", "1", "+9", "18446744073709551615", "18446744073709551616", "", "+", "a1", "1a", "-0"] {
        assert_eq!(parse_unsigned(text, u64::MAX), text.parse::<u64>().ok(), "input {text:?}");
    }
    assert_eq!(parse_unsigned("100", 99), None);
    assert_eq!(parse_unsigned("99", 99), Some(99));
}

#[test]
fn parse_memory_limit_keeps_the_byte_count_within_usize() {
    let message = Err("memory limit must be a positive number of MiB".to_string());
    assert_eq!(parse_memory_limit("256"), Ok(256));
    assert_eq!(parse_memory_limit("1"), Ok(1));
    assert_eq!(parse_memory_limit("0"), message);
    assert_eq!(parse_memory_limit("abc"), message);
    let largest = usize::MAX as u64 / MIB;
    assert_eq!(parse_memory_limit(&largest.to_string()), Ok(largest));
    assert_eq!(parse_memory_limit(&(largest + 1).to_string()), message);
    assert!(largest.checked_mul(MIB).is_some());
}

#[test]
fn default_threads_stays_between_one_and_eight() {
    assert_eq!(default_threads(None), 1);
    assert_eq!(default_threads(Some(0)), 1);
    assert_eq!(default_threads(Some(1)), 1);
    assert_eq!(default_threads(Some(6)), 6);
    assert_eq!(default_threads(Some(8)), 8);
    assert_eq!(default_threads(Some(64)), 8);
}

#[test]
fn memory_budget_grants_only_what_is_available() {
    let mut budget = MemoryBudget::new(100);
    assert_eq!(budget.capacity(), 100);
    assert_eq!(budget.available(), 100);
    let first = budget.acquire(60).expect("60 of 100 fits");
    assert_eq!(first.bytes(), 60);
    assert_eq!(budget.available(), 40);
    assert!(budget.acquire(41).is_none());
    assert_eq!(budget.available(), 40);
    assert_eq!(budget.in_use(), 60);
    let second = budget.acquire(40).expect("the rest fits");
    assert_eq!(budget.available(), 0);
    assert_eq!(budget.in_use(), 100);
    budget.release(first);
    assert_eq!(budget.available(), 60);
    assert_eq!(budget.in_use(), 40);
    budget.release(second);
    assert_eq!(budget.available(), 100);
    assert_eq!(budget.in_use(), 0);
    assert_eq!(budget.capacity(), 100);
}

#[test]
fn releasing_a_permit_restores_the_budget() {
    let mut budget = MemoryBudget::new(256 * MIB);
    let before = budget.available();
    let permit = budget.acquire(buffer_reservation(MAX_PARALLEL_FILE_SIZE)).unwrap();
    budget.release(permit);
    assert_eq!(budget.available(), before);
}

#[test]
fn bytes_le_orders_like_str() {
    let words = ["", "a", "ab", "b", "Z", "é", "a/b", "a.b", "ä"];
    for x in words {
        for y in words {
            assert_eq!(bytes_le(x.as_bytes(), y.as_bytes()), x <= y, "{x:?} <= {y:?}");
        }
    }
}

#[test]
fn entries_are_sorted_by_name_bytewise() {
    let input = vec![
        entry("src/main.rs", 1, false),
        entry("README.md", 2, false),
        entry("src", 0, true),
        entry("café/x", 3, false),
        entry(".gitignore", 4, false),
        entry("src/a.rs", 5, false),
    ];
    let sorted = sort_by_name(input);
    assert_eq!(
        names(&sorted),
        vec![".gitignore", "README.md", "café/x", "src", "src/a.rs", "src/main.rs"]
    );
    assert_eq!(sorted[1].size, 2);
    assert_eq!(sorted[1].path, PathBuf::from("/base/README.md"));
    assert!(sort_by_name(Vec::new()).is_empty());
}

#[test]
fn git_paths_are_found_below_the_base_only() {
    let base = parts(&["/", "tmp", "project"]);
    assert!(is_git_path(&parts(&["/", "tmp", "project", ".git"]), &base));
    assert!(is_git_path(&parts(&["/", "tmp", "project", ".git", "objects", "ab"]), &base));
    assert!(is_git_path(&parts(&["/", "tmp", "project", "sub", ".git", "HEAD"]), &base));
    assert!(!is_git_path(&parts(&["/", "tmp", "project", ".gitignore"]), &base));
    assert!(!is_git_path(&parts(&["/", "tmp", "project", "src", "main.rs"]), &base));
    // A `.git` above the base does not count, nor does a path outside it.
    assert!(!is_git_path(&parts(&["/", ".git", "project", "x"]), &parts(&["/", ".git", "project"])) );
    assert!(!is_git_path(&parts(&["/", "other", ".git"]), &base));
}

#[test]
fn the_walk_skips_the_root_and_git_internals() {
    let base = parts(&["/", "p"]);
    assert!(is_walk_excluded(&base, &base));
    assert!(is_walk_excluded(&parts(&["/", "p", ".git", "config"]), &base));
    assert!(!is_walk_excluded(&parts(&["/", "p", "file.txt"]), &base));
    assert!(!is_walk_excluded(&parts(&["/"]), &base));
}

#[test]
fn archive_names_use_forward_slashes() {
    let base = parts(&["/", "p"]);
    assert_eq!(
        archive_name(&parts(&["/", "p", "src", "main.rs"]), &base, '/'),
        Some("src/main.rs".to_string())
    );
    assert_eq!(
        archive_name(&parts(&["/", "p", "folder\\file.txt"]), &base, '/'),
        Some("folder/file.txt".to_string())
    );
    assert_eq!(
        archive_name(&parts(&["/", "p", "café", "東京-🚀.txt"]), &base, '/'),
        Some("café/東京-🚀.txt".to_string())
    );
    assert_eq!(archive_name(&parts(&["/", "q", "x"]), &base, '/'), None);
    assert_eq!(archive_name(&base, &base, '/'), Some(String::new()));
}

#[test]
fn directories_come_apart_from_files_in_order() {
    let (dirs, files) = split_by_kind(vec![
        entry("a", 0, true),
        entry("a/x", 3, false),
        entry("b", 0, true),
        entry("c", 5, false),
    ]);
    assert_eq!(names(&dirs), vec!["a", "b"]);
    assert_eq!(names(&files), vec!["a/x", "c"]);
}

#[test]
fn summary_counts_files_and_bytes() {
    let entries = vec![entry("a", 0, true), entry("a/x", 3, false), entry("c", 5, false)];
    assert_eq!(count_files(&entries), 2);
    assert_eq!(total_size(&entries), Some(8));
    assert_eq!(total_size(&[]), Some(0));
    let huge = vec![entry("x", u64::MAX, false), entry("y", 1, false)];
    assert_eq!(total_size(&huge), None);
    assert_eq!(threads_shown(8, 3), 3);
    assert_eq!(threads_shown(2, 3), 2);
    assert_eq!(threads_shown(4, 0), 1);
}

#[test]
fn large_or_unaffordable_files_are_streamed() {
    let files = vec![
        entry("small", 10, false),
        entry("big", MAX_PARALLEL_FILE_SIZE + 1, false),
        entry("edge", MAX_PARALLEL_FILE_SIZE, false),
        entry("tiny", 0, false),
    ];
    let plan = plan_compression(files, 8, 256 * MIB);
    assert_eq!(names(&plan.buffered), vec!["small", "edge", "tiny"]);
    assert_eq!(names(&plan.streamed), vec!["big"]);
    assert_eq!(plan.worker_count, 3);
    assert_eq!(plan.channel_capacity, 3);

    // A 1 KiB budget cannot hold even the header allowance: everything streams.
    let plan = plan_compression(vec![entry("large.bin", 2048, false)], 4, 1024);
    assert!(plan.buffered.is_empty());
    assert_eq!(names(&plan.streamed), vec!["large.bin"]);
    assert_eq!(plan.worker_count, 0);
    assert_eq!(plan.channel_capacity, 1);

    let plan = plan_compression(vec![entry("a", 1, false), entry("b", 1, false)], 1, 256 * MIB);
    assert_eq!(plan.worker_count, 1);
}

#[test]
fn input_errors_are_reported_in_order() {
    assert_eq!(
        validate_inputs("/nonexistent/path", false, "", false, None, false),
        Err("'/nonexistent/path' is not a directory".to_string())
    );
    assert_eq!(
        validate_inputs("p", true, "/tmp/p", false, None, false),
        Err("No .gitignore file found in '/tmp/p'. Use --ignore-file to specify a custom ignore file."
            .to_string())
    );
    assert_eq!(
        validate_inputs("p", true, "/tmp/p", false, Some("/nonexistent/ignore"), false),
        Err("Ignore file '/nonexistent/ignore' does not exist".to_string())
    );
    assert_eq!(validate_inputs("p", true, "/tmp/p", true, None, false), Ok(()));
    assert_eq!(validate_inputs("p", true, "/tmp/p", false, Some("i"), true), Ok(()));
}

#[test]
fn default_output_is_the_directory_name_with_zip() {
    assert_eq!(default_output_name(Some("my-project")), Ok("my-project.zip".to_string()));
    assert_eq!(
        default_output_name(None),
        Err("Cannot determine directory name".to_string())
    );
}

#[test]
fn scan_errors_are_joined() {
    assert_eq!(scan_error(&[]), None);
    assert_eq!(
        scan_error(&["a".to_string(), "b".to_string()]),
        Some("Failed to scan input: a; b".to_string())
    );
}

#[test]
fn counts_are_written_in_decimal() {
    assert_eq!(decimal_text(0), "0");
    assert_eq!(decimal_text(7), "7");
    assert_eq!(decimal_text(10), "10");
    assert_eq!(decimal_text(12345), "12345");
    assert_eq!(decimal_text(u64::MAX), u64::MAX.to_string());
    for n in [0u64, 9, 10, 99, 100, 4096, u64::MAX] {
        assert_eq!(parse_unsigned(&decimal_text(n), u64::MAX), Some(n));
    }
}

#[test]
fn progress_and_file_errors_read_as_before() {
    assert_eq!(progress_message(0, 41), "Compressing  0/41 files");
    assert_eq!(progress_message(3, 41), "Compressing  3/41 files");
    assert_eq!(
        file_error_message(FileStep::Open, "/p/a.txt", "No such file or directory (os error 2)"),
        "Could not open '/p/a.txt': No such file or directory (os error 2)"
    );
    assert_eq!(file_error_message(FileStep::Archive, "x", "e"), "Could not archive 'x': e");
    assert_eq!(file_error_message(FileStep::Read, "x", "e"), "Could not read 'x': e");
    assert_eq!(file_error_message(FileStep::Compress, "x", "e"), "Could not compress 'x': e");
}

#[test]
fn summary_lines_show_sizes_and_time() {
    assert_eq!(
        found_summary_text(3, "1.46 KiB", 2),
        "  Found 3 file(s), 1.46 KiB to process using 2 thread(s)"
    );
    assert_eq!(
        found_summary(3, 1_500, 2),
        "  Found 3 file(s), 1.46 KiB to process using 2 thread(s)"
    );
    assert_eq!(found_summary(1, 15, 1), "  Found 1 file(s), 15 B to process using 1 thread(s)");
    assert_eq!(
        created_summary_text("out.zip", 2, "a", "b", "c"),
        "✓ Created 'out.zip' • 2 file(s) • a → b • c"
    );
    assert_eq!(
        created_summary("out.zip", 2, 1_500, 15, 2, 0),
        "✓ Created 'out.zip' • 2 file(s) • 1.46 KiB → 15 B • 2 seconds"
    );
}

#[test]
fn sorted_entries_do_not_depend_on_scan_order() {
    let first = sort_by_name(vec![
        entry("b", 1, false),
        entry("a/x", 2, false),
        entry("a", 0, true),
        entry("c", 3, false),
    ]);
    let second = sort_by_name(vec![
        entry("c", 3, false),
        entry("a", 0, true),
        entry("b", 1, false),
        entry("a/x", 2, false),
    ]);
    assert_eq!(names(&first), names(&second));
    assert_eq!(names(&first), vec!["a", "a/x", "b", "c"]);
}
