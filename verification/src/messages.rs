//! The text the tool shows: counts in decimal, the progress line, the
//! per-file error messages and the two summary lines.
use vstd::prelude::*;
use crate::parse::{digits_value, digit_value, is_decimal, is_digit_char, parsed_unsigned, unsigned_digits};

verus! {

/// The character of a decimal digit.
pub open spec fn digit_char(d: nat) -> char {
    (d + 48) as char
}

/// The decimal digits of `n`, most significant first, without leading zeros.
pub open spec fn decimal_digits(n: nat) -> Seq<char>
    decreases n,
{
    if n < 10 {
        seq![digit_char(n)]
    } else {
        decimal_digits(n / 10).push(digit_char(n % 10))
    }
}

fn push_decimal(text: &mut String, n: u64)
    ensures
        final(text)@ == old(text)@ + decimal_digits(n as nat),
    decreases n,
{
    if n >= 10 {
        push_decimal(text, n / 10);
    }
    let d: u8 = (n % 10) as u8;
    let c = (48u8 + d) as char;
    assert(c == digit_char((n % 10) as nat));
    text.push(c);
}

/// `n` written in decimal.
pub fn decimal_text(n: u64) -> (r: String)
    ensures
        r@ == decimal_digits(n as nat),
{
    let mut text = String::new();
    push_decimal(&mut text, n);
    text
}

proof fn lemma_digit_char_roundtrip(d: nat)
    requires
        d < 10,
    ensures
        is_digit_char(digit_char(d)),
        digit_value(digit_char(d)) == d,
{
}

proof fn lemma_decimal_digits(n: nat)
    ensures
        is_decimal(decimal_digits(n)),
        digits_value(decimal_digits(n)) == n,
    decreases n,
{
    let d = decimal_digits(n);
    if n < 10 {
        lemma_digit_char_roundtrip(n);
        assert(d.drop_last() =~= Seq::<char>::empty());
        assert(d.last() == digit_char(n));
        assert(digits_value(d) == digits_value(d.drop_last()) * 10 + digit_value(d.last()));
    } else {
        lemma_decimal_digits(n / 10);
        lemma_digit_char_roundtrip(n % 10);
        let front = decimal_digits(n / 10);
        assert(d.drop_last() =~= front);
        assert forall|i: int| 0 <= i < d.len() implies #[trigger] is_digit_char(d[i]) by {
            if i < front.len() {
                assert(d[i] == front[i]);
            }
        }
        assert(d.last() == digit_char(n % 10));
        assert(digits_value(d) == digits_value(front) * 10 + digit_value(d.last()));
        assert((n / 10) * 10 + n % 10 == n) by (nonlinear_arith);
    }
}

/// Every count the tool prints reads back as the same number: the decimal
/// text of `n` is a valid unsigned number whose value is `n`.
pub proof fn lemma_decimal_parses_back(n: nat)
    ensures
        parsed_unsigned(decimal_digits(n)) == Some(n),
{
    let d = decimal_digits(n);
    lemma_decimal_digits(n);
    assert(is_digit_char(d[0]));
    assert(unsigned_digits(d) == d);
}

/// The progress message while compressing.
pub open spec fn progress_text(done: nat, total: nat) -> Seq<char> {
    "Compressing  "@ + decimal_digits(done) + "/"@ + decimal_digits(total) + " files"@
}

/// The progress message after `done` of `total` files: `Compressing  done/total files`.
pub fn progress_message(done: usize, total: usize) -> (r: String)
    ensures
        r@ == progress_text(done as nat, total as nat),
{
    let mut m = String::from_str("Compressing  ");
    m.append(decimal_text(done as u64).as_str());
    m.append("/");
    m.append(decimal_text(total as u64).as_str());
    m.append(" files");
    m
}

/// The step at which reading or compressing one file failed.
pub enum FileStep {
    Open,
    Archive,
    Read,
    Compress,
}

/// The verb of a failed step.
pub open spec fn step_verb(step: FileStep) -> Seq<char> {
    match step {
        FileStep::Open => "open"@,
        FileStep::Archive => "archive"@,
        FileStep::Read => "read"@,
        FileStep::Compress => "compress"@,
    }
}

/// The message for a file that could not be compressed:
/// `Could not <step> '<path>': <error>`.
pub fn file_error_message(step: FileStep, path: &str, error: &str) -> (r: String)
    ensures
        r@ == "Could not "@ + step_verb(step) + " '"@ + path@ + "': "@ + error@,
{
    let mut m = String::from_str("Could not ");
    match step {
        FileStep::Open => m.append("open"),
        FileStep::Archive => m.append("archive"),
        FileStep::Read => m.append("read"),
        FileStep::Compress => m.append("compress"),
    }
    m.append(" '");
    m.append(path);
    m.append("': ");
    m.append(error);
    m
}

/// What indicatif's `HumanBytes` shows for a byte count.
pub uninterp spec fn human_bytes_text(bytes: nat) -> Seq<char>;

/// indicatif's `HumanBytes` display: a byte count in binary units (`15 B`,
/// `1.46 KiB`). The contract claims only that the text depends on the count
/// alone; the formatting itself is indicatif's and is not restated here.
#[verifier::external_body]
fn human_bytes(bytes: u64) -> (r: String)
    ensures
        r@ == human_bytes_text(bytes as nat),
{
    format!("{}", indicatif::HumanBytes(bytes))
}

/// What indicatif's `HumanDuration` shows for a duration of `secs` seconds
/// and `nanos` nanoseconds.
pub uninterp spec fn human_duration_text(secs: nat, nanos: nat) -> Seq<char>;

/// indicatif's `HumanDuration` display of `Duration::new(secs, nanos)`: the
/// duration in its largest fitting unit (`2 seconds`, `3 minutes`). The
/// contract claims only that the text depends on the duration alone.
#[verifier::external_body]
fn human_duration(secs: u64, nanos: u32) -> (r: String)
    requires
        nanos < 1000000000,
    ensures
        r@ == human_duration_text(secs as nat, nanos as nat),
{
    format!("{}", indicatif::HumanDuration(std::time::Duration::new(secs, nanos)))
}

/// The line shown after the scan, given the total size already written out.
pub open spec fn found_text(file_count: nat, total: Seq<char>, threads: nat) -> Seq<char> {
    "  Found "@ + decimal_digits(file_count) + " file(s), "@ + total + " to process using "@
        + decimal_digits(threads) + " thread(s)"@
}

/// The line shown after the scan, with the total size as text:
/// `  Found <n> file(s), <total> to process using <t> thread(s)`.
pub fn found_summary_text(file_count: usize, total: &str, threads: usize) -> (r: String)
    ensures
        r@ == found_text(file_count as nat, total@, threads as nat),
{
    let mut m = String::from_str("  Found ");
    m.append(decimal_text(file_count as u64).as_str());
    m.append(" file(s), ");
    m.append(total);
    m.append(" to process using ");
    m.append(decimal_text(threads as u64).as_str());
    m.append(" thread(s)");
    m
}

/// The line shown after the scan, with the total size in binary units.
pub fn found_summary(file_count: usize, total_bytes: u64, threads: usize) -> (r: String)
    ensures
        r@ == found_text(file_count as nat, human_bytes_text(total_bytes as nat), threads as nat),
{
    let total = human_bytes(total_bytes);
    found_summary_text(file_count, total.as_str(), threads)
}

/// The line shown once the archive is written, given sizes and time as text.
pub open spec fn created_text(
    output: Seq<char>,
    file_count: nat,
    total: Seq<char>,
    archive: Seq<char>,
    elapsed: Seq<char>,
) -> Seq<char> {
    "✓ Created '"@ + output + "' • "@ + decimal_digits(file_count) + " file(s) • "@ + total
        + " → "@ + archive + " • "@ + elapsed
}

/// The line shown once the archive is written, with sizes and time as text:
/// `✓ Created '<output>' • <n> file(s) • <total> → <archive> • <elapsed>`.
pub fn created_summary_text(
    output: &str,
    file_count: usize,
    total: &str,
    archive: &str,
    elapsed: &str,
) -> (r: String)
    ensures
        r@ == created_text(output@, file_count as nat, total@, archive@, elapsed@),
{
    let mut m = String::from_str("✓ Created '");
    m.append(output);
    m.append("' • ");
    m.append(decimal_text(file_count as u64).as_str());
    m.append(" file(s) • ");
    m.append(total);
    m.append(" → ");
    m.append(archive);
    m.append(" • ");
    m.append(elapsed);
    m
}

/// The line shown once the archive is written: the input and archive sizes in
/// binary units and the elapsed time of `elapsed_secs` seconds and
/// `elapsed_nanos` nanoseconds in its largest fitting unit.
pub fn created_summary(
    output: &str,
    file_count: usize,
    total_bytes: u64,
    archive_bytes: u64,
    elapsed_secs: u64,
    elapsed_nanos: u32,
) -> (r: String)
    requires
        elapsed_nanos < 1000000000,
    ensures
        r@ == created_text(
            output@,
            file_count as nat,
            human_bytes_text(total_bytes as nat),
            human_bytes_text(archive_bytes as nat),
            human_duration_text(elapsed_secs as nat, elapsed_nanos as nat),
        ),
{
    let total = human_bytes(total_bytes);
    let archive = human_bytes(archive_bytes);
    let elapsed = human_duration(elapsed_secs, elapsed_nanos);
    created_summary_text(output, file_count, total.as_str(), archive.as_str(), elapsed.as_str())
}

} // verus!
