//! Downloading a model file: whether to resume, and what progress to report.

use vstd::prelude::*;
use vstd::string::StringExecFns;
use crate::text::string_of;

verus! {

/// How a download of one file begins.
#[derive(Debug, Clone, Copy, PartialEq, Eq, Structural)]
pub enum ResumePlan {
    /// The file on disk is complete: nothing is fetched.
    Complete,
    /// The file on disk is a beginning: fetch from this byte on and append.
    Resume { from: u64 },
    /// Fetch the whole file.
    Fresh,
}

/// The size that a download is measured against: the length that the
/// server announces, or the size that the catalog expects.
pub fn announced_size(content_length: Option<u64>, expected_size: u64) -> (total: u64)
    ensures
        total == (match content_length {
            Some(n) => n,
            None => expected_size,
        }),
{
    match content_length {
        Some(n) => n,
        None => expected_size,
    }
}

/// Decides how to begin: a file as long as the announced size, when that
/// size is known, is complete; a shorter one that is not empty is resumed;
/// without a file, or with an empty one, the download starts afresh.
pub fn resume_plan(existing_len: Option<u64>, total_size: u64) -> (plan: ResumePlan)
    ensures
        plan == (match existing_len {
            Some(len) => if len >= total_size && total_size > 0 {
                ResumePlan::Complete
            } else if len > 0 {
                ResumePlan::Resume { from: len }
            } else {
                ResumePlan::Fresh
            },
            None => ResumePlan::Fresh,
        }),
{
    match existing_len {
        Some(len) => {
            if len >= total_size && total_size > 0 {
                ResumePlan::Complete
            } else if len > 0 {
                ResumePlan::Resume { from: len }
            } else {
                ResumePlan::Fresh
            }
        },
        None => ResumePlan::Fresh,
    }
}

/// The character of a decimal digit.
pub open spec fn digit_char(d: int) -> char {
    if d == 0 {
        '0'
    } else if d == 1 {
        '1'
    } else if d == 2 {
        '2'
    } else if d == 3 {
        '3'
    } else if d == 4 {
        '4'
    } else if d == 5 {
        '5'
    } else if d == 6 {
        '6'
    } else if d == 7 {
        '7'
    } else if d == 8 {
        '8'
    } else {
        '9'
    }
}

/// A number written in decimal digits, without leading zeros.
pub open spec fn decimal_digits(n: int) -> Seq<char>
    decreases n,
{
    if n < 10 {
        seq![digit_char(n)]
    } else {
        decimal_digits(n / 10).push(digit_char(n % 10))
    }
}

/// The character of a decimal digit.
fn digit_of(d: u64) -> (c: char)
    requires
        d < 10,
    ensures
        c == digit_char(d as int),
{
    if d == 0 {
        '0'
    } else if d == 1 {
        '1'
    } else if d == 2 {
        '2'
    } else if d == 3 {
        '3'
    } else if d == 4 {
        '4'
    } else if d == 5 {
        '5'
    } else if d == 6 {
        '6'
    } else if d == 7 {
        '7'
    } else if d == 8 {
        '8'
    } else {
        '9'
    }
}

/// Writes a number in decimal digits.
pub fn decimal_text(n: u64) -> (digits: Vec<char>)
    ensures
        digits@ == decimal_digits(n as int),
{
    let mut reversed: Vec<char> = Vec::new();
    let mut rest: u64 = n;
    while rest >= 10
        invariant
            decimal_digits(n as int) == decimal_digits(rest as int) + reversed@.reverse(),
        decreases rest,
    {
        let ghost before = reversed@;
        reversed.push(digit_of(rest % 10));
        proof {
            let d = digit_char((rest % 10) as int);
            assert(reversed@.reverse() =~= seq![d] + before.reverse());
            assert(decimal_digits((rest / 10) as int).push(d) + before.reverse()
                =~= decimal_digits((rest / 10) as int) + (seq![d] + before.reverse()));
        }
        rest = rest / 10;
    }
    let mut digits: Vec<char> = Vec::new();
    digits.push(digit_of(rest));
    let mut i: usize = reversed.len();
    while i > 0
        invariant
            i <= reversed@.len(),
            digits@ == seq![digit_char(rest as int)] + reversed@.reverse().take(
                reversed@.len() - i,
            ),
        decreases i,
    {
        i = i - 1;
        digits.push(reversed[i]);
        assert(reversed@.reverse().take(reversed@.len() - i) =~= reversed@.reverse().take(
            reversed@.len() - i - 1,
        ).push(reversed@[i as int]));
    }
    assert(reversed@.reverse().take(reversed@.len() as int) =~= reversed@.reverse());
    digits
}

/// The range that asks a server for everything from byte `from` on.
pub open spec fn range_from(from: int) -> Seq<char> {
    "bytes="@ + decimal_digits(from) + "-"@
}

/// The value of the `Range` header that resumes a download at byte `from`.
pub fn range_header(from: u64) -> (header: String)
    ensures
        header@ == range_from(from as int),
{
    let digits: Vec<char> = decimal_text(from);
    let number: String = string_of(digits.as_slice());
    let mut header: String = String::from_str("bytes=");
    header.append(number.as_str());
    header.append("-");
    header
}

/// What is reported while a file downloads. The progress is in thousandths
/// of the whole.
#[derive(Debug, Clone, PartialEq, Eq)]
pub struct DownloadProgress {
    pub model_id: String,
    pub progress_permille: u64,
    pub speed_bps: u64,
    pub eta_seconds: u64,
}

/// Bytes per second after `downloaded` bytes in `elapsed_ms` milliseconds;
/// 0 before any time has passed.
pub open spec fn speed_of(downloaded: int, elapsed_ms: int) -> int {
    if elapsed_ms > 0 {
        if downloaded * 1000 / elapsed_ms > u64::MAX {
            u64::MAX as int
        } else {
            downloaded * 1000 / elapsed_ms
        }
    } else {
        0
    }
}

/// Seconds that the rest of the download takes at the present speed; 0
/// where the speed or the rest is unknown.
pub open spec fn eta_of(downloaded: int, total_size: int, speed: int) -> int {
    if speed > 0 && total_size > downloaded {
        (total_size - downloaded) / speed
    } else {
        0
    }
}

/// Thousandths of the whole that are downloaded; 0 where the whole is unknown.
pub open spec fn permille_of(downloaded: int, total_size: int) -> int {
    if total_size > 0 {
        if downloaded * 1000 / total_size > u64::MAX {
            u64::MAX as int
        } else {
            downloaded * 1000 / total_size
        }
    } else {
        0
    }
}

/// `a * 1000 / b`, never past the range of 64 bits.
fn thousandfold(a: u64, b: u64) -> (q: u64)
    requires
        b > 0,
    ensures
        q == (if a * 1000 / (b as int) > u64::MAX {
            u64::MAX as int
        } else {
            a * 1000 / (b as int)
        }),
{
    let wide: u128 = a as u128 * 1000 / b as u128;
    if wide > u64::MAX as u128 {
        u64::MAX
    } else {
        wide as u64
    }
}

/// The progress to report after `downloaded` of `total_size` bytes in
/// `elapsed_ms` milliseconds.
pub fn download_progress(model_id: String, downloaded: u64, total_size: u64, elapsed_ms: u64) -> (
    report: DownloadProgress)
    ensures
        report.model_id == model_id,
        report.progress_permille == permille_of(downloaded as int, total_size as int),
        report.speed_bps == speed_of(downloaded as int, elapsed_ms as int),
        report.eta_seconds == eta_of(
            downloaded as int,
            total_size as int,
            speed_of(downloaded as int, elapsed_ms as int),
        ),
{
    let speed_bps: u64 = if elapsed_ms > 0 {
        thousandfold(downloaded, elapsed_ms)
    } else {
        0
    };
    let eta_seconds: u64 = if speed_bps > 0 && total_size > downloaded {
        (total_size - downloaded) / speed_bps
    } else {
        0
    };
    let progress_permille: u64 = if total_size > 0 {
        thousandfold(downloaded, total_size)
    } else {
        0
    };
    DownloadProgress { model_id, progress_permille, speed_bps, eta_seconds }
}

} // verus!
