//! Output formatting for the compiler's terminal messages.

pub mod colors;

use vstd::prelude::*;
use crate::util::text::{decimal, push_decimal};

verus! {

/// The clock reading a session started at.
#[verifier::external_type_specification]
#[verifier::external_body]
pub struct ExInstant(std::time::Instant);

/// Calls `Instant::now`: the current reading of the monotonic clock.
/// Nothing is stated of it.
#[verifier::external_body]
fn now() -> std::time::Instant {
    std::time::Instant::now()
}

/// Calls `Instant::elapsed` and `Duration::as_nanos`: the nanoseconds
/// since `start`.  It depends on the clock, so nothing is stated of it.
#[verifier::external_body]
fn nanos_since(start: &std::time::Instant) -> u128 {
    start.elapsed().as_nanos()
}

/// A seconds reading with one decimal, rounded to the nearest tenth:
/// `1.2s`.
pub open spec fn seconds_text(nanos: nat) -> Seq<char> {
    let tenths = (nanos + 50_000_000) / 100_000_000;
    decimal(tenths / 10) + "."@ + decimal(tenths % 10) + "s"@
}

/// Formats a duration of `nanos` nanoseconds as seconds with one decimal.
pub fn format_seconds(nanos: u128) -> (s: String)
    ensures
        s@ == seconds_text(nanos as nat),
{
    let tenths: u128 = nanos / 100_000_000 + (if nanos % 100_000_000 >= 50_000_000 { 1 } else { 0 });
    assert(tenths == (nanos + 50_000_000) / 100_000_000) by (nonlinear_arith)
        requires
            tenths == nanos / 100_000_000 + (if nanos % 100_000_000 >= 50_000_000 { 1int } else { 0int }),
    ;
    let whole: u128 = tenths / 10;
    let frac: u128 = tenths % 10;
    let mut s = String::new();
    push_decimal_wide(&mut s, whole);
    s.append(".");
    push_decimal(&mut s, frac as u64);
    s.append("s");
    s
}

/// Appends the decimal spelling of a 128-bit count.
fn push_decimal_wide(out: &mut String, n: u128)
    ensures
        final(out)@ == old(out)@ + decimal(n as nat),
    decreases n,
{
    if n < 10 {
        push_decimal(out, n as u64);
    } else {
        push_decimal_wide(out, n / 10);
        push_decimal(out, (n % 10) as u64);
        proof {
            reveal_with_fuel(decimal, 2);
            assert(decimal((n % 10) as nat) == seq![crate::util::text::digit_char((n % 10) as nat)]);
            assert(decimal(n as nat) == decimal((n / 10) as nat).push(crate::util::text::digit_char((n % 10) as nat)));
        }
    }
}

/// The compiler's terminal formatter: whether it colors its output, whether
/// it is verbose, and when the session started.
pub struct UI {
    use_colors: bool,
    verbose: bool,
    start_time: std::time::Instant,
}

impl UI {
    pub closed spec fn colored(&self) -> bool {
        self.use_colors
    }

    pub closed spec fn is_verbose_flag(&self) -> bool {
        self.verbose
    }

    /// A formatter with the given settings, started now.  Whether the
    /// terminal supports colors is for the caller to find out.
    pub fn with_colors(use_colors: bool, verbose: bool) -> (ui: Self)
        ensures
            ui.colored() == use_colors,
            ui.is_verbose_flag() == verbose,
    {
        UI { use_colors, verbose, start_time: now() }
    }

    /// A quiet formatter that colors its output.
    pub fn new() -> (ui: Self)
        ensures
            ui.colored(),
            !ui.is_verbose_flag(),
    {
        UI::with_colors(true, false)
    }

    /// A verbose formatter that colors its output.
    pub fn verbose() -> (ui: Self)
        ensures
            ui.colored(),
            ui.is_verbose_flag(),
    {
        UI::with_colors(true, true)
    }

    pub fn is_verbose(&self) -> (b: bool)
        ensures
            b == self.is_verbose_flag(),
    {
        self.verbose
    }

    pub fn uses_colors(&self) -> (b: bool)
        ensures
            b == self.colored(),
    {
        self.use_colors
    }

    /// `text` wrapped in the color code `color` and a reset, when colors are
    /// on; `text` alone otherwise.
    pub fn color(&self, text: &str, color: &str) -> (s: String)
        ensures
            s@ == (if self.colored() { color@ + text@ + colors::RESET@ } else { text@ }),
    {
        if self.use_colors {
            let mut s = color.to_owned();
            s.append(text);
            s.append(colors::RESET);
            s
        } else {
            text.to_owned()
        }
    }

    /// The time since the formatter was made, in seconds with one decimal,
    /// such as `1.2s`.  The reading depends on the clock.
    pub fn elapsed(&self) -> (s: String)
        ensures
            exists|nanos: nat| s@ == seconds_text(nanos),
    {
        let nanos = nanos_since(&self.start_time);
        format_seconds(nanos)
    }
}

/// The cells of a 40-cell progress bar for `current` of `total` done —
/// filled, then empty — and the whole percentage.
pub fn progress_counts(current: usize, total: usize) -> (r: (usize, usize, usize))
    requires
        total > 0,
        current <= total,
        current * 100 <= usize::MAX,
    ensures
        r.0 == (current * 40) / (total as int),
        r.1 == 40 - r.0,
        r.2 == (current * 100) / (total as int),
        r.0 <= 40,
{
    let width: usize = 40;
    assert(current * 40 <= current * 100) by (nonlinear_arith)
        requires
            current >= 0,
    ;
    let filled = (current * width) / total;
    assert(filled <= 40) by (nonlinear_arith)
        requires
            filled == (current * 40) / (total as int),
            current <= total,
            total > 0,
    ;
    let empty = width - filled;
    let percentage = (current * 100) / total;
    (filled, empty, percentage)
}

} // verus!
