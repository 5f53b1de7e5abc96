//! The bookkeeping of a discrete Fourier transform block over a fixed number
//! of bins: which inputs it accepts, what it answers the others, and where
//! each output bin lies relative to the centre frequency. The transform
//! itself is computed by FFTW in the program that owns the plan.
use vstd::prelude::*;
use vstd::string::*;
use crate::dsp::block::BlockOutput;

verus! {

/// The decimal digits of `n`.
pub open spec fn decimal_digits(n: nat) -> Seq<char>
    decreases n,
{
    if n < 10 {
        seq![(48 + n) as char]
    } else {
        decimal_digits(n / 10).push((48 + n % 10) as char)
    }
}

/// The decimal text of `v`, with a leading `-` where it is negative.
pub open spec fn decimal(v: int) -> Seq<char> {
    if v < 0 {
        seq!['-'] + decimal_digits((-v) as nat)
    } else {
        decimal_digits(v as nat)
    }
}

/// The message that a DFT block of `bins` bins answers input of another
/// size with.
pub open spec fn input_size_message(bins: i32) -> Seq<char> {
    "The input size must be "@ + decimal(bins as int)
        + " for performance! See, dsp::block::Chunker for a solution!"@
}

/// Appends the decimal digit `d`.
fn push_digit(s: &mut String, d: u64)
    requires
        d < 10,
    ensures
        final(s)@ == old(s)@.push((48 + d) as char),
{
    proof {
        reveal_strlit("0");
        reveal_strlit("1");
        reveal_strlit("2");
        reveal_strlit("3");
        reveal_strlit("4");
        reveal_strlit("5");
        reveal_strlit("6");
        reveal_strlit("7");
        reveal_strlit("8");
        reveal_strlit("9");
    }
    match d {
        0 => s.append("0"),
        1 => s.append("1"),
        2 => s.append("2"),
        3 => s.append("3"),
        4 => s.append("4"),
        5 => s.append("5"),
        6 => s.append("6"),
        7 => s.append("7"),
        8 => s.append("8"),
        _ => s.append("9"),
    }
}

/// Appends the decimal digits of `n`.
fn push_decimal(s: &mut String, n: u64)
    ensures
        final(s)@ == old(s)@ + decimal_digits(n as nat),
    decreases n,
{
    if n >= 10 {
        push_decimal(s, n / 10);
    }
    push_digit(s, n % 10);
    assert(s@ =~= old(s)@ + decimal_digits(n as nat));
}

/// The message for input of the wrong size to a transform of `bins` bins.
fn format_input_size_message(bins: i32) -> (m: String)
    ensures
        m@ == input_size_message(bins),
{
    let mut m = String::from_str("The input size must be ");
    if bins < 0 {
        proof {
            reveal_strlit("-");
        }
        m.append("-");
        push_decimal(&mut m, (-(bins as i64)) as u64);
    } else {
        push_decimal(&mut m, bins as u64);
    }
    m.append(" for performance! See, dsp::block::Chunker for a solution!");
    m
}

/// Half of `b`, rounded toward zero as integer division does.
pub open spec fn half_toward_zero(b: int) -> int {
    if b >= 0 {
        b / 2
    } else {
        -((-b) / 2)
    }
}

/// The signed distance, in bins, of bin `x` from the centre frequency in a
/// transform of `bins` bins: the bins up to half are above the centre, the
/// others wrap around to below it.
pub open spec fn bin_offset(bins: i32, x: i32) -> int {
    if x <= half_toward_zero(bins as int) {
        x as int
    } else {
        x - bins
    }
}

/// For a transform of `bins > 0` bins, the distance of each bin `x` in
/// `0..bins` from the centre is congruent to `x` modulo `bins`, and lies in
/// the half-open band from minus half the bins (excluded) to half the bins.
pub proof fn lemma_bin_offset_band(bins: i32, x: i32)
    requires
        bins > 0,
        0 <= x < bins,
    ensures
        (bin_offset(bins, x) - x) % (bins as int) == 0,
        -(bins as int) < 2 * bin_offset(bins, x) <= bins,
{
    if x > half_toward_zero(bins as int) {
        assert((bin_offset(bins, x) - x) == -(bins as int));
        assert((-(bins as int)) % (bins as int) == 0) by (nonlinear_arith)
            requires
                bins > 0,
        ;
    } else {
        assert(0int % (bins as int) == 0);
    }
}

/// A discrete Fourier transform over `bins` complex samples, forward or
/// backward.
pub struct DFTC64 {
    bins: i32,
    forward: bool,
}

impl DFTC64 {
    /// The number of bins.
    pub closed spec fn bins_view(&self) -> i32 {
        self.bins
    }

    /// Whether the transform is forward.
    pub closed spec fn forward_view(&self) -> bool {
        self.forward
    }

    /// A transform over `bins` samples, forward or backward.
    pub fn new(bins: i32, forward: bool) -> (d: DFTC64)
        ensures
            d.bins_view() == bins,
            d.forward_view() == forward,
    {
        DFTC64 { bins: bins, forward: forward }
    }

    /// The number of bins.
    pub fn bins(&self) -> (r: i32)
        ensures
            r == self.bins_view(),
    {
        self.bins
    }

    /// Whether the transform is forward.
    pub fn forward(&self) -> (r: bool)
        ensures
            r == self.forward_view(),
    {
        self.forward
    }

    /// The answer to input of `len` samples: `None` where the transform can
    /// take it, that is where it has exactly as many samples as bins, and
    /// otherwise the error for an input of invalid size. A block of another
    /// size is not cut or padded to fit: that is the work of a chunker.
    pub fn reject_input<O>(&self, len: usize) -> (r: Option<BlockOutput<O>>)
        ensures
            r is None <==> len == self.bins_view() as usize,
            self.bins_view() >= 0 ==> (r is None <==> len == self.bins_view()),
            r matches Some(out) ==> out matches BlockOutput::ErrorInputSizeInvalid(m) && m@
                == input_size_message(self.bins_view()),
    {
        if len != self.bins as usize {
            Some(BlockOutput::ErrorInputSizeInvalid(format_input_size_message(self.bins)))
        } else {
            None
        }
    }

    /// The signed distance, in bins, of bin `x` from the centre frequency:
    /// the frequency of the bin is the centre frequency plus this distance
    /// times the sample rate over the number of bins.
    pub fn bin_offset(&self, x: i32) -> (r: i64)
        requires
            x <= half_toward_zero(self.bins_view() as int) || i32::MIN <= self.bins_view() - x
                <= i32::MAX,
        ensures
            r == bin_offset(self.bins_view(), x),
    {
        let half: i32 = if self.bins >= 0 {
            self.bins / 2
        } else {
            -((-(self.bins as i64)) / 2) as i32
        };
        if x <= half {
            x as i64
        } else {
            -((self.bins - x) as i64)
        }
    }
}

} // verus!
