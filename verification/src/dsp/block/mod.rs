//! Block interfaces shared by sources, adapters and sinks.
use vstd::prelude::*;

pub mod fft;
pub mod sink;
pub mod source;

verus! {

/// This is what all sources and adapters return. It supports the ability
/// for the output to be valid or invalid, and also provides the ability
/// to signal that more input data is needed.
pub enum BlockOutput<O> {
    /// The amount of data provided is not supported, because it was either
    /// too many or too few, and it has been discarded. The string holds a
    /// diagnostic message.
    ErrorInputSizeInvalid(String),
    /// The data was processed, but more is needed to produce some output.
    NeedMoreInput(usize),
    /// The data produced.
    Ready(Vec<O>),
}

impl<O> BlockOutput<O> {
    /// The data of a `Ready` output. Only a `Ready` output holds data, so
    /// this may only be called on one.
    pub fn unwrap(self) -> (v: Vec<O>)
        requires
            self is Ready,
        ensures
            self == BlockOutput::Ready(v),
    {
        match self {
            BlockOutput::Ready(v) => v,
            _ => unreached(),
        }
    }
}

/// How much data a source is asked for. A source may be asked for exactly
/// what it determines to be an optimal size, for a bound on the size, or for
/// all data of a finite source.
pub enum SourceAmount {
    UntilEnd,
    AtLeast(usize),
    Optimal,
    AtMost(usize),
    Between(usize, usize),
}

/// A complex sample with signed 8-bit in-phase (`re`) and quadrature (`im`)
/// parts, as an RTL-SDR dongle delivers them once they are centred on zero.
#[derive(Clone, Copy, PartialEq, Eq, Structural, Debug)]
pub struct ComplexI8 {
    pub re: i8,
    pub im: i8,
}

/// Flattening a sequence with one more part at its end appends that part.
pub proof fn lemma_flatten_push<A>(q: Seq<Seq<A>>, c: Seq<A>)
    ensures
        q.push(c).flatten() == q.flatten() + c,
    decreases q.len(),
{
    if q.len() == 0 {
        assert(q.push(c).drop_first() =~= Seq::<Seq<A>>::empty());
        assert(q.push(c).drop_first().flatten() == Seq::<A>::empty());
        assert(q.push(c).first() == c);
        assert(q.push(c).flatten() =~= c);
        assert(q.flatten() + c =~= c);
    } else {
        assert(q.push(c).drop_first() =~= q.drop_first().push(c));
        lemma_flatten_push(q.drop_first(), c);
        assert(q.push(c).flatten() =~= q.flatten() + c);
    }
}

/// A block that produces output for input.
pub trait Adapter<I, O> {
    fn work(&mut self, input: Vec<I>) -> BlockOutput<O>;
}

/// A block that produces output with no direct input.
pub trait Source<O> {
    fn read(&mut self, amount: SourceAmount) -> BlockOutput<O>;
}

/// A block that consumes input with no direct output.
pub trait Sink<I> {
    fn write(&mut self, input: Vec<I>);
}

} // verus!
