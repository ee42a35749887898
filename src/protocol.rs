//! The model of the two-wire protocol: the pin operations a driver makes,
//! what the pins answered, and which runs of a conversion read are correct.

use vstd::prelude::*;
use crate::sample::{pulses, sign_extend, Mode};
use nb::Error as WouldBlockOr;

verus! {

/// Clock held high this long (µs) puts the chip into power down.
pub const TIME_TO_SLEEP: u32 = 70;

/// Wait (µs) from the data line falling to the first clock pulse.
pub const TIME_BEFORE_READOUT: u32 = 1;

/// Clock high time (µs) of one pulse.
pub const TIME_SCK_HIGH: u32 = 1;

/// Clock low time (µs) of one pulse.
pub const TIME_SCK_LOW: u32 = 1;

/// The error half of `nb::Result`, with its two variants visible: `Other`
/// carries a failure, `WouldBlock` says that the operation has to be retried.
#[verifier::external_type_specification]
pub struct ExWouldBlockOr<E>(WouldBlockOr<E>);

/// A failure of one of the two lines, with what the line reported.
#[derive(Debug)]
pub enum Error<EIN, EOUT> {
    /// Reading the data line failed.
    Input(EIN),
    /// Driving the clock line failed.
    Output(EOUT),
}

/// One pin operation, without its outcome.
#[derive(Clone, Copy, Debug, PartialEq, Eq, Structural)]
pub enum Op {
    /// Drive the clock line high.
    High,
    /// Drive the clock line low.
    Low,
    /// Sample the data line.
    Sample,
    /// Wait for a number of microseconds.
    Wait(u32),
}

/// One pin operation together with what the pin answered.
pub enum Event<EIN, EOUT> {
    /// The clock line was driven high.
    High(Result<(), EOUT>),
    /// The clock line was driven low.
    Low(Result<(), EOUT>),
    /// The data line was sampled.
    Sample(Result<bool, EIN>),
    /// The driver waited.
    Wait(u32),
}

/// The operation that an event records.
pub open spec fn op_of<EIN, EOUT>(e: Event<EIN, EOUT>) -> Op {
    match e {
        Event::High(_) => Op::High,
        Event::Low(_) => Op::Low,
        Event::Sample(_) => Op::Sample,
        Event::Wait(us) => Op::Wait(us),
    }
}

/// The driver error that a failed event stands for, if it failed.
pub open spec fn failure<EIN, EOUT>(e: Event<EIN, EOUT>) -> Option<Error<EIN, EOUT>> {
    match e {
        Event::High(Err(x)) => Some(Error::Output(x)),
        Event::Low(Err(x)) => Some(Error::Output(x)),
        Event::Sample(Err(x)) => Some(Error::Input(x)),
        _ => None,
    }
}

/// Whether an event records a failed pin operation.
pub open spec fn failed<EIN, EOUT>(e: Event<EIN, EOUT>) -> bool {
    failure(e) is Some
}

/// Whether an event records a sample that found the data line high.
pub open spec fn sampled_high<EIN, EOUT>(e: Event<EIN, EOUT>) -> bool {
    e matches Event::Sample(Ok(true))
}

/// Number of operations of a complete conversion read before the trailing pulses.
pub open spec fn data_len() -> int {
    123int
}

/// Number of operations of a complete conversion read with `p` trailing pulses.
pub open spec fn read_len(p: nat) -> int {
    data_len() + 4 * (p as int)
}

/// The `i`-th operation of a complete conversion read with `p` trailing pulses.
///
/// The read drives the clock low, samples the data line, waits, then for each
/// of the 24 data bits pulses the clock (high, wait, low) and samples the data
/// line before waiting again; then it gives `p` pulses (high, wait, low, wait)
/// without sampling.
pub open spec fn read_op(p: nat, i: int) -> Op {
    if i == 0 {
        Op::Low
    } else if i == 1 {
        Op::Sample
    } else if i == 2 {
        Op::Wait(TIME_BEFORE_READOUT)
    } else if i < data_len() {
        let j = (i - 3) % 5;
        if j == 0 {
            Op::High
        } else if j == 1 {
            Op::Wait(TIME_SCK_HIGH)
        } else if j == 2 {
            Op::Low
        } else if j == 3 {
            Op::Sample
        } else {
            Op::Wait(TIME_SCK_LOW)
        }
    } else {
        let j = (i - data_len()) % 4;
        if j == 0 {
            Op::High
        } else if j == 1 {
            Op::Wait(TIME_SCK_HIGH)
        } else if j == 2 {
            Op::Low
        } else {
            Op::Wait(TIME_SCK_LOW)
        }
    }
}

/// The index in a read's trace of the sample of data bit `k` (0 is the most
/// significant).
pub open spec fn bit_index(k: int) -> int {
    6 + 5 * k
}

/// The number formed by the first `k` data bits that a read's trace sampled,
/// most significant first.
pub open spec fn bits_value<EIN, EOUT>(t: Seq<Event<EIN, EOUT>>, k: int) -> int
    decreases k,
{
    if k <= 0 {
        0
    } else {
        2 * bits_value(t, k - 1) + if sampled_high(t[bit_index(k - 1)]) {
            1int
        } else {
            0int
        }
    }
}

/// Whether the events of `t` follow the operations of a read with `p` trailing
/// pulses, every one but possibly the last succeeded, and the read did not go on
/// after finding the data line high.
pub open spec fn follows_read<EIN, EOUT>(p: nat, t: Seq<Event<EIN, EOUT>>) -> bool {
    &&& 1 <= t.len() <= read_len(p)
    &&& forall|i: int| 0 <= i < t.len() ==> op_of(#[trigger] t[i]) == read_op(p, i)
    &&& forall|i: int| 0 <= i < t.len() - 1 ==> !failed(#[trigger] t[i])
    &&& t.len() > 2 ==> !sampled_high(t[1])
}

/// What a read that returned `r` reported, without the value.
pub open spec fn status<T, E>(r: nb::Result<T, E>) -> nb::Result<(), E> {
    match r {
        Ok(_) => Ok(()),
        Err(e) => Err(e),
    }
}

/// Whether `t` is the trace of one conversion read in mode `m` that ended
/// with `s`.
///
/// The read stops at the first failed operation and reports it; it stops
/// after sampling the data line if the chip is not ready and reports that;
/// otherwise it makes every operation of the read and succeeds.
pub open spec fn read_ends<EIN, EOUT>(
    m: Mode,
    t: Seq<Event<EIN, EOUT>>,
    s: nb::Result<(), Error<EIN, EOUT>>,
) -> bool {
    &&& follows_read(pulses(m), t)
    &&& match s {
        Err(nb::Error::WouldBlock) => t.len() == 2 && sampled_high(t[1]),
        Err(nb::Error::Other(e)) => failure(t.last()) == Some(e),
        Ok(_) => t.len() == read_len(pulses(m)) && !failed(t.last()),
    }
}

/// Whether `t` is the trace of one conversion read in mode `m` and `r` is what
/// that read returns: on success, the signed value of the 24 sampled bits.
pub open spec fn read_run<EIN, EOUT>(
    m: Mode,
    t: Seq<Event<EIN, EOUT>>,
    r: nb::Result<i32, Error<EIN, EOUT>>,
) -> bool {
    &&& read_ends(m, t, status(r))
    &&& r matches Ok(v) ==> v == sign_extend(bits_value(t, 24))
}

/// Whether `t` is the trace of making the operations `ops` in order, ending
/// with `r`: it stops at the first failed operation and reports it, and
/// succeeds once every operation is made.
pub open spec fn ops_run<EIN, EOUT>(
    ops: Seq<Op>,
    t: Seq<Event<EIN, EOUT>>,
    r: Result<(), Error<EIN, EOUT>>,
) -> bool {
    &&& 1 <= t.len() <= ops.len()
    &&& forall|i: int| 0 <= i < t.len() ==> op_of(#[trigger] t[i]) == ops[i]
    &&& forall|i: int| 0 <= i < t.len() - 1 ==> !failed(#[trigger] t[i])
    &&& match r {
        Ok(_) => t.len() == ops.len() && !failed(t.last()),
        Err(e) => failure(t.last()) == Some(e),
    }
}

/// Power down: the clock line goes high and stays there past the sleep threshold.
pub open spec fn power_down_ops() -> Seq<Op> {
    seq![Op::High, Op::Wait(TIME_TO_SLEEP)]
}

/// Wake up: the clock line goes low and stays there for the clock low time.
pub open spec fn wake_up_ops() -> Seq<Op> {
    seq![Op::Low, Op::Wait(TIME_SCK_LOW)]
}

/// Start-up: the clock line goes low, then the chip is powered down and woken up.
pub open spec fn startup_ops() -> Seq<Op> {
    seq![Op::Low, Op::High, Op::Wait(TIME_TO_SLEEP), Op::Low, Op::Wait(TIME_SCK_LOW)]
}

/// Index in a read's trace of the rising edge of clock pulse `k`: the 24 data
/// pulses come first, then the trailing ones.
pub open spec fn pulse_start(k: int) -> int {
    if k < 24 {
        3 + 5 * k
    } else {
        data_len() + 4 * (k - 24)
    }
}

/// A read that finds the data line high stops there: it reports that no
/// conversion is ready, and made no operation but driving the clock low and
/// sampling the data line once.
pub proof fn lemma_not_ready_is_quiet<EIN, EOUT>(
    m: Mode,
    t: Seq<Event<EIN, EOUT>>,
    r: nb::Result<i32, Error<EIN, EOUT>>,
)
    requires
        read_run(m, t, r),
        t.len() >= 2,
        sampled_high(t[1]),
    ensures
        r matches Err(nb::Error::WouldBlock),
        t.len() == 2,
        op_of(t[0]) == Op::Low,
        op_of(t[1]) == Op::Sample,
{
    assert(op_of(t[0]) == read_op(pulses(m), 0));
    assert(op_of(t[1]) == read_op(pulses(m), 1));
}

/// A failed sample of the data line ends the read: it is the last operation,
/// and the read returns that failure as an input error.
pub proof fn lemma_input_failure_ends_read<EIN, EOUT>(
    m: Mode,
    t: Seq<Event<EIN, EOUT>>,
    r: nb::Result<i32, Error<EIN, EOUT>>,
    n: int,
    x: EIN,
)
    requires
        read_run(m, t, r),
        0 <= n < t.len(),
        t[n] == Event::<EIN, EOUT>::Sample(Err(x)),
    ensures
        n == t.len() - 1,
        r == Err::<i32, nb::Error<Error<EIN, EOUT>>>(nb::Error::Other(Error::Input(x))),
{
    if n < t.len() - 1 {
        assert(!failed(t[n]));
    }
}

/// A successful read in mode `m` gives exactly `24 + pulses(m)` clock pulses
/// (high, wait, low), and samples the data line only once before the first
/// pulse and once within each of the first 24 pulses.
pub proof fn lemma_read_shape<EIN, EOUT>(
    m: Mode,
    t: Seq<Event<EIN, EOUT>>,
    r: nb::Result<i32, Error<EIN, EOUT>>,
)
    requires
        read_run(m, t, r),
        r is Ok,
    ensures
        t.len() == read_len(pulses(m)),
        forall|k: int|
            0 <= k < 24 + pulses(m) ==> {
                &&& op_of(t[#[trigger] pulse_start(k)]) == Op::High
                &&& op_of(t[pulse_start(k) + 1]) == Op::Wait(TIME_SCK_HIGH)
                &&& op_of(t[pulse_start(k) + 2]) == Op::Low
            },
        forall|k: int| 0 <= k < 24 ==> op_of(t[#[trigger] pulse_start(k) + 3]) == Op::Sample,
        forall|i: int|
            0 <= i < t.len() && op_of(#[trigger] t[i]) == Op::High ==> exists|k: int|
                0 <= k < 24 + pulses(m) && i == #[trigger] pulse_start(k),
        forall|i: int|
            0 <= i < t.len() && op_of(#[trigger] t[i]) == Op::Sample ==> i == 1 || exists|k: int|
                0 <= k < 24 && i == #[trigger] pulse_start(k) + 3,
{
    let p = pulses(m);
    assert forall|k: int| 0 <= k < 24 + p implies {
        &&& op_of(t[#[trigger] pulse_start(k)]) == Op::High
        &&& op_of(t[pulse_start(k) + 1]) == Op::Wait(TIME_SCK_HIGH)
        &&& op_of(t[pulse_start(k) + 2]) == Op::Low
    } by {
        if k < 24 {
            assert((5 * k) % 5 == 0);
            assert((5 * k + 1) % 5 == 1);
            assert((5 * k + 2) % 5 == 2);
        } else {
            assert((4 * (k - 24)) % 4 == 0);
            assert((4 * (k - 24) + 1) % 4 == 1);
            assert((4 * (k - 24) + 2) % 4 == 2);
        }
        assert(op_of(t[pulse_start(k)]) == read_op(p, pulse_start(k)));
        assert(op_of(t[pulse_start(k) + 1]) == read_op(p, pulse_start(k) + 1));
        assert(op_of(t[pulse_start(k) + 2]) == read_op(p, pulse_start(k) + 2));
    }
    assert forall|k: int| 0 <= k < 24 implies op_of(t[#[trigger] pulse_start(k) + 3])
        == Op::Sample by {
        assert((5 * k + 3) % 5 == 3);
        assert(op_of(t[pulse_start(k) + 3]) == read_op(p, pulse_start(k) + 3));
    }
    assert forall|i: int| 0 <= i < t.len() && op_of(#[trigger] t[i]) == Op::High implies exists|
        k: int,
    | 0 <= k < 24 + p && i == #[trigger] pulse_start(k) by {
        assert(op_of(t[i]) == read_op(p, i));
        if i < data_len() {
            let k = (i - 3) / 5;
            assert(i == pulse_start(k));
        } else {
            let k = 24 + (i - data_len()) / 4;
            assert(i == pulse_start(k));
        }
    }
    assert forall|i: int| 0 <= i < t.len() && op_of(#[trigger] t[i]) == Op::Sample implies i == 1
        || exists|k: int| 0 <= k < 24 && i == #[trigger] pulse_start(k) + 3 by {
        assert(op_of(t[i]) == read_op(p, i));
        if i >= 3 && i < data_len() {
            let k = (i - 3) / 5;
            assert(i == pulse_start(k) + 3);
        }
    }
}

} // verus!
