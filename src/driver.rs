//! The HX711 driver: power control, mode selection and conversion reads.

use vstd::prelude::*;
use vstd::arithmetic::power2::{
    lemma2_to64, lemma_pow2_strictly_increases, lemma_pow2_unfold, pow2,
};
use crate::lines::{DelayUs, InputLine, OutputLine};
use crate::protocol::{
    bit_index, bits_value, data_len, failed, follows_read, lemma_read_shape, op_of, ops_run,
    power_down_ops, pulse_start, read_ends, read_len, read_op, read_run, sampled_high,
    startup_ops, wake_up_ops, Error, Event, Op, TIME_BEFORE_READOUT, TIME_SCK_HIGH,
    TIME_SCK_LOW, TIME_TO_SLEEP,
};
use crate::sample::{i24_to_i32, pulses, Mode};

verus! {

/// HX711 driver over a delay source, the data line and the clock line.
pub struct Hx711<D, IN: InputLine, OUT: OutputLine> {
    delay: D,
    dout: IN,
    pd_sck: OUT,
    mode: Mode,
    log: Ghost<Seq<Event<IN::Error, OUT::Error>>>,
}

proof fn lemma_push<A>(h: Seq<A>, t: Seq<A>, e: A)
    ensures
        (h + t).push(e) == h + t.push(e),
{
    assert((h + t).push(e) =~= h + t.push(e));
}

proof fn lemma_split<A>(h: Seq<A>, t: Seq<A>)
    ensures
        (h + t).len() >= h.len(),
        (h + t).take(h.len() as int) == h,
        (h + t).skip(h.len() as int) == t,
{
    assert((h + t).take(h.len() as int) =~= h);
    assert((h + t).skip(h.len() as int) =~= t);
}

proof fn lemma_bit_ops(p: nat, k: int)
    requires
        0 <= k < 24,
    ensures
        read_op(p, 3 + 5 * k) == Op::High,
        read_op(p, 4 + 5 * k) == Op::Wait(TIME_SCK_HIGH),
        read_op(p, 5 + 5 * k) == Op::Low,
        read_op(p, 6 + 5 * k) == Op::Sample,
        read_op(p, 7 + 5 * k) == Op::Wait(TIME_SCK_LOW),
        bit_index(k) == 6 + 5 * k,
        8 + 5 * k <= data_len(),
{
    assert((5 * k) % 5 == 0);
    assert((5 * k + 1) % 5 == 1);
    assert((5 * k + 2) % 5 == 2);
    assert((5 * k + 3) % 5 == 3);
    assert((5 * k + 4) % 5 == 4);
}

proof fn lemma_pulse_ops(p: nat, k: int)
    requires
        0 <= k < p,
    ensures
        read_op(p, data_len() + 4 * k) == Op::High,
        read_op(p, data_len() + 4 * k + 1) == Op::Wait(TIME_SCK_HIGH),
        read_op(p, data_len() + 4 * k + 2) == Op::Low,
        read_op(p, data_len() + 4 * k + 3) == Op::Wait(TIME_SCK_LOW),
        data_len() + 4 * k + 4 <= read_len(p),
{
    assert((4 * k) % 4 == 0);
    assert((4 * k + 1) % 4 == 1);
    assert((4 * k + 2) % 4 == 2);
    assert((4 * k + 3) % 4 == 3);
}

proof fn lemma_bits_prefix<EIN, EOUT>(a: Seq<Event<EIN, EOUT>>, b: Seq<Event<EIN, EOUT>>, k: int)
    requires
        0 <= k,
        k > 0 ==> bit_index(k - 1) < a.len(),
        a.len() <= b.len(),
        forall|i: int| 0 <= i < a.len() ==> a[i] == b[i],
    ensures
        bits_value(a, k) == bits_value(b, k),
    decreases k,
{
    if k > 0 {
        lemma_bits_prefix(a, b, k - 1);
    }
}

impl<D: DelayUs, IN: InputLine, OUT: OutputLine> Hx711<D, IN, OUT> {
    /// Every pin operation made through this driver, in order, with its outcome.
    pub closed spec fn history(&self) -> Seq<Event<IN::Error, OUT::Error>> {
        self.log@
    }

    /// The mode that conversion reads select.
    pub closed spec fn current_mode(&self) -> Mode {
        self.mode
    }

    fn clock_high(&mut self) -> (r: Result<(), OUT::Error>)
        ensures
            final(self).history() == old(self).history().push(Event::High(r)),
            final(self).current_mode() == old(self).current_mode(),
    {
        let r = self.pd_sck.set_high();
        self.log = Ghost(self.log@.push(Event::High(r)));
        r
    }

    fn clock_low(&mut self) -> (r: Result<(), OUT::Error>)
        ensures
            final(self).history() == old(self).history().push(Event::Low(r)),
            final(self).current_mode() == old(self).current_mode(),
    {
        let r = self.pd_sck.set_low();
        self.log = Ghost(self.log@.push(Event::Low(r)));
        r
    }

    fn sample(&mut self) -> (r: Result<bool, IN::Error>)
        ensures
            final(self).history() == old(self).history().push(Event::Sample(r)),
            final(self).current_mode() == old(self).current_mode(),
    {
        let r = self.dout.is_high();
        self.log = Ghost(self.log@.push(Event::Sample(r)));
        r
    }

    fn wait(&mut self, us: u32)
        ensures
            final(self).history() == old(self).history().push(Event::Wait(us)),
            final(self).current_mode() == old(self).current_mode(),
    {
        self.delay.delay_us(us);
        self.log = Ghost(self.log@.push(Event::Wait(us)));
    }

    /// Retrieves the latest conversion value if one is available.
    ///
    /// Drives the clock low and samples the data line; if the line is high the
    /// chip is not ready and `WouldBlock` is returned. Otherwise reads the 24
    /// data bits, most significant first, then gives the trailing pulses of the
    /// current mode, and returns the bits as a signed value. A failed pin
    /// operation ends the read at once and is returned.
    pub fn retrieve(&mut self) -> (r: nb::Result<i32, Error<IN::Error, OUT::Error>>)
        ensures
            final(self).current_mode() == old(self).current_mode(),
            final(self).history().len() >= old(self).history().len(),
            final(self).history().take(old(self).history().len() as int) == old(self).history(),
            read_run(
                old(self).current_mode(),
                final(self).history().skip(old(self).history().len() as int),
                r,
            ),
    {
        let ghost h0 = self.log@;
        let ghost p = pulses(self.mode);
        let ghost mut t: Seq<Event<IN::Error, OUT::Error>> = Seq::empty();
        assert(self.log@ == h0 + t) by {
            assert(h0 + t =~= h0);
        }

        let r0 = self.clock_low();
        proof {
            lemma_push(h0, t, Event::Low(r0));
            t = t.push(Event::Low(r0));
            lemma_split(h0, t);
        }
        if let Err(e) = r0 {
            return Err(nb::Error::Other(Error::Output(e)));
        }
        let r1 = self.sample();
        proof {
            lemma_push(h0, t, Event::Sample(r1));
            t = t.push(Event::Sample(r1));
            lemma_split(h0, t);
        }
        match r1 {
            Err(e) => {
                return Err(nb::Error::Other(Error::Input(e)));
            },
            Ok(true) => {
                return Err(nb::Error::WouldBlock);
            },
            Ok(false) => {},
        }
        self.wait(TIME_BEFORE_READOUT);
        proof {
            lemma_push(h0, t, Event::Wait(TIME_BEFORE_READOUT));
            t = t.push(Event::Wait(TIME_BEFORE_READOUT));
        }

        let mut count: i32 = 0;
        let mut i: usize = 0;
        proof {
            lemma2_to64();
        }
        while i < 24
            invariant
                0 <= i <= 24,
                h0 == old(self).log@,
                self.log@ == h0 + t,
                self.mode == old(self).mode,
                p == pulses(self.mode),
                t.len() == 3 + 5 * i,
                follows_read(p, t),
                forall|j: int| 0 <= j < t.len() ==> !failed(#[trigger] t[j]),
                !sampled_high(t[1]),
                0 <= count < pow2(i as nat),
                pow2(i as nat) <= 0x1000000,
                count == bits_value(t, i as int),
            decreases 24 - i,
        {
            proof {
                lemma_bit_ops(p, i as int);
                lemma_pow2_unfold((i + 1) as nat);
                lemma2_to64();
                if i + 1 < 24 {
                    lemma_pow2_strictly_increases((i + 1) as nat, 24);
                }
            }
            let ghost t_start = t;
            count = 2 * count;
            let rh = self.clock_high();
            proof {
                lemma_push(h0, t, Event::High(rh));
                t = t.push(Event::High(rh));
                lemma_split(h0, t);
            }
            if let Err(e) = rh {
                return Err(nb::Error::Other(Error::Output(e)));
            }
            self.wait(TIME_SCK_HIGH);
            proof {
                lemma_push(h0, t, Event::Wait(TIME_SCK_HIGH));
                t = t.push(Event::Wait(TIME_SCK_HIGH));
            }
            let rl = self.clock_low();
            proof {
                lemma_push(h0, t, Event::Low(rl));
                t = t.push(Event::Low(rl));
                lemma_split(h0, t);
            }
            if let Err(e) = rl {
                return Err(nb::Error::Other(Error::Output(e)));
            }
            let rs = self.sample();
            proof {
                lemma_push(h0, t, Event::Sample(rs));
                t = t.push(Event::Sample(rs));
                lemma_split(h0, t);
            }
            match rs {
                Err(e) => {
                    return Err(nb::Error::Other(Error::Input(e)));
                },
                Ok(high) => {
                    if high {
                        count = count + 1;
                    }
                },
            }
            self.wait(TIME_SCK_LOW);
            proof {
                lemma_push(h0, t, Event::Wait(TIME_SCK_LOW));
                t = t.push(Event::Wait(TIME_SCK_LOW));
                lemma_bits_prefix(t_start, t, i as int);
            }
            i = i + 1;
        }

        let n = self.mode.pulse_count();
        let mut k: u16 = 0;
        while k < n
            invariant
                0 <= k <= n,
                n == p,
                h0 == old(self).log@,
                self.log@ == h0 + t,
                self.mode == old(self).mode,
                p == pulses(self.mode),
                t.len() == data_len() + 4 * k,
                follows_read(p, t),
                forall|j: int| 0 <= j < t.len() ==> !failed(#[trigger] t[j]),
                !sampled_high(t[1]),
                0 <= count <= 0xFFFFFF,
                count == bits_value(t, 24),
            decreases n - k,
        {
            proof {
                lemma_pulse_ops(p, k as int);
            }
            let ghost t_start = t;
            let rh = self.clock_high();
            proof {
                lemma_push(h0, t, Event::High(rh));
                t = t.push(Event::High(rh));
                lemma_split(h0, t);
            }
            if let Err(e) = rh {
                return Err(nb::Error::Other(Error::Output(e)));
            }
            self.wait(TIME_SCK_HIGH);
            proof {
                lemma_push(h0, t, Event::Wait(TIME_SCK_HIGH));
                t = t.push(Event::Wait(TIME_SCK_HIGH));
            }
            let rl = self.clock_low();
            proof {
                lemma_push(h0, t, Event::Low(rl));
                t = t.push(Event::Low(rl));
                lemma_split(h0, t);
            }
            if let Err(e) = rl {
                return Err(nb::Error::Other(Error::Output(e)));
            }
            self.wait(TIME_SCK_LOW);
            proof {
                lemma_push(h0, t, Event::Wait(TIME_SCK_LOW));
                t = t.push(Event::Wait(TIME_SCK_LOW));
                lemma_bits_prefix(t_start, t, 24);
            }
            k = k + 1;
        }
        proof {
            lemma_split(h0, t);
        }
        Ok(i24_to_i32(count))
    }

    /// Creates a driver over a delay source, the data line and the clock line.
    ///
    /// Drives the clock line low, selects the default mode, then resets the
    /// chip: power down followed by wake up. The chip then starts its first
    /// conversion in its default mode. Only clock line operations are made, so
    /// any failure is an output error.
    pub fn new(delay: D, dout: IN, pd_sck: OUT) -> (r: Result<Self, Error<IN::Error, OUT::Error>>)
        ensures
            match r {
                Ok(h) => {
                    &&& h.current_mode() == Mode::ChAGain128
                    &&& ops_run(startup_ops(), h.history(), Ok(()))
                },
                Err(e) => e is Output,
            },
    {
        let mut hx711 = Hx711 {
            delay,
            dout,
            pd_sck,
            mode: Mode::ChAGain128,
            log: Ghost(Seq::empty()),
        };
        if let Err(e) = hx711.clock_low() {
            return Err(Error::Output(e));
        }
        let ghost h1 = hx711.log@;
        match hx711.reset() {
            Ok(()) => {
                proof {
                    let t = hx711.log@.skip(1);
                    assert(hx711.log@ =~= h1 + t);
                    assert(startup_ops() =~= seq![Op::Low] + (power_down_ops() + wake_up_ops()));
                    assert forall|i: int| 0 <= i < 5 implies op_of(#[trigger] hx711.log@[i])
                        == startup_ops()[i] && !failed(hx711.log@[i]) by {
                        if i > 0 {
                            assert(hx711.log@[i] == t[i - 1]);
                        }
                    }
                }
                Ok(hx711)
            },
            Err(e) => {
                Err(e)
            },
        }
    }

    /// The current mode (channel and gain).
    pub fn get_mode(&self) -> (r: Mode)
        ensures
            r == self.current_mode(),
    {
        self.mode
    }

    /// Sets the mode (channel and gain) and makes one conversion read, whose
    /// value is dropped; its trailing pulses pass the new mode to the chip.
    ///
    /// Returns `WouldBlock` while no conversion is ready; calling again until
    /// it succeeds completes the mode change.
    pub fn set_mode(&mut self, mode: Mode) -> (r: nb::Result<(), Error<IN::Error, OUT::Error>>)
        ensures
            final(self).current_mode() == mode,
            final(self).history().len() >= old(self).history().len(),
            final(self).history().take(old(self).history().len() as int) == old(self).history(),
            read_ends(mode, final(self).history().skip(old(self).history().len() as int), r),
    {
        self.mode = mode;
        match self.retrieve() {
            Ok(_) => Ok(()),
            Err(e) => Err(e),
        }
    }

    /// Puts the chip in power down: drives the clock line high and holds it
    /// there past the sleep threshold.
    pub fn disable(&mut self) -> (r: Result<(), Error<IN::Error, OUT::Error>>)
        ensures
            final(self).current_mode() == old(self).current_mode(),
            final(self).history().len() >= old(self).history().len(),
            final(self).history().take(old(self).history().len() as int) == old(self).history(),
            ops_run(power_down_ops(), final(self).history().skip(old(self).history().len() as int), r),
    {
        let ghost h0 = self.log@;
        let rh = self.clock_high();
        proof {
            lemma_split(h0, seq![Event::High(rh)]);
            assert(h0.push(Event::High(rh)) =~= h0 + seq![Event::High(rh)]);
        }
        if let Err(e) = rh {
            return Err(Error::Output(e));
        }
        self.wait(TIME_TO_SLEEP);
        proof {
            let t = seq![Event::High(rh), Event::Wait(TIME_TO_SLEEP)];
            lemma_split(h0, t);
            assert(self.log@ =~= h0 + t);
        }
        Ok(())
    }

    /// Wakes the chip up: drives the clock line low and holds it there for the
    /// clock low time. The chip resets and starts converting; the next
    /// completed conversion read passes the current mode to it.
    pub fn enable(&mut self) -> (r: Result<(), Error<IN::Error, OUT::Error>>)
        ensures
            final(self).current_mode() == old(self).current_mode(),
            final(self).history().len() >= old(self).history().len(),
            final(self).history().take(old(self).history().len() as int) == old(self).history(),
            ops_run(wake_up_ops(), final(self).history().skip(old(self).history().len() as int), r),
    {
        let ghost h0 = self.log@;
        let rl = self.clock_low();
        proof {
            lemma_split(h0, seq![Event::Low(rl)]);
            assert(h0.push(Event::Low(rl)) =~= h0 + seq![Event::Low(rl)]);
        }
        if let Err(e) = rl {
            return Err(Error::Output(e));
        }
        self.wait(TIME_SCK_LOW);
        proof {
            let t = seq![Event::Low(rl), Event::Wait(TIME_SCK_LOW)];
            lemma_split(h0, t);
            assert(self.log@ =~= h0 + t);
        }
        Ok(())
    }

    /// Resets the chip: power down, then wake up.
    pub fn reset(&mut self) -> (r: Result<(), Error<IN::Error, OUT::Error>>)
        ensures
            final(self).current_mode() == old(self).current_mode(),
            final(self).history().len() >= old(self).history().len(),
            final(self).history().take(old(self).history().len() as int) == old(self).history(),
            ops_run(
                power_down_ops() + wake_up_ops(),
                final(self).history().skip(old(self).history().len() as int),
                r,
            ),
    {
        let ghost h0 = self.log@;
        let rd = self.disable();
        let ghost h1 = self.log@;
        proof {
            assert(h1 =~= h0 + h1.skip(h0.len() as int));
        }
        if let Err(e) = rd {
            return Err(e);
        }
        let rw = self.enable();
        proof {
            let t1 = h1.skip(h0.len() as int);
            let t2 = self.log@.skip(h1.len() as int);
            assert(self.log@ =~= h1 + t2);
            lemma_split(h0, t1 + t2);
            assert(self.log@ =~= h0 + (t1 + t2));
            assert(power_down_ops() + wake_up_ops() =~= seq![
                Op::High,
                Op::Wait(TIME_TO_SLEEP),
                Op::Low,
                Op::Wait(TIME_SCK_LOW),
            ]);
        }
        rw
    }
}


/// After `set_mode(m)` has succeeded the driver's mode is `m`, and the next
/// successful read gives exactly `pulses(m)` clock pulses after the 24 data
/// pulses, each high, wait, low, wait, and drives the clock high nowhere else
/// in that part.
pub proof fn lemma_mode_change_takes_effect<D: DelayUs, IN: InputLine, OUT: OutputLine>(
    hx: &Hx711<D, IN, OUT>,
    m: Mode,
    t: Seq<Event<IN::Error, OUT::Error>>,
    r: nb::Result<i32, Error<IN::Error, OUT::Error>>,
)
    requires
        hx.current_mode() == m,
        read_run(hx.current_mode(), t, r),
        r is Ok,
    ensures
        t.len() == data_len() + 4 * pulses(m),
        forall|k: int|
            0 <= k < pulses(m) ==> {
                &&& op_of(t[#[trigger] pulse_start(24 + k)]) == Op::High
                &&& op_of(t[data_len() + 4 * k + 1]) == Op::Wait(TIME_SCK_HIGH)
                &&& op_of(t[data_len() + 4 * k + 2]) == Op::Low
                &&& op_of(t[data_len() + 4 * k + 3]) == Op::Wait(TIME_SCK_LOW)
            },
        forall|i: int|
            data_len() <= i < t.len() && op_of(#[trigger] t[i]) == Op::High ==> exists|k: int|
                0 <= k < pulses(m) && i == #[trigger] pulse_start(24 + k),
{
    lemma_read_shape(m, t, r);
    assert forall|k: int| 0 <= k < pulses(m) implies {
        &&& op_of(t[#[trigger] pulse_start(24 + k)]) == Op::High
        &&& op_of(t[data_len() + 4 * k + 1]) == Op::Wait(TIME_SCK_HIGH)
        &&& op_of(t[data_len() + 4 * k + 2]) == Op::Low
        &&& op_of(t[data_len() + 4 * k + 3]) == Op::Wait(TIME_SCK_LOW)
    } by {
        lemma_pulse_ops(pulses(m), k);
        assert(pulse_start(24 + k) == data_len() + 4 * k);
        assert(op_of(t[data_len() + 4 * k]) == read_op(pulses(m), data_len() + 4 * k));
        assert(op_of(t[data_len() + 4 * k + 1]) == read_op(pulses(m), data_len() + 4 * k + 1));
        assert(op_of(t[data_len() + 4 * k + 2]) == read_op(pulses(m), data_len() + 4 * k + 2));
        assert(op_of(t[data_len() + 4 * k + 3]) == read_op(pulses(m), data_len() + 4 * k + 3));
    }
    assert forall|i: int| data_len() <= i < t.len() && op_of(#[trigger] t[i]) == Op::High implies exists|
        k: int,
    | 0 <= k < pulses(m) && i == #[trigger] pulse_start(24 + k) by {
        let j = choose|j: int| 0 <= j < 24 + pulses(m) && i == #[trigger] pulse_start(j);
        assert(i == pulse_start(24 + (j - 24)));
    }
}

/// A power cycle (power down, then wake up) makes the operations that a new
/// driver makes after its first clock low, and keeps the mode; a read's
/// correct runs depend on the mode alone, so the next read of a power-cycled
/// driver runs as on a new driver in the same mode.
pub proof fn lemma_power_cycle_like_new<D: DelayUs, IN: InputLine, OUT: OutputLine>(
    cycled: &Hx711<D, IN, OUT>,
    fresh: &Hx711<D, IN, OUT>,
    t: Seq<Event<IN::Error, OUT::Error>>,
    r: nb::Result<i32, Error<IN::Error, OUT::Error>>,
)
    requires
        cycled.current_mode() == fresh.current_mode(),
    ensures
        startup_ops() == seq![Op::Low] + (power_down_ops() + wake_up_ops()),
        read_run(cycled.current_mode(), t, r) == read_run(fresh.current_mode(), t, r),
{
    assert(startup_ops() =~= seq![Op::Low] + (power_down_ops() + wake_up_ops()));
}

} // verus!
