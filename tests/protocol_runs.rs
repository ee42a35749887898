use std::cell::RefCell;
use std::collections::VecDeque;
use std::rc::Rc;

use hx711::{DelayUs, Error, Hx711, InputLine, Mode, OutputLine};

#[derive(Clone, Copy, Debug, PartialEq)]
enum Rec {
    High,
    Low,
    Sample,
    Wait(u32),
}

#[derive(Default)]
struct Bus {
    log: Vec<Rec>,
    data: VecDeque<Result<bool, u8>>,
    clock_ops: usize,
    clock_fail_at: Option<usize>,
}

type Shared = Rc<RefCell<Bus>>;

struct Data(Shared);
struct Clock(Shared);
struct Timer(Shared);

impl InputLine for Data {
    type Error = u8;
    fn is_high(&mut self) -> Result<bool, u8> {
        let mut b = self.0.borrow_mut();
        b.log.push(Rec::Sample);
        b.data.pop_front().unwrap_or(Ok(true))
    }
}

impl Clock {
    fn drive(&mut self, r: Rec) -> Result<(), u16> {
        let mut b = self.0.borrow_mut();
        b.log.push(r);
        let n = b.clock_ops;
        b.clock_ops += 1;
        if b.clock_fail_at == Some(n) {
            Err(500 + n as u16)
        } else {
            Ok(())
        }
    }
}

impl OutputLine for Clock {
    type Error = u16;
    fn set_high(&mut self) -> Result<(), u16> {
        self.drive(Rec::High)
    }
    fn set_low(&mut self) -> Result<(), u16> {
        self.drive(Rec::Low)
    }
}

impl DelayUs for Timer {
    fn delay_us(&mut self, us: u32) {
        self.0.borrow_mut().log.push(Rec::Wait(us));
    }
}

fn driver() -> (Hx711<Timer, Data, Clock>, Shared) {
    let bus: Shared = Rc::new(RefCell::new(Bus::default()));
    let hx = match Hx711::new(Timer(bus.clone()), Data(bus.clone()), Clock(bus.clone())) {
        Ok(hx) => hx,
        Err(_) => panic!("construction failed"),
    };
    bus.borrow_mut().log.clear();
    (hx, bus)
}

fn queue_conversion(bus: &Shared, pattern: u32) {
    let mut b = bus.borrow_mut();
    b.data.push_back(Ok(false));
    for k in (0..24).rev() {
        b.data.push_back(Ok((pattern >> k) & 1 == 1));
    }
}

fn expected_read(pulses: usize) -> Vec<Rec> {
    let mut v = vec![Rec::Low, Rec::Sample, Rec::Wait(1)];
    for _ in 0..24 {
        v.extend([Rec::High, Rec::Wait(1), Rec::Low, Rec::Sample, Rec::Wait(1)]);
    }
    for _ in 0..pulses {
        v.extend([Rec::High, Rec::Wait(1), Rec::Low, Rec::Wait(1)]);
    }
    v
}

fn count(log: &[Rec], r: Rec) -> usize {
    log.iter().filter(|x| **x == r).count()
}

#[test]
fn new_resets_the_chip() {
    let bus: Shared = Rc::new(RefCell::new(Bus::default()));
    let hx = Hx711::new(Timer(bus.clone()), Data(bus.clone()), Clock(bus.clone()));
    assert!(hx.is_ok());
    let hx = hx.ok().unwrap();
    assert_eq!(hx.get_mode(), Mode::ChAGain128);
    assert_eq!(
        bus.borrow().log,
        vec![Rec::Low, Rec::High, Rec::Wait(70), Rec::Low, Rec::Wait(1)]
    );
}

#[test]
fn new_reports_clock_failure() {
    let bus: Shared = Rc::new(RefCell::new(Bus::default()));
    bus.borrow_mut().clock_fail_at = Some(1);
    let hx = Hx711::new(Timer(bus.clone()), Data(bus.clone()), Clock(bus.clone()));
    assert!(matches!(hx, Err(Error::Output(501))));
    assert_eq!(bus.borrow().log, vec![Rec::Low, Rec::High]);
}

#[test]
fn not_ready_poll_is_quiet() {
    let (mut hx, bus) = driver();
    for _ in 0..3 {
        bus.borrow_mut().data.push_back(Ok(true));
        assert!(matches!(hx.retrieve(), Err(nb::Error::WouldBlock)));
    }
    assert_eq!(
        bus.borrow().log,
        vec![Rec::Low, Rec::Sample, Rec::Low, Rec::Sample, Rec::Low, Rec::Sample]
    );
}

#[test]
fn retrieve_reads_negative_value() {
    let (mut hx, bus) = driver();
    queue_conversion(&bus, 0xFFFFF3);
    assert_eq!(hx.retrieve().ok(), Some(-13));
    let log = bus.borrow().log.clone();
    assert_eq!(log, expected_read(1));
    assert_eq!(count(&log, Rec::High), 25);
    assert_eq!(count(&log, Rec::Sample), 25);
}

#[test]
fn retrieve_reads_extremes() {
    let (mut hx, bus) = driver();
    queue_conversion(&bus, 0x7FFFFF);
    queue_conversion(&bus, 0x800000);
    queue_conversion(&bus, 0x000002);
    assert_eq!(hx.retrieve().ok(), Some(8388607));
    assert_eq!(hx.retrieve().ok(), Some(-8388608));
    assert_eq!(hx.retrieve().ok(), Some(2));
}

#[test]
fn set_mode_selects_trailing_pulses() {
    let (mut hx, bus) = driver();
    bus.borrow_mut().data.push_back(Ok(true));
    assert!(matches!(hx.set_mode(Mode::ChAGain64), Err(nb::Error::WouldBlock)));
    queue_conversion(&bus, 0x123456);
    assert!(hx.set_mode(Mode::ChAGain64).is_ok());
    assert_eq!(hx.get_mode(), Mode::ChAGain64);
    bus.borrow_mut().log.clear();
    queue_conversion(&bus, 0x000010);
    assert_eq!(hx.retrieve().ok(), Some(16));
    let log = bus.borrow().log.clone();
    assert_eq!(log, expected_read(3));
    assert_eq!(count(&log, Rec::High), 27);

    queue_conversion(&bus, 0);
    assert!(hx.set_mode(Mode::ChBGain32).is_ok());
    bus.borrow_mut().log.clear();
    queue_conversion(&bus, 0);
    assert_eq!(hx.retrieve().ok(), Some(0));
    assert_eq!(bus.borrow().log, expected_read(2));
}

#[test]
fn power_cycle_then_read_like_new() {
    let (mut hx, bus) = driver();
    assert!(hx.disable().is_ok());
    assert!(hx.enable().is_ok());
    assert_eq!(
        bus.borrow().log,
        vec![Rec::High, Rec::Wait(70), Rec::Low, Rec::Wait(1)]
    );
    bus.borrow_mut().log.clear();
    queue_conversion(&bus, 0xF00000);
    assert_eq!(hx.retrieve().ok(), Some(-1048576));
    assert_eq!(bus.borrow().log, expected_read(1));

    let (mut fresh, fresh_bus) = driver();
    queue_conversion(&fresh_bus, 0xF00000);
    assert_eq!(fresh.retrieve().ok(), Some(-1048576));
    assert_eq!(fresh_bus.borrow().log, bus.borrow().log);
}

#[test]
fn reset_powers_down_then_wakes() {
    let (mut hx, bus) = driver();
    assert!(hx.reset().is_ok());
    assert_eq!(
        bus.borrow().log,
        vec![Rec::High, Rec::Wait(70), Rec::Low, Rec::Wait(1)]
    );
}

#[test]
fn disable_reports_clock_failure() {
    let (mut hx, bus) = driver();
    let n = bus.borrow().clock_ops;
    bus.borrow_mut().clock_fail_at = Some(n);
    assert!(matches!(hx.disable(), Err(Error::Output(_))));
    assert_eq!(bus.borrow().log, vec![Rec::High]);
}

#[test]
fn input_failure_stops_the_read() {
    let (mut hx, bus) = driver();
    {
        let mut b = bus.borrow_mut();
        b.data.push_back(Ok(false));
        for _ in 0..4 {
            b.data.push_back(Ok(true));
        }
        b.data.push_back(Err(42));
    }
    assert!(matches!(hx.retrieve(), Err(nb::Error::Other(Error::Input(42)))));
    let log = bus.borrow().log.clone();
    assert_eq!(log.len(), 3 + 5 * 4 + 4);
    assert_eq!(log.last(), Some(&Rec::Sample));
    assert_eq!(count(&log, Rec::Sample), 6);
}

#[test]
fn readiness_sample_failure_is_input_error() {
    let (mut hx, bus) = driver();
    bus.borrow_mut().data.push_back(Err(7));
    assert!(matches!(hx.retrieve(), Err(nb::Error::Other(Error::Input(7)))));
    assert_eq!(bus.borrow().log, vec![Rec::Low, Rec::Sample]);
}

#[test]
fn clock_failure_during_pulses_is_output_error() {
    let (mut hx, bus) = driver();
    let n = bus.borrow().clock_ops;
    bus.borrow_mut().clock_fail_at = Some(n + 1 + 2 * 24);
    queue_conversion(&bus, 5);
    assert!(matches!(hx.retrieve(), Err(nb::Error::Other(Error::Output(_)))));
    let log = bus.borrow().log.clone();
    assert_eq!(log.len(), 3 + 5 * 24 + 1);
    assert_eq!(log.last(), Some(&Rec::High));
}
