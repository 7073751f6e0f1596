use pio_spi::divider::clock_divider_bits;
use pio_spi::dma::{job_steps, plan_read, plan_steps, plan_transfer, plan_transfer_in_place, plan_write, DmaJob, DmaStep};
use pio_spi::driver::{
    clock_inverted, program_for, program_index, Config, Direction, Phase, PioSpi, Polarity, SetupStep, SmCommand,
};
use pio_spi::exchange::{BusAction, BusEvent, Exchange};
use pio_spi::frame::{frame_word, shift_threshold, spi_shift_config, tx_shift, ShiftDirection};
use pio_spi::program::{program_phase0, program_phase1};

const CLK_SYS: u32 = 125_000_000;

/// A state machine with MISO wired to MOSI: the RX entry is the top
/// `8 * word_bytes` bits of the TX entry.
fn loopback(entry: u32, word_bytes: usize) -> u32 {
    let bits = 8 * word_bytes as u32;
    if bits == 32 {
        entry
    } else {
        entry >> (32 - bits)
    }
}

/// Drives an exchange to its end against the loopback device; returns the
/// TX entries pushed and the kept words.
fn run_loopback(exchange: &mut Exchange, word_bytes: usize) -> (Vec<u32>, Vec<u32>) {
    let mut pushed = Vec::new();
    let mut last = 0u32;
    let mut action = exchange.step(BusEvent::Start);
    loop {
        action = match action {
            BusAction::Push(entry) => {
                pushed.push(entry);
                last = entry;
                exchange.step(BusEvent::Pushed)
            }
            BusAction::Pull => exchange.step(BusEvent::Pulled(loopback(last, word_bytes))),
            BusAction::Finished => break,
        };
    }
    assert!(exchange.is_finished());
    (pushed, exchange.kept_words())
}

fn bus(word_bytes: usize) -> PioSpi {
    let config = Config::default();
    let (spi, _) = PioSpi::new(word_bytes, 10, 11, 12, CLK_SYS, &config);
    spi
}

#[test]
fn transfer_equal_buffers_loops_back() {
    let spi = bus(1);
    let tx = [1u32, 2, 3, 4, 5, 6];
    let mut ex = spi.transfer(6, &tx);
    let (_, rx) = run_loopback(&mut ex, 1);
    assert_eq!(rx, tx.to_vec());
}

#[test]
fn transfer_tx_longer_than_rx() {
    let spi = bus(1);
    let tx = [7u32, 8, 9, 10, 11, 12];
    let mut ex = spi.transfer(3, &tx);
    let (pushed, rx) = run_loopback(&mut ex, 1);
    assert_eq!(pushed.len(), 6);
    assert_eq!(rx, vec![7, 8, 9]);
}

#[test]
fn transfer_rx_longer_than_tx_reads_zeros() {
    let spi = bus(1);
    let tx = [19u32, 20, 21];
    let mut ex = spi.transfer(6, &tx);
    let (pushed, rx) = run_loopback(&mut ex, 1);
    assert_eq!(pushed, vec![19 << 24, 20 << 24, 21 << 24, 0, 0, 0]);
    assert_eq!(rx[..3], [19, 20, 21]);
    assert_eq!(rx[3..], [0, 0, 0]);
}

#[test]
fn transfer_of_empty_buffers_is_finished_at_once() {
    let spi = bus(1);
    let mut ex = spi.transfer(0, &[]);
    assert_eq!(ex.step(BusEvent::Start), BusAction::Finished);
    assert!(ex.kept_words().is_empty());
}

#[test]
fn transfer_in_place_loops_back_unchanged() {
    let spi = bus(2);
    let words = [0x1234u32, 0xffff, 0, 0x8001];
    let mut ex = spi.transfer_in_place(&words);
    let (pushed, rx) = run_loopback(&mut ex, 2);
    assert_eq!(pushed, vec![0x1234_0000, 0xffff_0000, 0, 0x8001_0000]);
    assert_eq!(rx, words.to_vec());
}

#[test]
fn read_sends_zeros_and_keeps_everything() {
    let spi = bus(1);
    let mut ex = spi.read(4);
    let (pushed, rx) = run_loopback(&mut ex, 1);
    assert_eq!(pushed, vec![0, 0, 0, 0]);
    assert_eq!(rx, vec![0, 0, 0, 0]);
}

#[test]
fn write_keeps_nothing() {
    let spi = bus(4);
    let mut ex = spi.write(&[0xdead_beef, 1]);
    let (pushed, rx) = run_loopback(&mut ex, 4);
    assert_eq!(pushed, vec![0xdead_beef, 1]);
    assert!(rx.is_empty());
}

#[test]
fn exchange_keeps_one_word_in_flight() {
    let mut ex = Exchange::transfer(2, &[0xab, 0xcd], 1);
    assert_eq!(ex.step(BusEvent::Start), BusAction::Push(0xab00_0000));
    // a pull reported before the push is ignored
    assert_eq!(ex.step(BusEvent::Pulled(5)), BusAction::Push(0xab00_0000));
    assert_eq!(ex.step(BusEvent::Pushed), BusAction::Pull);
    // a second push report does not push twice
    assert_eq!(ex.step(BusEvent::Pushed), BusAction::Pull);
    assert_eq!(ex.step(BusEvent::Pulled(0x11)), BusAction::Push(0xcd00_0000));
    assert_eq!(ex.step(BusEvent::Pushed), BusAction::Pull);
    assert_eq!(ex.step(BusEvent::Pulled(0x22)), BusAction::Finished);
    assert_eq!(ex.step(BusEvent::Pulled(0x33)), BusAction::Finished);
    assert_eq!(ex.kept_words(), vec![0x11, 0x22]);
}

#[test]
fn framing_left_justifies_words() {
    assert_eq!(tx_shift(1), 24);
    assert_eq!(tx_shift(2), 16);
    assert_eq!(tx_shift(3), 8);
    assert_eq!(tx_shift(4), 0);
    assert_eq!(frame_word(0xa5, 1), 0xa500_0000);
    assert_eq!(frame_word(0x1234, 2), 0x1234_0000);
    assert_eq!(frame_word(0x12_3456, 3), 0x1234_5600);
    assert_eq!(frame_word(0x1234_5678, 4), 0x1234_5678);
    // bits above the word are shifted out, as `<<` does
    assert_eq!(frame_word(0x1ff, 1), 0xff00_0000);
}

#[test]
fn shift_threshold_is_word_bits_cut_to_a_byte() {
    assert_eq!(shift_threshold(1), 8);
    assert_eq!(shift_threshold(2), 16);
    assert_eq!(shift_threshold(4), 32);
    assert_eq!(shift_threshold(8), 64);
    assert_eq!(shift_threshold(32), 0);
    let c = spi_shift_config(2);
    assert_eq!(c.threshold, 16);
    assert_eq!(c.direction, ShiftDirection::Left);
    assert!(c.auto_fill);
}

#[test]
fn clock_divider_for_test_frequencies() {
    // 125 MHz / (4 * f), as 24.8 fixed point
    assert_eq!(clock_divider_bits(CLK_SYS, 1_000_000), 31 << 8);
    assert_eq!(clock_divider_bits(CLK_SYS, 1_000), 31_250 << 8);
    assert_eq!(clock_divider_bits(CLK_SYS, 10_000), 3_125 << 8);
    assert_eq!(clock_divider_bits(CLK_SYS, 100_000), 312 << 8);
    assert_eq!(clock_divider_bits(CLK_SYS, 300_000), 104 << 8);
    // faster than a quarter of the system clock rounds down to zero
    assert_eq!(clock_divider_bits(CLK_SYS, 40_000_000), 0);
    // the largest quotient that fits the integer part
    assert_eq!(clock_divider_bits(0xffff_ffff, 64), 0xff_ffff << 8);
}

#[test]
fn default_config() {
    let c = Config::default();
    assert_eq!(c.frequency, 1_000_000);
    assert_eq!(c.phase, Phase::CaptureOnFirstTransition);
    assert_eq!(c.polarity, Polarity::IdleLow);
}

#[test]
fn phase_and_polarity_choices() {
    assert_eq!(program_index(Phase::CaptureOnFirstTransition), 0);
    assert_eq!(program_index(Phase::CaptureOnSecondTransition), 1);
    assert!(!clock_inverted(Polarity::IdleLow));
    assert!(clock_inverted(Polarity::IdleHigh));
}

#[test]
fn new_programs_the_state_machine() {
    let config = Config::default();
    let (spi, commands) = PioSpi::new(1, 10, 11, 12, CLK_SYS, &config);
    let sm = spi.config();
    assert_eq!(spi.word_bytes(), 1);
    assert_eq!(sm.out_pin, 11);
    assert_eq!(sm.in_pin, 12);
    assert_eq!(sm.side_set_pin, Some(10));
    assert_eq!(sm.program, Some(0));
    assert_eq!(sm.clock_divider_bits, 31 << 8);
    assert_eq!(sm.shift_out, spi_shift_config(1));
    assert_eq!(sm.shift_in, spi_shift_config(1));
    assert_eq!(
        commands,
        vec![
            SmCommand::SetClockInversion(false),
            SmCommand::SetEnable(false),
            SmCommand::ApplyConfig(sm),
            SmCommand::ClearFifos,
            SmCommand::Restart,
            SmCommand::SetEnable(true),
        ]
    );
}

#[test]
fn set_config_for_each_mode() {
    let mut spi = bus(1);
    let before = spi.config();
    let modes = [
        (Phase::CaptureOnFirstTransition, Polarity::IdleLow, 0, false),
        (Phase::CaptureOnSecondTransition, Polarity::IdleLow, 1, false),
        (Phase::CaptureOnFirstTransition, Polarity::IdleHigh, 0, true),
        (Phase::CaptureOnSecondTransition, Polarity::IdleHigh, 1, true),
    ];
    for (phase, polarity, program, inverted) in modes {
        let config = Config { frequency: 1_000_000, phase, polarity };
        let commands = spi.set_spi_config(CLK_SYS, &config);
        let sm = spi.config();
        assert_eq!(sm.program, Some(program));
        assert_eq!(commands[0], SmCommand::SetClockInversion(inverted));
        assert_eq!(commands[2], SmCommand::ApplyConfig(sm));
        assert_eq!(sm.out_pin, before.out_pin);
        assert_eq!(sm.shift_in, before.shift_in);
    }
}

#[test]
fn last_configuration_wins() {
    let slow = Config { frequency: 1_000, phase: Phase::CaptureOnSecondTransition, polarity: Polarity::IdleHigh };
    let fast = Config { frequency: 300_000, phase: Phase::CaptureOnFirstTransition, polarity: Polarity::IdleLow };
    let mut twice = bus(1);
    twice.set_spi_config(CLK_SYS, &slow);
    twice.set_spi_config(CLK_SYS, &fast);
    let (once, _) = PioSpi::new(1, 10, 11, 12, CLK_SYS, &fast);
    assert_eq!(twice.config(), once.config());
}

#[test]
fn programs_are_assembled() {
    let p0 = program_phase0();
    assert_eq!(p0.instructions, vec![0x6101, 0x5101]);
    assert_eq!(p0.side_set_bits, 1);
    assert!(!p0.side_set_optional);
    let p1 = program_phase1();
    assert_eq!(p1.instructions, vec![0x6021, 0xb101, 0x4001]);
    assert_eq!(p1.side_set_bits, 1);
}

#[test]
fn async_transfer_plans() {
    assert_eq!(
        plan_transfer(6, 6),
        vec![DmaJob::Exchange { read_start: 0, read_end: 6, write_start: 0, write_end: 6 }]
    );
    assert_eq!(
        plan_transfer(3, 6),
        vec![
            DmaJob::Exchange { read_start: 0, read_end: 3, write_start: 0, write_end: 3 },
            DmaJob::WriteOnly { write_start: 3, write_end: 6 },
        ]
    );
    assert_eq!(
        plan_transfer(6, 3),
        vec![
            DmaJob::Exchange { read_start: 0, read_end: 3, write_start: 0, write_end: 3 },
            DmaJob::ReadPadded { read_start: 3, read_end: 6, zeros: 3 },
        ]
    );
}

#[test]
fn async_single_job_plans() {
    assert_eq!(plan_read(5), vec![DmaJob::ReadPadded { read_start: 0, read_end: 5, zeros: 5 }]);
    assert_eq!(plan_write(5), vec![DmaJob::WriteOnly { write_start: 0, write_end: 5 }]);
    assert_eq!(
        plan_transfer_in_place(5),
        vec![DmaJob::Exchange { read_start: 0, read_end: 5, write_start: 0, write_end: 5 }]
    );
}

#[test]
fn setup_steps_prepare_pins_and_load_programs() {
    let steps = PioSpi::setup_steps(10, 11, 12);
    assert_eq!(
        steps,
        vec![
            SetupStep::HandToPio(10),
            SetupStep::HandToPio(11),
            SetupStep::HandToPio(12),
            SetupStep::PinDirection(10, Direction::Out),
            SetupStep::PinDirection(11, Direction::Out),
            SetupStep::PinDirection(12, Direction::In),
            SetupStep::SlowSlewRate(10),
            SetupStep::NoPull(10),
            SetupStep::SlowSlewRate(11),
            SetupStep::NoPull(11),
            SetupStep::SchmittTrigger(12, true),
            SetupStep::NoPull(12),
            SetupStep::InputSyncBypass(12, true),
            SetupStep::LoadProgram(Phase::CaptureOnFirstTransition),
            SetupStep::LoadProgram(Phase::CaptureOnSecondTransition),
        ]
    );
    // the k-th loaded program is the one whose phase selects index k
    assert_eq!(steps[13 + program_index(Phase::CaptureOnFirstTransition)], SetupStep::LoadProgram(Phase::CaptureOnFirstTransition));
    assert_eq!(steps[13 + program_index(Phase::CaptureOnSecondTransition)], SetupStep::LoadProgram(Phase::CaptureOnSecondTransition));
}

#[test]
fn program_for_each_phase() {
    assert_eq!(program_for(Phase::CaptureOnFirstTransition).instructions, program_phase0().instructions);
    assert_eq!(program_for(Phase::CaptureOnSecondTransition).instructions, program_phase1().instructions);
}

#[test]
fn zero_sized_words_with_nothing_to_shift() {
    let mut ex = Exchange::write(&[], 0);
    assert_eq!(ex.step(BusEvent::Start), BusAction::Finished);
    let mut ex = Exchange::transfer(2, &[], 0);
    let (pushed, rx) = run_loopback(&mut ex, 4);
    assert_eq!(pushed, vec![0, 0]);
    assert_eq!(rx, vec![0, 0]);
    let mut ex = Exchange::transfer_in_place(&[], 0);
    assert_eq!(ex.step(BusEvent::Start), BusAction::Finished);
}

/// Runs a DMA plan against a loopback bus of byte words: returns the words
/// sent and the read buffer.
fn run_plan_loopback(plan: &[DmaJob], read_len: usize, write: &[u32]) -> (Vec<u32>, Vec<u32>) {
    let mut sent = Vec::new();
    let mut read = vec![0u32; read_len];
    for job in plan {
        match *job {
            DmaJob::Exchange { read_start, read_end, write_start, write_end } => {
                for k in 0..(write_end - write_start) {
                    let word = write[write_start + k];
                    sent.push(word);
                    if read_start + k < read_end {
                        read[read_start + k] = word;
                    }
                }
            }
            DmaJob::ReadPadded { read_start, read_end, zeros } => {
                for k in 0..zeros {
                    sent.push(0);
                    if read_start + k < read_end {
                        read[read_start + k] = 0;
                    }
                }
            }
            DmaJob::WriteOnly { write_start, write_end } => {
                sent.extend_from_slice(&write[write_start..write_end]);
            }
        }
    }
    (sent, read)
}

#[test]
fn async_and_blocking_transfers_agree_on_loopback() {
    for (read_len, write) in [(6usize, vec![1u32, 2, 3, 4, 5, 6]), (3, vec![7, 8, 9, 10, 11, 12]), (6, vec![19, 20, 21]), (0, vec![]), (4, vec![])] {
        let (sent, stored) = run_plan_loopback(&plan_transfer(read_len, write.len()), read_len, &write);
        let mut ex = Exchange::transfer(read_len, &write, 1);
        let (pushed, kept) = run_loopback(&mut ex, 1);
        let framed: Vec<u32> = sent.iter().map(|w| frame_word(*w, 1)).collect();
        assert_eq!(framed, pushed);
        assert_eq!(stored, kept);
    }
    let (sent, stored) = run_plan_loopback(&plan_read(4), 4, &[]);
    assert_eq!(sent, vec![0, 0, 0, 0]);
    assert_eq!(stored, vec![0, 0, 0, 0]);
}

/// Counts RX entries and autopush through the steps of a plan; panics where
/// a DMA pull would wait for an entry that never comes.
fn rx_after_steps(steps: &[DmaStep]) -> (bool, usize) {
    let (mut autopush, mut rx) = (true, 0usize);
    for step in steps {
        match *step {
            DmaStep::SetAutopush(on) => autopush = on,
            DmaStep::PullWhilePushing { read_start, read_end, write_start, write_end } => {
                rx += if autopush { write_end - write_start } else { 0 };
                rx = rx.checked_sub(read_end - read_start).expect("pull never satisfied");
            }
            DmaStep::PullWhilePushingZeros { read_start, read_end, zeros } => {
                rx += if autopush { zeros } else { 0 };
                rx = rx.checked_sub(read_end - read_start).expect("pull never satisfied");
            }
            DmaStep::Push { write_start, write_end } => rx += if autopush { write_end - write_start } else { 0 },
            DmaStep::ClearStall | DmaStep::WaitStall | DmaStep::Restart => {}
        }
    }
    (autopush, rx)
}

#[test]
fn write_only_job_steps() {
    assert_eq!(
        job_steps(DmaJob::WriteOnly { write_start: 3, write_end: 6 }),
        vec![
            DmaStep::SetAutopush(false),
            DmaStep::Push { write_start: 3, write_end: 6 },
            DmaStep::ClearStall,
            DmaStep::WaitStall,
            DmaStep::Restart,
            DmaStep::SetAutopush(true),
        ]
    );
}

#[test]
fn uneven_async_transfers_leave_the_rx_fifo_clean() {
    // tx longer than rx, then equal buffers, as in the on-device test
    let steps = plan_steps(&plan_transfer(3, 6));
    assert_eq!(
        steps[0],
        DmaStep::PullWhilePushing { read_start: 0, read_end: 3, write_start: 0, write_end: 3 }
    );
    assert_eq!(rx_after_steps(&steps), (true, 0));
    for (r, w) in [(6, 6), (6, 3), (0, 4), (4, 0)] {
        assert_eq!(rx_after_steps(&plan_steps(&plan_transfer(r, w))), (true, 0));
    }
    assert_eq!(rx_after_steps(&plan_steps(&plan_read(5))), (true, 0));
    assert_eq!(rx_after_steps(&plan_steps(&plan_write(5))), (true, 0));
    assert_eq!(rx_after_steps(&plan_steps(&plan_transfer_in_place(5))), (true, 0));
}
