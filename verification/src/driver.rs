use vstd::prelude::*;
use crate::divider::{clock_divider_bits, divider_computable, spec_divider_bits};
use crate::exchange::{Exchange, ExchangeView};
use crate::frame::{frames_words, spec_spi_shift_config, spi_shift_config, ShiftConfig};
use crate::program::{
    program_phase0, program_phase1, spec_program_phase0, spec_program_phase1, PioProgram, PinState, execute_all,
    run_loops, lemma_phase0_moves_one_bit, lemma_phase1_moves_one_bit,
};
use crate::frame::{
    loopback_registers, loopback_rx, out_bit, shift_in, shift_out, spec_frame, threshold_bits, framable_word_bytes,
    lemma_loopback_returns_word, ShiftDirection,
};
use vstd::arithmetic::power2::pow2;

verus! {

/// Clock phase of an SPI bus.
#[derive(Clone, Copy, Debug, PartialEq, Eq, Structural)]
pub enum Phase {
    /// Data is captured on the first clock transition.
    CaptureOnFirstTransition,
    /// Data is captured on the second clock transition.
    CaptureOnSecondTransition,
}

/// Clock polarity of an SPI bus.
#[derive(Clone, Copy, Debug, PartialEq, Eq, Structural)]
pub enum Polarity {
    /// The clock idles low.
    IdleLow,
    /// The clock idles high.
    IdleHigh,
}

/// SPI bus settings.
#[derive(Clone, Copy, Debug, PartialEq, Eq, Structural)]
pub struct Config {
    /// Bus clock in Hz.
    pub frequency: u32,
    pub phase: Phase,
    pub polarity: Polarity,
}

impl Default for Config {
    /// 1 MHz, data captured on the first transition, clock idle low.
    fn default() -> (config: Self)
        ensures
            config == (Config {
                frequency: 1_000_000,
                phase: Phase::CaptureOnFirstTransition,
                polarity: Polarity::IdleLow,
            }),
    {
        Config { frequency: 1_000_000, phase: Phase::CaptureOnFirstTransition, polarity: Polarity::IdleLow }
    }
}

/// Errors of the SPI bus. The bus never fails, so the type has no values:
/// its one variant holds an `Infallible`, which has none.
#[derive(Debug, Clone, Copy, PartialEq, Eq)]
pub enum PioSpiError {
    Never(core::convert::Infallible),
}

impl PioSpiError {
    /// The value held, of which there is none: matching on it with no arms
    /// ends any code that is handed an error.
    pub fn never(&self) -> (never: core::convert::Infallible)
        ensures
            *self == PioSpiError::Never(never),
    {
        match self {
            PioSpiError::Never(never) => *never,
        }
    }
}

/// The state machine settings that the driver programs, as plain values.
#[derive(Clone, Copy, Debug, PartialEq, Eq)]
pub struct SmConfig {
    /// Pin driven by `out pins` (MOSI).
    pub out_pin: u8,
    /// Pin read by `in pins` (MISO).
    pub in_pin: u8,
    /// Output shift register settings.
    pub shift_out: ShiftConfig,
    /// Input shift register settings.
    pub shift_in: ShiftConfig,
    /// Index of the loaded program the state machine runs (0 for clock phase 0, 1 for phase 1).
    pub program: Option<usize>,
    /// Pin driven by side-set (the clock).
    pub side_set_pin: Option<u8>,
    /// Raw bits of the 24.8 fixed-point clock divider.
    pub clock_divider_bits: u32,
}

/// A step that the caller performs on the state machine and its pins, in order.
#[derive(Clone, Copy, Debug, PartialEq, Eq)]
pub enum SmCommand {
    /// Invert (or not) the output of the clock pin.
    SetClockInversion(bool),
    /// Enable or disable the state machine.
    SetEnable(bool),
    /// Write these settings to the state machine.
    ApplyConfig(SmConfig),
    /// Drop everything in both FIFOs.
    ClearFifos,
    /// Restart the state machine (clears its shift counters and registers).
    Restart,
}

/// Direction of a pin as seen from the state machine.
#[derive(Clone, Copy, Debug, PartialEq, Eq, Structural)]
pub enum Direction {
    In,
    Out,
}

/// A step that sets up a pin or loads a program before the bus is configured.
#[derive(Clone, Copy, Debug, PartialEq, Eq, Structural)]
pub enum SetupStep {
    /// Hand a pin over to the PIO block, so that its state machines drive it.
    HandToPio(u8),
    /// Set the direction of a pin driven or read by the state machine.
    PinDirection(u8, Direction),
    /// Give a pin a slow slew rate.
    SlowSlewRate(u8),
    /// Disable the pull-up and pull-down of a pin.
    NoPull(u8),
    /// Enable (or disable) the Schmitt trigger of a pin's input.
    SchmittTrigger(u8, bool),
    /// Bypass (or not) the input synchroniser of a pin.
    InputSyncBypass(u8, bool),
    /// Load the program for this clock phase; programs are numbered in the
    /// order they are loaded.
    LoadProgram(Phase),
}

/// The setup steps of the bus: the clock, MOSI and MISO pins are handed to
/// the PIO block; clock and MOSI become outputs with a slow
/// slew rate and no pulls, MISO becomes an input with its Schmitt trigger on,
/// no pulls and no input synchroniser; then the programs for phase 0 and 1
/// are loaded, in that order, so that each gets the index `spec_program_index`
/// gives its phase.
pub open spec fn spec_setup_steps(clk: u8, mosi: u8, miso: u8) -> Seq<SetupStep> {
    seq![
        SetupStep::HandToPio(clk),
        SetupStep::HandToPio(mosi),
        SetupStep::HandToPio(miso),
        SetupStep::PinDirection(clk, Direction::Out),
        SetupStep::PinDirection(mosi, Direction::Out),
        SetupStep::PinDirection(miso, Direction::In),
        SetupStep::SlowSlewRate(clk),
        SetupStep::NoPull(clk),
        SetupStep::SlowSlewRate(mosi),
        SetupStep::NoPull(mosi),
        SetupStep::SchmittTrigger(miso, true),
        SetupStep::NoPull(miso),
        SetupStep::InputSyncBypass(miso, true),
        SetupStep::LoadProgram(Phase::CaptureOnFirstTransition),
        SetupStep::LoadProgram(Phase::CaptureOnSecondTransition),
    ]
}

/// The instruction words of the program for clock phase `phase`.
pub open spec fn spec_program_for(phase: Phase) -> Seq<u16> {
    match phase {
        Phase::CaptureOnFirstTransition => spec_program_phase0(),
        Phase::CaptureOnSecondTransition => spec_program_phase1(),
    }
}

/// The program for clock phase `phase`.
pub fn program_for(phase: Phase) -> (program: PioProgram)
    ensures
        program.instructions@ == spec_program_for(phase),
        program.side_set_bits == 1,
        !program.side_set_optional,
{
    match phase {
        Phase::CaptureOnFirstTransition => program_phase0(),
        Phase::CaptureOnSecondTransition => program_phase1(),
    }
}

/// In the setup steps, the `i`-th program loaded is the one whose phase has
/// index `i`, so the index that a configuration selects names the program
/// for its phase.
pub proof fn lemma_setup_loads_programs_in_index_order(clk: u8, mosi: u8, miso: u8, phase: Phase)
    ensures
        ({
            let steps = spec_setup_steps(clk, mosi, miso);
            steps[13 + spec_program_index(phase)] == SetupStep::LoadProgram(phase)
        }),
{
}

/// The index of the loaded program that implements clock phase `phase`.
pub open spec fn spec_program_index(phase: Phase) -> usize {
    match phase {
        Phase::CaptureOnFirstTransition => 0,
        Phase::CaptureOnSecondTransition => 1,
    }
}

/// Whether the clock pin output is inverted for polarity `polarity`.
pub open spec fn spec_clock_inverted(polarity: Polarity) -> bool {
    polarity == Polarity::IdleHigh
}

/// The state machine settings after applying `spi_config`: the program for
/// its phase, the clock pin as side-set pin and the divider for its
/// frequency; pins and shift settings stay.
pub open spec fn spec_configured(config: SmConfig, clock_pin: u8, clk_sys: u32, spi_config: Config) -> SmConfig {
    SmConfig {
        program: Some(spec_program_index(spi_config.phase)),
        side_set_pin: Some(clock_pin),
        clock_divider_bits: spec_divider_bits(clk_sys, spi_config.frequency) as u32,
        ..config
    }
}

/// The state machine settings before any SPI configuration: MOSI as output
/// pin, MISO as input pin, both shift registers most significant bit first
/// with automatic refill at the word size, no program, and a divider of 1.
pub open spec fn spec_base_config(word_bytes: usize, mosi: u8, miso: u8) -> SmConfig {
    SmConfig {
        out_pin: mosi,
        in_pin: miso,
        shift_out: spec_spi_shift_config(word_bytes),
        shift_in: spec_spi_shift_config(word_bytes),
        program: None,
        side_set_pin: None,
        clock_divider_bits: 256,
    }
}

/// The steps that apply new settings: set the clock inversion, stop the
/// state machine, write the settings, clear the FIFOs, restart and enable it.
pub open spec fn spec_apply_commands(config: SmConfig, clock_inverted: bool) -> Seq<SmCommand> {
    seq![
        SmCommand::SetClockInversion(clock_inverted),
        SmCommand::SetEnable(false),
        SmCommand::ApplyConfig(config),
        SmCommand::ClearFifos,
        SmCommand::Restart,
        SmCommand::SetEnable(true),
    ]
}

/// The abstract state of the driver.
pub struct PioSpiView {
    /// Size in bytes of the bus word type.
    pub word_bytes: usize,
    pub clock_pin: u8,
    /// Whether the clock pin output is inverted.
    pub clock_inverted: bool,
    /// The settings last written to the state machine.
    pub config: SmConfig,
}

/// An SPI bus driven by a PIO state machine: the settings it keeps and the
/// decisions it makes; the caller carries out the resulting steps.
pub struct PioSpi {
    word_bytes: usize,
    clock_pin: u8,
    clock_inverted: bool,
    config: SmConfig,
}

impl View for PioSpi {
    type V = PioSpiView;

    closed spec fn view(&self) -> PioSpiView {
        PioSpiView {
            word_bytes: self.word_bytes,
            clock_pin: self.clock_pin,
            clock_inverted: self.clock_inverted,
            config: self.config,
        }
    }
}

/// Picks the loaded program for clock phase `phase`.
pub fn program_index(phase: Phase) -> (index: usize)
    ensures
        index == spec_program_index(phase),
{
    match phase {
        Phase::CaptureOnFirstTransition => 0,
        Phase::CaptureOnSecondTransition => 1,
    }
}

/// Whether the clock pin is inverted for polarity `polarity`.
pub fn clock_inverted(polarity: Polarity) -> (inverted: bool)
    ensures
        inverted == spec_clock_inverted(polarity),
{
    match polarity {
        Polarity::IdleLow => false,
        Polarity::IdleHigh => true,
    }
}

impl PioSpi {
    /// Creates the driver for words of `word_bytes` bytes on the given clock,
    /// MOSI and MISO pins, configured for `spi_config` with a system clock of
    /// `clk_sys` Hz; also returns the steps that program the state machine.
    pub fn new(
        word_bytes: usize,
        clk: u8,
        mosi: u8,
        miso: u8,
        clk_sys: u32,
        spi_config: &Config,
    ) -> (result: (PioSpi, Vec<SmCommand>))
        requires
            word_bytes <= usize::MAX / 8,
            divider_computable(clk_sys, spi_config.frequency),
        ensures
            result.0@.word_bytes == word_bytes,
            result.0@.clock_pin == clk,
            result.0@.clock_inverted == spec_clock_inverted(spi_config.polarity),
            result.0@.config == spec_configured(spec_base_config(word_bytes, mosi, miso), clk, clk_sys, *spi_config),
            result.1@ == spec_apply_commands(result.0@.config, result.0@.clock_inverted),
            result.0@.config.out_pin == mosi,
            result.0@.config.in_pin == miso,
            result.0@.config.side_set_pin == Some(clk),
            result.0@.config.shift_out.threshold as int == (8 * word_bytes) % 256,
            result.0@.config.shift_in.threshold as int == (8 * word_bytes) % 256,
            result.0@.config.shift_out.direction == ShiftDirection::Left,
            result.0@.config.shift_in.direction == ShiftDirection::Left,
            result.0@.config.shift_out.auto_fill,
            result.0@.config.shift_in.auto_fill,
            result.0@.config.clock_divider_bits as int
                == clk_sys as int / (4 * spi_config.frequency as int) * 256,
    {
        let shift = spi_shift_config(word_bytes);
        let config = SmConfig {
            out_pin: mosi,
            in_pin: miso,
            shift_out: shift,
            shift_in: shift,
            program: None,
            side_set_pin: None,
            clock_divider_bits: 256,
        };
        let mut spi = PioSpi { word_bytes, clock_pin: clk, clock_inverted: false, config };
        let commands = spi.set_spi_config(clk_sys, spi_config);
        (spi, commands)
    }

    /// The steps that set up the pins and load the programs, carried out
    /// before the driver is created with `new`.
    pub fn setup_steps(clk: u8, mosi: u8, miso: u8) -> (steps: Vec<SetupStep>)
        ensures
            steps@ == spec_setup_steps(clk, mosi, miso),
    {
        let mut steps: Vec<SetupStep> = Vec::new();
        steps.push(SetupStep::HandToPio(clk));
        steps.push(SetupStep::HandToPio(mosi));
        steps.push(SetupStep::HandToPio(miso));
        steps.push(SetupStep::PinDirection(clk, Direction::Out));
        steps.push(SetupStep::PinDirection(mosi, Direction::Out));
        steps.push(SetupStep::PinDirection(miso, Direction::In));
        steps.push(SetupStep::SlowSlewRate(clk));
        steps.push(SetupStep::NoPull(clk));
        steps.push(SetupStep::SlowSlewRate(mosi));
        steps.push(SetupStep::NoPull(mosi));
        steps.push(SetupStep::SchmittTrigger(miso, true));
        steps.push(SetupStep::NoPull(miso));
        steps.push(SetupStep::InputSyncBypass(miso, true));
        steps.push(SetupStep::LoadProgram(Phase::CaptureOnFirstTransition));
        steps.push(SetupStep::LoadProgram(Phase::CaptureOnSecondTransition));
        assert(steps@ =~= spec_setup_steps(clk, mosi, miso));
        steps
    }

    /// Applies `spi_config` with a system clock of `clk_sys` Hz: selects the
    /// program for its phase, the clock inversion for its polarity and the
    /// divider for its frequency, and returns the steps that write them to
    /// the state machine.
    pub fn set_spi_config(&mut self, clk_sys: u32, spi_config: &Config) -> (commands: Vec<SmCommand>)
        requires
            divider_computable(clk_sys, spi_config.frequency),
        ensures
            final(self)@.word_bytes == old(self)@.word_bytes,
            final(self)@.clock_pin == old(self)@.clock_pin,
            final(self)@.clock_inverted == spec_clock_inverted(spi_config.polarity),
            final(self)@.config == spec_configured(old(self)@.config, old(self)@.clock_pin, clk_sys, *spi_config),
            commands@ == spec_apply_commands(final(self)@.config, final(self)@.clock_inverted),
            final(self)@.config.clock_divider_bits as int
                == clk_sys as int / (4 * spi_config.frequency as int) * 256,
            final(self)@.config.shift_out == old(self)@.config.shift_out,
            final(self)@.config.shift_in == old(self)@.config.shift_in,
    {
        let index = program_index(spi_config.phase);
        let inverted = clock_inverted(spi_config.polarity);
        let divider = clock_divider_bits(clk_sys, spi_config.frequency);
        self.clock_inverted = inverted;
        self.config = SmConfig {
            program: Some(index),
            side_set_pin: Some(self.clock_pin),
            clock_divider_bits: divider,
            ..self.config
        };
        let mut commands: Vec<SmCommand> = Vec::new();
        commands.push(SmCommand::SetClockInversion(inverted));
        commands.push(SmCommand::SetEnable(false));
        commands.push(SmCommand::ApplyConfig(self.config));
        commands.push(SmCommand::ClearFifos);
        commands.push(SmCommand::Restart);
        commands.push(SmCommand::SetEnable(true));
        assert(commands@ =~= spec_apply_commands(self@.config, self@.clock_inverted));
        commands
    }

    /// Size in bytes of the bus word type.
    pub fn word_bytes(&self) -> (word_bytes: usize)
        ensures
            word_bytes == self@.word_bytes,
    {
        self.word_bytes
    }

    /// The settings last written to the state machine.
    pub fn config(&self) -> (config: SmConfig)
        ensures
            config == self@.config,
    {
        self.config
    }

    /// The blocking exchange that reads `len` words.
    pub fn read(&self, len: usize) -> (exchange: Exchange)
        ensures
            exchange@ == ExchangeView::for_read(len as nat),
            exchange@.wf(),
    {
        Exchange::read(len)
    }

    /// The blocking exchange that writes `words`.
    pub fn write(&self, words: &[u32]) -> (exchange: Exchange)
        requires
            frames_words(self@.word_bytes, words@.len()),
        ensures
            exchange@ == ExchangeView::for_write(words@, self@.word_bytes),
            exchange@.wf(),
    {
        Exchange::write(words, self.word_bytes)
    }

    /// The blocking exchange that writes `write` and reads `read_len` words.
    pub fn transfer(&self, read_len: usize, write: &[u32]) -> (exchange: Exchange)
        requires
            frames_words(self@.word_bytes, write@.len()),
        ensures
            exchange@ == ExchangeView::for_transfer(read_len as nat, write@, self@.word_bytes),
            exchange@.wf(),
    {
        Exchange::transfer(read_len, write, self.word_bytes)
    }

    /// The blocking exchange that sends `words` and receives into their place.
    pub fn transfer_in_place(&self, words: &[u32]) -> (exchange: Exchange)
        requires
            frames_words(self@.word_bytes, words@.len()),
        ensures
            exchange@ == ExchangeView::for_transfer_in_place(words@, self@.word_bytes),
            exchange@.wf(),
    {
        Exchange::transfer_in_place(words, self.word_bytes)
    }
}

/// Applying a second SPI configuration leaves the state machine exactly as
/// if only the second had been applied.
pub proof fn lemma_last_configuration_wins(
    config: SmConfig,
    clock_pin: u8,
    clk_sys: u32,
    first: Config,
    second: Config,
)
    ensures
        spec_configured(spec_configured(config, clock_pin, clk_sys, first), clock_pin, clk_sys, second)
            == spec_configured(config, clock_pin, clk_sys, second),
{
}

/// Applying an SPI configuration leaves the pins and the word framing of the
/// state machine unchanged.
pub proof fn lemma_configuration_keeps_framing(config: SmConfig, clock_pin: u8, clk_sys: u32, spi_config: Config)
    ensures
        spec_configured(config, clock_pin, clk_sys, spi_config).out_pin == config.out_pin,
        spec_configured(config, clock_pin, clk_sys, spi_config).in_pin == config.in_pin,
        spec_configured(config, clock_pin, clk_sys, spi_config).shift_out == config.shift_out,
        spec_configured(config, clock_pin, clk_sys, spi_config).shift_in == config.shift_in,
{
}

/// The level of the clock pin for side-set value `side`, with the output
/// inverted or not.
pub open spec fn clock_pin_level(side: u32, inverted: bool) -> u32 {
    if inverted { (1 - side) as u32 } else { side }
}

/// The level at which the clock idles for polarity `polarity`.
pub open spec fn idle_level(polarity: Polarity) -> u32 {
    match polarity {
        Polarity::IdleLow => 0,
        Polarity::IdleHigh => 1,
    }
}

/// One pass of the program for `phase` moves one bit out of the OSR onto
/// MOSI and the bit on MISO (wired to MOSI) into the ISR, both shifting
/// left. With the clock pin inverted as `polarity` asks, phase 0 sets the bit
/// while the clock is idle and samples it on the first transition; phase 1
/// sets it on the first transition and samples it on the second, back at
/// the idle level.
pub proof fn lemma_program_pass(phase: Phase, polarity: Polarity, s: PinState)
    ensures
        ({
            let e = execute_all(spec_program_for(phase), s);
            let left = ShiftDirection::Left;
            let inverted = spec_clock_inverted(polarity);
            &&& e.osr == shift_out(s.osr, left)
            &&& e.isr == shift_in(s.isr, out_bit(s.osr, left), left)
            &&& e.mosi == out_bit(s.osr, left)
            &&& (phase == Phase::CaptureOnFirstTransition ==> {
                &&& clock_pin_level(e.clock_at_write, inverted) == idle_level(polarity)
                &&& clock_pin_level(e.clock_at_sample, inverted) != idle_level(polarity)
            })
            &&& (phase == Phase::CaptureOnSecondTransition ==> {
                &&& clock_pin_level(e.clock_at_write, inverted) != idle_level(polarity)
                &&& clock_pin_level(e.clock_at_sample, inverted) == idle_level(polarity)
            })
        }),
{
    match phase {
        Phase::CaptureOnFirstTransition => lemma_phase0_moves_one_bit(s),
        Phase::CaptureOnSecondTransition => lemma_phase1_moves_one_bit(s),
    }
}

/// Running the program for either phase `n` times, starting from an OSR that
/// holds `s.osr` and an empty ISR, leaves both shift registers as the
/// shift-register model of a loopback exchange says.
pub proof fn lemma_program_loops_follow_model(phase: Phase, s: PinState, n: nat)
    requires
        s.isr == 0,
    ensures
        run_loops(spec_program_for(phase), s, n).osr
            == loopback_registers(s.osr, ShiftDirection::Left, ShiftDirection::Left, n).0,
        run_loops(spec_program_for(phase), s, n).isr
            == loopback_registers(s.osr, ShiftDirection::Left, ShiftDirection::Left, n).1,
    decreases n,
{
    if n > 0 {
        lemma_program_loops_follow_model(phase, s, (n - 1) as nat);
        let prev = run_loops(spec_program_for(phase), s, (n - 1) as nat);
        lemma_program_pass(phase, Polarity::IdleLow, prev);
    }
}

/// In every clock mode, a word framed for the TX FIFO and clocked through
/// the program for its phase as many times as the push threshold asks, with
/// MISO wired to MOSI, is in the ISR unchanged when it is pushed.
pub proof fn lemma_every_mode_loops_back(phase: Phase, value: u32, word_bytes: usize, s: PinState)
    requires
        framable_word_bytes(word_bytes),
        (value as nat) < pow2((8 * word_bytes) as nat),
        s.osr == spec_frame(value, word_bytes),
        s.isr == 0,
    ensures
        run_loops(
            spec_program_for(phase),
            s,
            threshold_bits(spec_spi_shift_config(word_bytes).threshold),
        ).isr == value,
{
    let n = threshold_bits(spec_spi_shift_config(word_bytes).threshold);
    lemma_program_loops_follow_model(phase, s, n);
    lemma_loopback_returns_word(value, word_bytes);
    assert(loopback_rx(s.osr, spec_spi_shift_config(word_bytes), spec_spi_shift_config(word_bytes))
        == loopback_registers(s.osr, ShiftDirection::Left, ShiftDirection::Left, n).1);
}

/// The divider that a configuration sets is the largest whole number of
/// system clock ticks that fits in a quarter of an SPI bit: with `d` the
/// divider's integer part and no fractional part, four bits at the state
/// machine rate, `4 * frequency * d`, take at most `clk_sys` ticks per
/// second, and one more tick per bit would take more.
pub proof fn lemma_configured_divider_is_floor(config: SmConfig, clock_pin: u8, clk_sys: u32, spi_config: Config)
    requires
        divider_computable(clk_sys, spi_config.frequency),
    ensures
        ({
            let bits = spec_configured(config, clock_pin, clk_sys, spi_config).clock_divider_bits as int;
            let d = bits / 256;
            let f = spi_config.frequency as int;
            &&& bits % 256 == 0
            &&& d * (4 * f) <= clk_sys as int
            &&& (clk_sys as int) < (d + 1) * (4 * f)
        }),
{
    let f = spi_config.frequency as int;
    let q = clk_sys as int / (4 * f);
    let bits = spec_configured(config, clock_pin, clk_sys, spi_config).clock_divider_bits as int;
    assert(q < 0x100_0000);
    assert(0 <= q) by (nonlinear_arith)
        requires
            f > 0,
            clk_sys >= 0,
            q == clk_sys as int / (4 * f),
    ;
    assert(bits == q * 256);
    assert(q * (4 * f) <= clk_sys as int && (clk_sys as int) < (q + 1) * (4 * f)) by (nonlinear_arith)
        requires
            f > 0,
            q == clk_sys as int / (4 * f),
    ;
}

/// A new bus gives both shift registers the bit count of its words, most
/// significant bit first, with automatic refill: every word of 1 to 4 bytes
/// is sent and received whole, in one FIFO entry.
pub proof fn lemma_new_bus_shifts_whole_words(
    word_bytes: usize,
    mosi: u8,
    miso: u8,
    clock_pin: u8,
    clk_sys: u32,
    spi_config: Config,
)
    requires
        framable_word_bytes(word_bytes),
    ensures
        ({
            let c = spec_configured(spec_base_config(word_bytes, mosi, miso), clock_pin, clk_sys, spi_config);
            &&& threshold_bits(c.shift_out.threshold) == 8 * word_bytes
            &&& threshold_bits(c.shift_in.threshold) == 8 * word_bytes
            &&& c.shift_out.direction == ShiftDirection::Left
            &&& c.shift_in.direction == ShiftDirection::Left
            &&& c.shift_out.auto_fill
            &&& c.shift_in.auto_fill
        }),
{
}

/// On a new bus configured for any clock mode, with MISO wired to MOSI, a
/// word framed for the TX FIFO and clocked through the program that the
/// configuration selects until the input register reaches its push
/// threshold comes back unchanged.
pub proof fn lemma_new_bus_loops_back(
    word_bytes: usize,
    mosi: u8,
    miso: u8,
    clock_pin: u8,
    clk_sys: u32,
    spi_config: Config,
    value: u32,
    s: PinState,
)
    requires
        framable_word_bytes(word_bytes),
        (value as nat) < pow2((8 * word_bytes) as nat),
        s.osr == spec_frame(value, word_bytes),
        s.isr == 0,
    ensures
        ({
            let c = spec_configured(spec_base_config(word_bytes, mosi, miso), clock_pin, clk_sys, spi_config);
            &&& c.program == Some(spec_program_index(spi_config.phase))
            &&& run_loops(spec_program_for(spi_config.phase), s, threshold_bits(c.shift_in.threshold)).isr == value
        }),
{
    lemma_new_bus_shifts_whole_words(word_bytes, mosi, miso, clock_pin, clk_sys, spi_config);
    lemma_every_mode_loops_back(spi_config.phase, value, word_bytes, s);
}

} // verus!
