use vstd::prelude::*;
use vstd::arithmetic::power2::pow2;
use crate::frame::{
    framable_word_bytes, frames_words, spec_frame, frame_word, loopback_rx, spec_spi_shift_config,
    lemma_loopback_returns_word, lemma_loopback_of_zero,
};

verus! {

/// What the state machine's FIFOs report to a blocking word exchange.
#[derive(Clone, Copy, Debug, PartialEq, Eq, Structural)]
pub enum BusEvent {
    /// Nothing has happened since the last step (also used to start).
    Start,
    /// The entry asked for by the last `Push` action is now in the TX FIFO.
    Pushed,
    /// The entry asked for by the last `Pull` action was taken from the RX FIFO.
    Pulled(u32),
}

/// What a blocking word exchange asks its caller to do next.
#[derive(Clone, Copy, Debug, PartialEq, Eq, Structural)]
pub enum BusAction {
    /// Wait until the TX FIFO has room, then push this entry.
    Push(u32),
    /// Wait until the RX FIFO holds an entry, then pull it.
    Pull,
    /// Every word has been exchanged.
    Finished,
}

/// The abstract state of a blocking word exchange.
pub struct ExchangeView {
    /// The TX FIFO entries to send, one per clocked word.
    pub tx: Seq<u32>,
    /// How many of the received entries the caller keeps.
    pub read_len: nat,
    /// How many TX entries have been pushed so far.
    pub pushed: nat,
    /// The RX FIFO entries received so far, in order.
    pub rx: Seq<u32>,
}

impl ExchangeView {
    /// At most one word is in flight: every pushed entry except possibly the
    /// last has been answered, and the kept words are a prefix of the exchange.
    pub open spec fn wf(self) -> bool {
        &&& self.rx.len() <= self.pushed <= self.tx.len()
        &&& self.pushed <= self.rx.len() + 1
        &&& self.read_len <= self.tx.len()
    }

    /// The action that the exchange asks for in this state.
    pub open spec fn pending(self) -> BusAction {
        if self.rx.len() >= self.tx.len() {
            BusAction::Finished
        } else if self.pushed == self.rx.len() {
            BusAction::Push(self.tx[self.pushed as int])
        } else {
            BusAction::Pull
        }
    }

    /// The state after `event`: a `Pushed` answering a `Push` counts one more
    /// pushed entry, a `Pulled` answering a `Pull` records the received entry,
    /// and any other event changes nothing.
    pub open spec fn after(self, event: BusEvent) -> ExchangeView {
        match (event, self.pending()) {
            (BusEvent::Pushed, BusAction::Push(_)) => ExchangeView { pushed: self.pushed + 1, ..self },
            (BusEvent::Pulled(entry), BusAction::Pull) => ExchangeView { rx: self.rx.push(entry), ..self },
            _ => self,
        }
    }

    /// The received entries that the caller keeps, in order.
    pub open spec fn kept(self) -> Seq<u32> {
        if self.read_len <= self.rx.len() {
            self.rx.take(self.read_len as int)
        } else {
            self.rx
        }
    }

    /// The exchange that reads `len` words, sending an all-zero entry for each.
    pub open spec fn for_read(len: nat) -> ExchangeView {
        ExchangeView { tx: Seq::new(len, |i: int| 0u32), read_len: len, pushed: 0, rx: Seq::empty() }
    }

    /// The exchange that writes `words` and keeps nothing it receives.
    pub open spec fn for_write(words: Seq<u32>, word_bytes: usize) -> ExchangeView {
        ExchangeView {
            tx: Seq::new(words.len(), |i: int| spec_frame(words[i], word_bytes)),
            read_len: 0,
            pushed: 0,
            rx: Seq::empty(),
        }
    }

    /// The exchange that runs for `max(read_len, write.len())` words, sends
    /// `write` and then all-zero entries, and keeps the first `read_len`
    /// received words.
    pub open spec fn for_transfer(read_len: nat, write: Seq<u32>, word_bytes: usize) -> ExchangeView {
        let len = if read_len >= write.len() { read_len } else { write.len() };
        ExchangeView {
            tx: Seq::new(len, |i: int| if i < write.len() { spec_frame(write[i], word_bytes) } else { 0u32 }),
            read_len,
            pushed: 0,
            rx: Seq::empty(),
        }
    }

    /// The exchange that sends `words` and keeps every received word, to be
    /// stored over `words`.
    pub open spec fn for_transfer_in_place(words: Seq<u32>, word_bytes: usize) -> ExchangeView {
        ExchangeView {
            tx: Seq::new(words.len(), |i: int| spec_frame(words[i], word_bytes)),
            read_len: words.len(),
            pushed: 0,
            rx: Seq::empty(),
        }
    }
}

/// A blocking exchange of words with the SPI state machine, one word in
/// flight at a time: push a TX entry, pull the RX entry it produced, repeat.
pub struct Exchange {
    tx: Vec<u32>,
    read_len: usize,
    pushed: usize,
    rx: Vec<u32>,
}

impl View for Exchange {
    type V = ExchangeView;

    closed spec fn view(&self) -> ExchangeView {
        ExchangeView { tx: self.tx@, read_len: self.read_len as nat, pushed: self.pushed as nat, rx: self.rx@ }
    }
}

impl Exchange {
    /// An exchange that reads `len` words, sending an all-zero entry for each.
    pub fn read(len: usize) -> (exchange: Exchange)
        ensures
            exchange@ == ExchangeView::for_read(len as nat),
            exchange@.wf(),
    {
        let mut tx: Vec<u32> = Vec::new();
        let mut i: usize = 0;
        while i < len
            invariant
                i <= len,
                tx@ == Seq::new(i as nat, |j: int| 0u32),
            decreases len - i,
        {
            tx.push(0u32);
            i = i + 1;
        }
        let exchange = Exchange { tx, read_len: len, pushed: 0, rx: Vec::new() };
        assert(exchange@ == ExchangeView::for_read(len as nat));
        exchange
    }

    /// An exchange that writes `words` (values of words of `word_bytes`
    /// bytes) and keeps nothing it receives.
    pub fn write(words: &[u32], word_bytes: usize) -> (exchange: Exchange)
        requires
            frames_words(word_bytes, words@.len()),
        ensures
            exchange@ == ExchangeView::for_write(words@, word_bytes),
            exchange@.wf(),
    {
        let mut tx: Vec<u32> = Vec::new();
        let mut i: usize = 0;
        while i < words.len()
            invariant
                frames_words(word_bytes, words@.len()),
                i <= words.len(),
                tx@ == Seq::new(i as nat, |j: int| spec_frame(words@[j], word_bytes)),
            decreases words.len() - i,
        {
            let entry = frame_word(words[i], word_bytes);
            tx.push(entry);
            i = i + 1;
        }
        let exchange = Exchange { tx, read_len: 0, pushed: 0, rx: Vec::new() };
        assert(exchange@ == ExchangeView::for_write(words@, word_bytes));
        exchange
    }

    /// An exchange for a full-duplex transfer: it runs for
    /// `max(read_len, write.len())` words, sends `write` and then all-zero
    /// entries, and keeps the first `read_len` received words.
    pub fn transfer(read_len: usize, write: &[u32], word_bytes: usize) -> (exchange: Exchange)
        requires
            frames_words(word_bytes, write@.len()),
        ensures
            exchange@ == ExchangeView::for_transfer(read_len as nat, write@, word_bytes),
            exchange@.wf(),
    {
        let len: usize = if read_len >= write.len() { read_len } else { write.len() };
        let mut tx: Vec<u32> = Vec::new();
        let mut i: usize = 0;
        while i < len
            invariant
                frames_words(word_bytes, write@.len()),
                i <= len,
                len == (if read_len >= write.len() { read_len } else { write.len() }),
                tx@ == Seq::new(
                    i as nat,
                    |j: int| if j < write@.len() { spec_frame(write@[j], word_bytes) } else { 0u32 },
                ),
            decreases len - i,
        {
            let entry: u32 = if i < write.len() { frame_word(write[i], word_bytes) } else { 0u32 };
            tx.push(entry);
            i = i + 1;
        }
        let exchange = Exchange { tx, read_len, pushed: 0, rx: Vec::new() };
        assert(exchange@ == ExchangeView::for_transfer(read_len as nat, write@, word_bytes));
        exchange
    }

    /// An exchange that sends `words` and keeps every received word, to be
    /// stored over `words`.
    pub fn transfer_in_place(words: &[u32], word_bytes: usize) -> (exchange: Exchange)
        requires
            frames_words(word_bytes, words@.len()),
        ensures
            exchange@ == ExchangeView::for_transfer_in_place(words@, word_bytes),
            exchange@.wf(),
    {
        let mut tx: Vec<u32> = Vec::new();
        let mut i: usize = 0;
        while i < words.len()
            invariant
                frames_words(word_bytes, words@.len()),
                i <= words.len(),
                tx@ == Seq::new(i as nat, |j: int| spec_frame(words@[j], word_bytes)),
            decreases words.len() - i,
        {
            let entry = frame_word(words[i], word_bytes);
            tx.push(entry);
            i = i + 1;
        }
        let exchange = Exchange { tx, read_len: words.len(), pushed: 0, rx: Vec::new() };
        assert(exchange@ == ExchangeView::for_transfer_in_place(words@, word_bytes));
        exchange
    }

    /// Takes in what the FIFOs report and says what to do next.
    pub fn step(&mut self, event: BusEvent) -> (action: BusAction)
        requires
            old(self)@.wf(),
        ensures
            final(self)@ == old(self)@.after(event),
            final(self)@.wf(),
            action == final(self)@.pending(),
    {
        let pending = self.pending_action();
        match (event, pending) {
            (BusEvent::Pushed, BusAction::Push(_)) => {
                assert(self.pushed < self.tx.len());
                self.pushed = self.pushed + 1;
            },
            (BusEvent::Pulled(entry), BusAction::Pull) => {
                self.rx.push(entry);
            },
            _ => {},
        }
        self.pending_action()
    }

    fn pending_action(&self) -> (action: BusAction)
        requires
            self@.wf(),
        ensures
            action == self@.pending(),
    {
        if self.rx.len() >= self.tx.len() {
            BusAction::Finished
        } else if self.pushed == self.rx.len() {
            BusAction::Push(self.tx[self.pushed])
        } else {
            BusAction::Pull
        }
    }

    /// Whether every word has been exchanged.
    pub fn is_finished(&self) -> (finished: bool)
        ensures
            finished == (self@.pending() == BusAction::Finished),
    {
        self.rx.len() >= self.tx.len()
    }

    /// The received entries that the caller keeps, in order.
    pub fn kept_words(&self) -> (words: Vec<u32>)
        ensures
            words@ == self@.kept(),
    {
        let n: usize = if self.read_len <= self.rx.len() { self.read_len } else { self.rx.len() };
        let mut words: Vec<u32> = Vec::new();
        let mut i: usize = 0;
        while i < n
            invariant
                i <= n,
                n <= self.rx@.len(),
                n == (if self.read_len <= self.rx@.len() { self.read_len as int } else { self.rx@.len() as int }),
                words@ == self.rx@.take(i as int),
            decreases n - i,
        {
            words.push(self.rx[i]);
            i = i + 1;
            assert(words@ =~= self.rx@.take(i as int));
        }
        assert(words@ =~= self@.kept());
        words
    }
}

// ---------------------------------------------------------------------------
// Running an exchange against a device.

/// The final state of an exchange whose every TX entry is answered by
/// `device` applied to that entry.
pub open spec fn run(v: ExchangeView, device: spec_fn(u32) -> u32) -> ExchangeView
    decreases 2 * v.tx.len() - v.rx.len() - v.pushed when v.wf()
{
    match v.pending() {
        BusAction::Finished => v,
        BusAction::Push(_) => run(v.after(BusEvent::Pushed), device),
        BusAction::Pull => run(v.after(BusEvent::Pulled(device(v.tx[v.rx.len() as int]))), device),
    }
}

/// Stepping an exchange to its end, with each entry answered by a device,
/// sends every TX entry once and in order, and receives for each exactly the
/// device's answer to it; the exchange then reports `Finished`.
pub proof fn lemma_run_exchanges_each_word(v: ExchangeView, device: spec_fn(u32) -> u32)
    requires
        v.wf(),
        forall|i: int| 0 <= i < v.rx.len() ==> v.rx[i] == device(v.tx[i]),
    ensures
        run(v, device).wf(),
        run(v, device).tx == v.tx,
        run(v, device).read_len == v.read_len,
        run(v, device).pushed == v.tx.len(),
        run(v, device).rx.len() == v.tx.len(),
        forall|i: int| 0 <= i < v.tx.len() ==> run(v, device).rx[i] == device(v.tx[i]),
        run(v, device).pending() == BusAction::Finished,
    decreases 2 * v.tx.len() - v.rx.len() - v.pushed,
{
    match v.pending() {
        BusAction::Finished => {},
        BusAction::Push(_) => {
            lemma_run_exchanges_each_word(v.after(BusEvent::Pushed), device);
        },
        BusAction::Pull => {
            let w = v.after(BusEvent::Pulled(device(v.tx[v.rx.len() as int])));
            assert forall|i: int| 0 <= i < w.rx.len() implies w.rx[i] == device(w.tx[i]) by {
                if i < v.rx.len() {
                    assert(w.rx[i] == v.rx[i]);
                }
            }
            lemma_run_exchanges_each_word(w, device);
        },
    }
}

/// The final state of an exchange whose `k`-th pulled RX entry is
/// `answers[k]`, whatever was sent.
pub open spec fn run_answered(v: ExchangeView, answers: Seq<u32>) -> ExchangeView
    decreases 2 * v.tx.len() - v.rx.len() - v.pushed when v.wf()
{
    match v.pending() {
        BusAction::Finished => v,
        BusAction::Push(_) => run_answered(v.after(BusEvent::Pushed), answers),
        BusAction::Pull => run_answered(v.after(BusEvent::Pulled(answers[v.rx.len() as int])), answers),
    }
}

/// Stepping an exchange to its end, with the RX entries `answers` arriving
/// in order, receives one entry per TX entry, so it takes exactly the first
/// `tx.len()` answers and keeps the first `read_len` of them.
pub proof fn lemma_run_answered_takes_answers(v: ExchangeView, answers: Seq<u32>)
    requires
        v.wf(),
        v.tx.len() <= answers.len(),
        v.rx == answers.take(v.rx.len() as int),
    ensures
        run_answered(v, answers).wf(),
        run_answered(v, answers).tx == v.tx,
        run_answered(v, answers).pushed == v.tx.len(),
        run_answered(v, answers).rx == answers.take(v.tx.len() as int),
        run_answered(v, answers).kept() == answers.take(v.read_len as int),
        run_answered(v, answers).pending() == BusAction::Finished,
    decreases 2 * v.tx.len() - v.rx.len() - v.pushed,
{
    match v.pending() {
        BusAction::Finished => {
            assert(run_answered(v, answers).kept() =~= answers.take(v.read_len as int));
        },
        BusAction::Push(_) => {
            lemma_run_answered_takes_answers(v.after(BusEvent::Pushed), answers);
        },
        BusAction::Pull => {
            let w = v.after(BusEvent::Pulled(answers[v.rx.len() as int]));
            assert(w.rx =~= answers.take(w.rx.len() as int));
            lemma_run_answered_takes_answers(w, answers);
        },
    }
}

/// The device formed by the SPI state machine with MISO wired to MOSI.
pub open spec fn spi_loopback(word_bytes: usize) -> spec_fn(u32) -> u32 {
    |entry: u32| loopback_rx(entry, spec_spi_shift_config(word_bytes), spec_spi_shift_config(word_bytes))
}

/// What a transfer with MISO wired to MOSI reads: the written word at each
/// position that was written, and zero at each position past the written words.
pub open spec fn loopback_transfer_result(read_len: nat, write: Seq<u32>) -> Seq<u32> {
    Seq::new(read_len, |i: int| if i < write.len() { write[i] } else { 0u32 })
}

/// Every value in `words` fits in a word of `word_bytes` bytes.
pub open spec fn words_fit(words: Seq<u32>, word_bytes: usize) -> bool {
    forall|i: int| 0 <= i < words.len() ==> (words[i] as nat) < pow2((8 * word_bytes) as nat)
}

/// The words a transfer keeps when each TX entry is answered by `device`:
/// the answers to the framed write words, then the answers to the all-zero
/// entries sent past them.
pub open spec fn transfer_answers(
    read_len: nat,
    write: Seq<u32>,
    word_bytes: usize,
    device: spec_fn(u32) -> u32,
) -> Seq<u32> {
    Seq::new(
        read_len,
        |i: int| if i < write.len() { device(spec_frame(write[i], word_bytes)) } else { device(0u32) },
    )
}

/// A transfer runs for `max(read_len, write.len())` words and keeps the
/// first `read_len` answers: answers past the read buffer are discarded, and
/// past the write buffer all-zero entries are sent.
pub proof fn lemma_transfer_keeps_answers(
    read_len: nat,
    write: Seq<u32>,
    word_bytes: usize,
    device: spec_fn(u32) -> u32,
)
    ensures
        run(ExchangeView::for_transfer(read_len, write, word_bytes), device).rx.len()
            == if read_len >= write.len() { read_len } else { write.len() },
        run(ExchangeView::for_transfer(read_len, write, word_bytes), device).kept()
            == transfer_answers(read_len, write, word_bytes, device),
{
    let v = ExchangeView::for_transfer(read_len, write, word_bytes);
    lemma_run_exchanges_each_word(v, device);
    let f = run(v, device);
    assert(f.kept() =~= transfer_answers(read_len, write, word_bytes, device));
}

/// A transfer with MISO wired to MOSI reads back the words it wrote and
/// zeros past them.
pub proof fn lemma_loopback_transfer(read_len: nat, write: Seq<u32>, word_bytes: usize)
    requires
        framable_word_bytes(word_bytes),
        words_fit(write, word_bytes),
    ensures
        run(ExchangeView::for_transfer(read_len, write, word_bytes), spi_loopback(word_bytes)).kept()
            == loopback_transfer_result(read_len, write),
{
    let device = spi_loopback(word_bytes);
    lemma_transfer_keeps_answers(read_len, write, word_bytes, device);
    let answers = transfer_answers(read_len, write, word_bytes, device);
    let expected = loopback_transfer_result(read_len, write);
    assert forall|i: int| 0 <= i < read_len implies #[trigger] answers[i] == expected[i] by {
        if i < write.len() {
            lemma_loopback_returns_word(write[i], word_bytes);
        } else {
            lemma_loopback_of_zero(word_bytes);
        }
    }
    assert(answers =~= expected);
}

/// An in-place transfer with MISO wired to MOSI leaves the words unchanged.
pub proof fn lemma_loopback_transfer_in_place(words: Seq<u32>, word_bytes: usize)
    requires
        framable_word_bytes(word_bytes),
        words_fit(words, word_bytes),
    ensures
        run(ExchangeView::for_transfer_in_place(words, word_bytes), spi_loopback(word_bytes)).kept() == words,
{
    lemma_in_place_is_transfer(words, word_bytes);
    lemma_loopback_transfer(words.len(), words, word_bytes);
    assert(loopback_transfer_result(words.len(), words) =~= words);
}

/// A read with MISO wired to MOSI reads zeros.
pub proof fn lemma_loopback_read(len: nat, word_bytes: usize)
    requires
        framable_word_bytes(word_bytes),
    ensures
        run(ExchangeView::for_read(len), spi_loopback(word_bytes)).kept() == Seq::new(len, |i: int| 0u32),
{
    lemma_read_is_transfer(len, word_bytes);
    lemma_loopback_transfer(len, Seq::empty(), word_bytes);
    assert(loopback_transfer_result(len, Seq::empty()) =~= Seq::new(len, |i: int| 0u32));
}

/// Writing is a transfer that keeps none of the received words.
pub proof fn lemma_write_is_transfer(words: Seq<u32>, word_bytes: usize)
    ensures
        ExchangeView::for_write(words, word_bytes) == ExchangeView::for_transfer(0, words, word_bytes),
{
    assert(ExchangeView::for_write(words, word_bytes).tx =~= ExchangeView::for_transfer(0, words, word_bytes).tx);
}

/// Reading is a transfer with nothing to write.
pub proof fn lemma_read_is_transfer(len: nat, word_bytes: usize)
    ensures
        ExchangeView::for_read(len) == ExchangeView::for_transfer(len, Seq::empty(), word_bytes),
{
    assert(ExchangeView::for_read(len).tx =~= ExchangeView::for_transfer(len, Seq::empty(), word_bytes).tx);
}

/// An in-place transfer is a transfer whose read and write buffers hold the
/// same words.
pub proof fn lemma_in_place_is_transfer(words: Seq<u32>, word_bytes: usize)
    ensures
        ExchangeView::for_transfer_in_place(words, word_bytes)
            == ExchangeView::for_transfer(words.len(), words, word_bytes),
{
    assert(ExchangeView::for_transfer_in_place(words, word_bytes).tx
        =~= ExchangeView::for_transfer(words.len(), words, word_bytes).tx);
}

} // verus!
