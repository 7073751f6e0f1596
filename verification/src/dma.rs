use vstd::prelude::*;
use crate::exchange::{ExchangeView, run_answered, lemma_run_answered_takes_answers};
use crate::frame::spec_frame;

verus! {

/// One DMA step of an asynchronous bus operation. Ranges are half-open
/// index ranges into the caller's read and write buffers.
#[derive(Clone, Copy, Debug, PartialEq, Eq, Structural)]
pub enum DmaJob {
    /// Pull `read[read_start..read_end]` from the RX FIFO while pushing
    /// `write[write_start..write_end]` to the TX FIFO.
    Exchange { read_start: usize, read_end: usize, write_start: usize, write_end: usize },
    /// Pull `read[read_start..read_end]` from the RX FIFO while pushing
    /// `zeros` all-zero entries to the TX FIFO.
    ReadPadded { read_start: usize, read_end: usize, zeros: usize },
    /// With autopush off, push `write[write_start..write_end]`, wait until
    /// the state machine stalls on an empty TX FIFO, restart it and turn
    /// autopush back on.
    WriteOnly { write_start: usize, write_end: usize },
}

impl DmaJob {
    /// Words clocked on the bus by this job (one per pushed entry).
    pub open spec fn clocks(self) -> nat {
        match self {
            DmaJob::Exchange { write_start, write_end, .. } => (write_end - write_start) as nat,
            DmaJob::ReadPadded { zeros, .. } => zeros as nat,
            DmaJob::WriteOnly { write_start, write_end } => (write_end - write_start) as nat,
        }
    }

    /// Words stored into the read buffer by this job.
    pub open spec fn reads(self) -> nat {
        match self {
            DmaJob::Exchange { read_start, read_end, .. } => (read_end - read_start) as nat,
            DmaJob::ReadPadded { read_start, read_end, .. } => (read_end - read_start) as nat,
            DmaJob::WriteOnly { .. } => 0,
        }
    }

    /// Words taken from the write buffer by this job.
    pub open spec fn writes(self) -> nat {
        match self {
            DmaJob::Exchange { write_start, write_end, .. } => (write_end - write_start) as nat,
            DmaJob::ReadPadded { .. } => 0,
            DmaJob::WriteOnly { write_start, write_end } => (write_end - write_start) as nat,
        }
    }

    /// The ranges are ordered, and a job that pulls from the RX FIFO pulls as
    /// many entries as it pushes, so both DMA transfers of the job complete and
    /// no entry is left behind in the RX FIFO.
    pub open spec fn balanced(self) -> bool {
        match self {
            DmaJob::Exchange { read_start, read_end, write_start, write_end } => {
                &&& read_start <= read_end
                &&& write_start <= write_end
                &&& read_end - read_start == write_end - write_start
            },
            DmaJob::ReadPadded { read_start, read_end, zeros } => {
                &&& read_start <= read_end
                &&& read_end - read_start == zeros
            },
            DmaJob::WriteOnly { write_start, write_end } => write_start <= write_end,
        }
    }

    /// The job starts where `done` words have already been clocked: the read
    /// range (if any) and the write range (if any) begin at that position.
    pub open spec fn starts_at(self, done: nat) -> bool {
        match self {
            DmaJob::Exchange { read_start, write_start, .. } => read_start == done && write_start == done,
            DmaJob::ReadPadded { read_start, .. } => read_start == done,
            DmaJob::WriteOnly { write_start, .. } => write_start == done,
        }
    }
}

/// Words clocked by a sequence of jobs.
pub open spec fn plan_clocks(plan: Seq<DmaJob>) -> nat
    decreases plan.len(),
{
    if plan.len() == 0 { 0 } else { plan_clocks(plan.drop_last()) + plan.last().clocks() }
}

/// Words stored into the read buffer by a sequence of jobs.
pub open spec fn plan_reads(plan: Seq<DmaJob>) -> nat
    decreases plan.len(),
{
    if plan.len() == 0 { 0 } else { plan_reads(plan.drop_last()) + plan.last().reads() }
}

/// Words taken from the write buffer by a sequence of jobs.
pub open spec fn plan_writes(plan: Seq<DmaJob>) -> nat
    decreases plan.len(),
{
    if plan.len() == 0 { 0 } else { plan_writes(plan.drop_last()) + plan.last().writes() }
}

/// Every job is balanced and starts where the previous ones stopped, so the
/// `i`-th clocked word sends write word `i` (while there is one) and is
/// stored into read word `i` (while there is room).
pub open spec fn plan_in_order(plan: Seq<DmaJob>) -> bool {
    forall|k: int| 0 <= k < plan.len() ==> {
        &&& (#[trigger] plan[k]).balanced()
        &&& plan[k].starts_at(plan_clocks(plan.take(k)))
        &&& (plan[k].reads() > 0 ==> plan_reads(plan.take(k)) == plan_clocks(plan.take(k)))
        &&& (plan[k].writes() > 0 ==> plan_writes(plan.take(k)) == plan_clocks(plan.take(k)))
    }
}

/// A plan for an operation that reads `read_len` and writes `write_len`
/// words: in order, storing every read word and sending every write word
/// once, clocking `max(read_len, write_len)` words.
pub open spec fn plan_covers(plan: Seq<DmaJob>, read_len: nat, write_len: nat) -> bool {
    &&& plan_in_order(plan)
    &&& plan_reads(plan) == read_len
    &&& plan_writes(plan) == write_len
    &&& plan_clocks(plan) == if read_len >= write_len { read_len } else { write_len }
}

/// The jobs of an asynchronous full-duplex transfer: the common prefix is
/// exchanged, then the rest of the longer buffer is written alone or read
/// with all-zero entries.
pub open spec fn spec_transfer_plan(read_len: usize, write_len: usize) -> Seq<DmaJob> {
    let num = if read_len <= write_len { read_len } else { write_len };
    let first = DmaJob::Exchange { read_start: 0, read_end: num, write_start: 0, write_end: num };
    if write_len > read_len {
        seq![first, DmaJob::WriteOnly { write_start: num, write_end: write_len }]
    } else if read_len > write_len {
        seq![first, DmaJob::ReadPadded { read_start: num, read_end: read_len, zeros: (read_len - write_len) as usize }]
    } else {
        seq![first]
    }
}

/// The job of an asynchronous read: pull `len` words while sending as many
/// all-zero entries.
pub open spec fn spec_read_plan(len: usize) -> Seq<DmaJob> {
    seq![DmaJob::ReadPadded { read_start: 0, read_end: len, zeros: len }]
}

/// The job of an asynchronous write of `len` words.
pub open spec fn spec_write_plan(len: usize) -> Seq<DmaJob> {
    seq![DmaJob::WriteOnly { write_start: 0, write_end: len }]
}

/// The job of an asynchronous in-place transfer of `len` words.
pub open spec fn spec_transfer_in_place_plan(len: usize) -> Seq<DmaJob> {
    seq![DmaJob::Exchange { read_start: 0, read_end: len, write_start: 0, write_end: len }]
}

/// Plans an asynchronous read of `len` words.
pub fn plan_read(len: usize) -> (plan: Vec<DmaJob>)
    ensures
        plan@ == spec_read_plan(len),
        plan_covers(plan@, len as nat, 0),
{
    let mut plan: Vec<DmaJob> = Vec::new();
    plan.push(DmaJob::ReadPadded { read_start: 0, read_end: len, zeros: len });
    proof { lemma_single_job_plan(plan@); }
    plan
}

/// Plans an asynchronous write of `len` words.
pub fn plan_write(len: usize) -> (plan: Vec<DmaJob>)
    ensures
        plan@ == spec_write_plan(len),
        plan_covers(plan@, 0, len as nat),
{
    let mut plan: Vec<DmaJob> = Vec::new();
    plan.push(DmaJob::WriteOnly { write_start: 0, write_end: len });
    proof { lemma_single_job_plan(plan@); }
    plan
}

/// Plans an asynchronous in-place transfer of `len` words: the buffer is
/// sent and overwritten with what is received.
pub fn plan_transfer_in_place(len: usize) -> (plan: Vec<DmaJob>)
    ensures
        plan@ == spec_transfer_in_place_plan(len),
        plan_covers(plan@, len as nat, len as nat),
{
    let mut plan: Vec<DmaJob> = Vec::new();
    plan.push(DmaJob::Exchange { read_start: 0, read_end: len, write_start: 0, write_end: len });
    proof { lemma_single_job_plan(plan@); }
    plan
}

/// Plans an asynchronous full-duplex transfer between a read buffer of
/// `read_len` words and a write buffer of `write_len` words.
pub fn plan_transfer(read_len: usize, write_len: usize) -> (plan: Vec<DmaJob>)
    ensures
        plan@ == spec_transfer_plan(read_len, write_len),
        plan_covers(plan@, read_len as nat, write_len as nat),
{
    let num: usize = if read_len <= write_len { read_len } else { write_len };
    let mut plan: Vec<DmaJob> = Vec::new();
    plan.push(DmaJob::Exchange { read_start: 0, read_end: num, write_start: 0, write_end: num });
    if write_len > read_len {
        plan.push(DmaJob::WriteOnly { write_start: num, write_end: write_len });
    } else if read_len > write_len {
        plan.push(DmaJob::ReadPadded { read_start: num, read_end: read_len, zeros: read_len - write_len });
    }
    proof {
        assert(plan@ =~= spec_transfer_plan(read_len, write_len));
        lemma_transfer_plan_covers(read_len, write_len);
    }
    plan
}

proof fn lemma_single_job_plan(plan: Seq<DmaJob>)
    requires
        plan.len() == 1,
        plan[0].balanced(),
        plan[0].starts_at(0),
    ensures
        plan_in_order(plan),
        plan_clocks(plan) == plan[0].clocks(),
        plan_reads(plan) == plan[0].reads(),
        plan_writes(plan) == plan[0].writes(),
{
    let none = Seq::<DmaJob>::empty();
    assert(plan.drop_last() =~= none);
    assert(plan.take(0) =~= none);
    assert(plan_clocks(none) == 0 && plan_reads(none) == 0 && plan_writes(none) == 0);
    assert(plan.last() == plan[0]);
}

/// The transfer plan stores every read word and sends every write word once,
/// in order, and clocks `max(read_len, write_len)` words, as the blocking
/// transfer does.
pub proof fn lemma_transfer_plan_covers(read_len: usize, write_len: usize)
    ensures
        plan_covers(spec_transfer_plan(read_len, write_len), read_len as nat, write_len as nat),
{
    let plan = spec_transfer_plan(read_len, write_len);
    let num = if read_len <= write_len { read_len } else { write_len };
    let first = plan[0];
    assert(plan.take(0) =~= Seq::<DmaJob>::empty());
    if plan.len() == 1 {
        lemma_single_job_plan(plan);
    } else {
        assert(plan.drop_last() =~= seq![first]);
        assert(plan.take(1) =~= seq![first]);
        lemma_single_job_plan(seq![first]);
        assert(plan_clocks(seq![first]) == num);
        assert(plan_reads(seq![first]) == num);
        assert(plan_writes(seq![first]) == num);
        assert(plan_in_order(plan)) by {
            assert forall|k: int| 0 <= k < plan.len() implies {
                &&& (#[trigger] plan[k]).balanced()
                &&& plan[k].starts_at(plan_clocks(plan.take(k)))
                &&& (plan[k].reads() > 0 ==> plan_reads(plan.take(k)) == plan_clocks(plan.take(k)))
                &&& (plan[k].writes() > 0 ==> plan_writes(plan.take(k)) == plan_clocks(plan.take(k)))
            } by {
                if k == 1 {
                    assert(plan.take(k) =~= seq![first]);
                } else {
                    assert(plan.take(k) =~= Seq::<DmaJob>::empty());
                }
            }
        }
    }
}

/// An asynchronous transfer clocks as many words as the blocking transfer of
/// the same buffers.
pub proof fn lemma_async_transfer_clocks_like_blocking(read_len: usize, write: Seq<u32>, word_bytes: usize)
    requires
        write.len() <= usize::MAX,
    ensures
        plan_clocks(spec_transfer_plan(read_len, write.len() as usize))
            == ExchangeView::for_transfer(read_len as nat, write, word_bytes).tx.len(),
{
    lemma_transfer_plan_covers(read_len, write.len() as usize);
}

// ---------------------------------------------------------------------------
// What a plan sends and stores.

/// The words a job sends, before the hardware aligns them in the TX FIFO:
/// its slice of the write buffer, or its all-zero entries.
pub open spec fn job_sent(job: DmaJob, write: Seq<u32>) -> Seq<u32> {
    match job {
        DmaJob::Exchange { write_start, write_end, .. } => write.subrange(write_start as int, write_end as int),
        DmaJob::ReadPadded { zeros, .. } => Seq::new(zeros as nat, |i: int| 0u32),
        DmaJob::WriteOnly { write_start, write_end } => write.subrange(write_start as int, write_end as int),
    }
}

/// The words a plan sends, in the order they are clocked.
pub open spec fn plan_sent(plan: Seq<DmaJob>, write: Seq<u32>) -> Seq<u32>
    decreases plan.len(),
{
    if plan.len() == 0 {
        Seq::empty()
    } else {
        plan_sent(plan.drop_last(), write) + job_sent(plan.last(), write)
    }
}

/// The words a job stores into its slice of the read buffer when the `k`-th
/// clocked word is answered by `answers[k]` and `done` words were clocked
/// before the job: the answers to the words it clocks, or nothing for a
/// write-only job, which runs with autopush off.
pub open spec fn job_stored(job: DmaJob, answers: Seq<u32>, done: nat) -> Seq<u32> {
    match job {
        DmaJob::WriteOnly { .. } => Seq::empty(),
        _ => answers.subrange(done as int, (done + job.reads()) as int),
    }
}

/// The words a plan stores into the read buffer, in buffer order, when the
/// `k`-th clocked word is answered by `answers[k]`.
pub open spec fn plan_stored(plan: Seq<DmaJob>, answers: Seq<u32>) -> Seq<u32>
    decreases plan.len(),
{
    if plan.len() == 0 {
        Seq::empty()
    } else {
        plan_stored(plan.drop_last(), answers) + job_stored(plan.last(), answers, plan_clocks(plan.drop_last()))
    }
}

proof fn lemma_one_job_sums(a: DmaJob, write: Seq<u32>, answers: Seq<u32>)
    ensures
        plan_sent(seq![a], write) == job_sent(a, write),
        plan_stored(seq![a], answers) == job_stored(a, answers, 0),
        plan_clocks(seq![a]) == a.clocks(),
{
    let none = Seq::<DmaJob>::empty();
    assert(seq![a].drop_last() =~= none);
    assert(plan_sent(none, write) == Seq::<u32>::empty());
    assert(plan_stored(none, answers) == Seq::<u32>::empty());
    assert(plan_clocks(none) == 0);
    assert(plan_sent(seq![a], write) =~= job_sent(a, write));
    assert(plan_stored(seq![a], answers) =~= job_stored(a, answers, 0));
}

proof fn lemma_two_job_sums(a: DmaJob, b: DmaJob, write: Seq<u32>, answers: Seq<u32>)
    ensures
        plan_sent(seq![a, b], write) == job_sent(a, write) + job_sent(b, write),
        plan_stored(seq![a, b], answers) == job_stored(a, answers, 0) + job_stored(b, answers, a.clocks()),
{
    lemma_one_job_sums(a, write, answers);
    assert(seq![a, b].drop_last() =~= seq![a]);
    assert(seq![a, b].last() == b);
}

/// An asynchronous transfer sends, word for word, what the blocking transfer
/// of the same buffers frames into its TX entries; and when the clocked words
/// get the same answers, whatever they are, both store the same words: the
/// answers to the first `read_len` clocked words.
pub proof fn lemma_async_transfer_matches_blocking(
    read_len: usize,
    write: Seq<u32>,
    word_bytes: usize,
    answers: Seq<u32>,
)
    requires
        write.len() <= usize::MAX,
        answers.len() == ExchangeView::for_transfer(read_len as nat, write, word_bytes).tx.len(),
    ensures
        ({
            let v = ExchangeView::for_transfer(read_len as nat, write, word_bytes);
            let plan = spec_transfer_plan(read_len, write.len() as usize);
            &&& plan_sent(plan, write).len() == v.tx.len()
            &&& forall|i: int| 0 <= i < v.tx.len() ==> v.tx[i] == spec_frame(#[trigger] plan_sent(plan, write)[i], word_bytes)
            &&& plan_stored(plan, answers) == run_answered(v, answers).kept()
            &&& plan_stored(plan, answers) == answers.take(read_len as int)
        }),
{
    let v = ExchangeView::for_transfer(read_len as nat, write, word_bytes);
    let w = write.len() as usize;
    let plan = spec_transfer_plan(read_len, w);
    let num: usize = if read_len <= w { read_len } else { w };
    let first = DmaJob::Exchange { read_start: 0, read_end: num, write_start: 0, write_end: num };
    assert(v.rx =~= answers.take(0));
    lemma_run_answered_takes_answers(v, answers);
    assert(0u32 << (32 - 8 * word_bytes) as u32 == 0u32) by {
        let s: u32 = (32 - 8 * word_bytes) as u32;
        assert(0u32 << s == 0u32) by (bit_vector);
    }
    let sent = plan_sent(plan, write);
    let stored = plan_stored(plan, answers);
    if w > read_len {
        let second = DmaJob::WriteOnly { write_start: num, write_end: w };
        lemma_two_job_sums(first, second, write, answers);
        assert(sent =~= write);
        assert(stored =~= answers.take(read_len as int));
    } else if read_len > w {
        let second = DmaJob::ReadPadded { read_start: num, read_end: read_len, zeros: (read_len - w) as usize };
        lemma_two_job_sums(first, second, write, answers);
        assert(sent =~= write + Seq::new((read_len - w) as nat, |i: int| 0u32));
        assert(stored =~= answers.take(read_len as int));
    } else {
        lemma_one_job_sums(first, write, answers);
        assert(sent =~= write);
        assert(stored =~= answers.take(read_len as int));
    }
    assert forall|i: int| 0 <= i < v.tx.len() implies v.tx[i] == spec_frame(#[trigger] sent[i], word_bytes) by {
        if i >= write.len() {
            assert(sent[i] == 0u32);
        }
    }
}

/// An in-place asynchronous transfer sends what the blocking in-place
/// transfer does, and stores the same words for the same answers.
pub proof fn lemma_async_transfer_in_place_matches_blocking(words: Seq<u32>, word_bytes: usize, answers: Seq<u32>)
    requires
        words.len() <= usize::MAX,
        answers.len() == words.len(),
    ensures
        ({
            let v = ExchangeView::for_transfer_in_place(words, word_bytes);
            let plan = spec_transfer_in_place_plan(words.len() as usize);
            &&& plan_sent(plan, words).len() == v.tx.len()
            &&& forall|i: int| 0 <= i < v.tx.len() ==> v.tx[i] == spec_frame(#[trigger] plan_sent(plan, words)[i], word_bytes)
            &&& plan_stored(plan, answers) == run_answered(v, answers).kept()
            &&& plan_stored(plan, answers) == answers
        }),
{
    let len = words.len() as usize;
    crate::exchange::lemma_in_place_is_transfer(words, word_bytes);
    assert(spec_transfer_in_place_plan(len) =~= spec_transfer_plan(len, len));
    lemma_async_transfer_matches_blocking(len, words, word_bytes, answers);
    assert(answers.take(len as int) =~= answers);
}

/// An asynchronous read sends as many all-zero entries as the blocking read,
/// and for the same answers, whatever they are, both store the same words:
/// the answers themselves.
pub proof fn lemma_async_read_matches_blocking(len: usize, answers: Seq<u32>)
    requires
        answers.len() == len,
    ensures
        ({
            let v = ExchangeView::for_read(len as nat);
            let plan = spec_read_plan(len);
            &&& plan_sent(plan, Seq::empty()) == v.tx
            &&& plan_stored(plan, answers) == run_answered(v, answers).kept()
            &&& plan_stored(plan, answers) == answers
        }),
{
    let v = ExchangeView::for_read(len as nat);
    let plan = spec_read_plan(len);
    lemma_one_job_sums(plan[0], Seq::empty(), answers);
    assert(plan =~= seq![plan[0]]);
    assert(v.rx =~= answers.take(0));
    lemma_run_answered_takes_answers(v, answers);
    assert(plan_sent(plan, Seq::empty()) =~= v.tx);
    assert(plan_stored(plan, answers) =~= answers);
    assert(answers.take(len as int) =~= answers);
}

/// An asynchronous write sends, word for word, what the blocking write frames
/// into its TX entries, and, like the blocking write, stores nothing.
pub proof fn lemma_async_write_matches_blocking(words: Seq<u32>, word_bytes: usize, answers: Seq<u32>)
    requires
        words.len() <= usize::MAX,
        answers.len() == words.len(),
    ensures
        ({
            let v = ExchangeView::for_write(words, word_bytes);
            let plan = spec_write_plan(words.len() as usize);
            &&& plan_sent(plan, words) == words
            &&& forall|i: int| 0 <= i < v.tx.len() ==> v.tx[i] == spec_frame(#[trigger] plan_sent(plan, words)[i], word_bytes)
            &&& plan_stored(plan, answers) == run_answered(v, answers).kept()
            &&& plan_stored(plan, answers).len() == 0
        }),
{
    let v = ExchangeView::for_write(words, word_bytes);
    let plan = spec_write_plan(words.len() as usize);
    lemma_one_job_sums(plan[0], words, answers);
    assert(plan =~= seq![plan[0]]);
    assert(v.rx =~= answers.take(0));
    lemma_run_answered_takes_answers(v, answers);
    assert(plan_sent(plan, words) =~= words);
    assert(plan_stored(plan, answers) =~= run_answered(v, answers).kept());
}

// ---------------------------------------------------------------------------
// The steps that carry out a plan, and what they leave behind.

/// One step that the caller carries out on the state machine, its FIFOs and
/// its DMA channels. Ranges index the caller's read and write buffers.
#[derive(Clone, Copy, Debug, PartialEq, Eq, Structural)]
pub enum DmaStep {
    /// Turn automatic pushing of received words into the RX FIFO on or off.
    SetAutopush(bool),
    /// By DMA, pull `read[read_start..read_end]` from the RX FIFO while
    /// pushing `write[write_start..write_end]` to the TX FIFO; wait for both.
    PullWhilePushing { read_start: usize, read_end: usize, write_start: usize, write_end: usize },
    /// By DMA, pull `read[read_start..read_end]` from the RX FIFO while
    /// pushing `zeros` all-zero entries; wait for both.
    PullWhilePushingZeros { read_start: usize, read_end: usize, zeros: usize },
    /// By DMA, push `write[write_start..write_end]` to the TX FIFO and wait.
    Push { write_start: usize, write_end: usize },
    /// Read the TX-stall flag, which clears it.
    ClearStall,
    /// Wait until the state machine stalls on an empty TX FIFO.
    WaitStall,
    /// Restart the state machine, which clears its shift counters.
    Restart,
}

/// The steps of one job. A write-only job turns autopush off, pushes its
/// words, clears the stall flag, waits for the state machine to stall on
/// the empty TX FIFO, restarts it and turns autopush back on.
pub open spec fn spec_job_steps(job: DmaJob) -> Seq<DmaStep> {
    match job {
        DmaJob::Exchange { read_start, read_end, write_start, write_end } => seq![
            DmaStep::PullWhilePushing { read_start, read_end, write_start, write_end },
        ],
        DmaJob::ReadPadded { read_start, read_end, zeros } => seq![
            DmaStep::PullWhilePushingZeros { read_start, read_end, zeros },
        ],
        DmaJob::WriteOnly { write_start, write_end } => seq![
            DmaStep::SetAutopush(false),
            DmaStep::Push { write_start, write_end },
            DmaStep::ClearStall,
            DmaStep::WaitStall,
            DmaStep::Restart,
            DmaStep::SetAutopush(true),
        ],
    }
}

/// The steps of a plan: the steps of its jobs, one job after the other.
pub open spec fn spec_plan_steps(plan: Seq<DmaJob>) -> Seq<DmaStep>
    decreases plan.len(),
{
    if plan.len() == 0 {
        Seq::empty()
    } else {
        spec_plan_steps(plan.drop_last()) + spec_job_steps(plan.last())
    }
}

/// The steps of one job.
pub fn job_steps(job: DmaJob) -> (steps: Vec<DmaStep>)
    ensures
        steps@ == spec_job_steps(job),
{
    let mut steps: Vec<DmaStep> = Vec::new();
    match job {
        DmaJob::Exchange { read_start, read_end, write_start, write_end } => {
            steps.push(DmaStep::PullWhilePushing { read_start, read_end, write_start, write_end });
        },
        DmaJob::ReadPadded { read_start, read_end, zeros } => {
            steps.push(DmaStep::PullWhilePushingZeros { read_start, read_end, zeros });
        },
        DmaJob::WriteOnly { write_start, write_end } => {
            steps.push(DmaStep::SetAutopush(false));
            steps.push(DmaStep::Push { write_start, write_end });
            steps.push(DmaStep::ClearStall);
            steps.push(DmaStep::WaitStall);
            steps.push(DmaStep::Restart);
            steps.push(DmaStep::SetAutopush(true));
        },
    }
    assert(steps@ =~= spec_job_steps(job));
    steps
}

/// The steps that carry out `plan`, in order.
pub fn plan_steps(plan: &Vec<DmaJob>) -> (steps: Vec<DmaStep>)
    ensures
        steps@ == spec_plan_steps(plan@),
{
    let mut steps: Vec<DmaStep> = Vec::new();
    let mut k: usize = 0;
    while k < plan.len()
        invariant
            k <= plan@.len(),
            steps@ == spec_plan_steps(plan@.take(k as int)),
        decreases plan.len() - k,
    {
        let mut more = job_steps(plan[k]);
        proof {
            let next = plan@.take(k + 1);
            assert(next.drop_last() =~= plan@.take(k as int));
            assert(next.last() == plan@[k as int]);
        }
        steps.append(&mut more);
        k = k + 1;
    }
    assert(plan@.take(plan@.len() as int) =~= plan@);
    steps
}

/// What the steps of an asynchronous operation leave behind in the state
/// machine.
pub struct BusState {
    /// Whether received words are pushed to the RX FIFO.
    pub autopush: bool,
    /// Entries waiting in the RX FIFO.
    pub rx_entries: nat,
    /// The input shift register holds no bits of an unpushed word.
    pub isr_clean: bool,
    /// Every pushed word has been shifted out.
    pub tx_drained: bool,
}

/// The state between operations: autopush on, the RX FIFO empty, no partial
/// word in the input shift register, nothing left to send.
pub open spec fn idle_bus() -> BusState {
    BusState { autopush: true, rx_entries: 0, isr_clean: true, tx_drained: true }
}

/// The state after `pushed` words are clocked while `pulled` RX entries are
/// taken by DMA, or `None` where the DMA pull would wait forever for an
/// entry that never comes. With autopush on, every clocked word brings one
/// RX entry; with it off, the bits stay in the input shift register.
pub open spec fn clock_words(s: BusState, pushed: nat, pulled: nat) -> Option<BusState> {
    let produced: nat = if s.autopush { pushed } else { 0 };
    if pulled > s.rx_entries + produced {
        None
    } else if pushed == 0 {
        Some(BusState { rx_entries: (s.rx_entries - pulled) as nat, ..s })
    } else {
        Some(BusState {
            rx_entries: (s.rx_entries + produced - pulled) as nat,
            isr_clean: s.isr_clean && s.autopush,
            tx_drained: s.autopush && pulled == s.rx_entries + produced,
            ..s
        })
    }
}

/// The state after one step, or `None` where the step would never finish.
pub open spec fn after_step(s: BusState, step: DmaStep) -> Option<BusState> {
    match step {
        DmaStep::SetAutopush(on) => Some(BusState { autopush: on, ..s }),
        DmaStep::PullWhilePushing { read_start, read_end, write_start, write_end } =>
            if read_start <= read_end && write_start <= write_end {
                clock_words(s, (write_end - write_start) as nat, (read_end - read_start) as nat)
            } else {
                None
            },
        DmaStep::PullWhilePushingZeros { read_start, read_end, zeros } =>
            if read_start <= read_end {
                clock_words(s, zeros as nat, (read_end - read_start) as nat)
            } else {
                None
            },
        DmaStep::Push { write_start, write_end } =>
            if write_start <= write_end {
                clock_words(s, (write_end - write_start) as nat, 0)
            } else {
                None
            },
        DmaStep::ClearStall => Some(s),
        DmaStep::WaitStall => Some(BusState { tx_drained: true, ..s }),
        DmaStep::Restart => Some(BusState { isr_clean: true, ..s }),
    }
}

/// The state after a sequence of steps, or `None` where one never finishes.
pub open spec fn after_steps(s: BusState, steps: Seq<DmaStep>) -> Option<BusState>
    decreases steps.len(),
{
    if steps.len() == 0 {
        Some(s)
    } else {
        match after_steps(s, steps.drop_last()) {
            Some(t) => after_step(t, steps.last()),
            None => None,
        }
    }
}

proof fn lemma_after_steps_append(s: BusState, a: Seq<DmaStep>, b: Seq<DmaStep>)
    ensures
        after_steps(s, a + b) == match after_steps(s, a) {
            Some(t) => after_steps(t, b),
            None => None,
        },
    decreases b.len(),
{
    if b.len() == 0 {
        assert(a + b =~= a);
    } else {
        assert((a + b).drop_last() =~= a + b.drop_last());
        assert((a + b).last() == b.last());
        lemma_after_steps_append(s, a, b.drop_last());
    }
}

/// From the idle state, the steps of a balanced job all finish and lead
/// back to the idle state.
proof fn lemma_job_returns_to_idle(job: DmaJob)
    requires
        job.balanced(),
    ensures
        after_steps(idle_bus(), spec_job_steps(job)) == Some(idle_bus()),
{
    let steps = spec_job_steps(job);
    reveal_with_fuel(after_steps, 7);
    match job {
        DmaJob::WriteOnly { .. } => {
            assert(steps.drop_last().drop_last().drop_last().drop_last().drop_last().drop_last() =~= Seq::<DmaStep>::empty());
        },
        _ => {
            assert(steps.drop_last() =~= Seq::<DmaStep>::empty());
        },
    }
}

/// A plan of balanced jobs, carried out from the idle state, never waits
/// forever and leaves the bus idle: autopush on, nothing left in the RX FIFO
/// or the input shift register, every word sent. The next operation starts
/// from the same state.
pub proof fn lemma_balanced_plan_returns_to_idle(plan: Seq<DmaJob>)
    requires
        forall|k: int| 0 <= k < plan.len() ==> (#[trigger] plan[k]).balanced(),
    ensures
        after_steps(idle_bus(), spec_plan_steps(plan)) == Some(idle_bus()),
    decreases plan.len(),
{
    if plan.len() > 0 {
        let prev = plan.drop_last();
        assert forall|k: int| 0 <= k < prev.len() implies (#[trigger] prev[k]).balanced() by {
            assert(prev[k] == plan[k]);
        }
        lemma_balanced_plan_returns_to_idle(prev);
        assert(plan.last() == plan[plan.len() - 1]);
        lemma_job_returns_to_idle(plan.last());
        lemma_after_steps_append(idle_bus(), spec_plan_steps(prev), spec_job_steps(plan.last()));
    }
}

/// Every asynchronous operation leaves the bus as it found it when idle, so
/// a later operation sees no stale RX entry and runs with autopush on.
pub proof fn lemma_operations_return_to_idle(read_len: usize, write_len: usize)
    ensures
        after_steps(idle_bus(), spec_plan_steps(spec_transfer_plan(read_len, write_len))) == Some(idle_bus()),
        after_steps(idle_bus(), spec_plan_steps(spec_read_plan(read_len))) == Some(idle_bus()),
        after_steps(idle_bus(), spec_plan_steps(spec_write_plan(write_len))) == Some(idle_bus()),
        after_steps(idle_bus(), spec_plan_steps(spec_transfer_in_place_plan(read_len))) == Some(idle_bus()),
{
    lemma_transfer_plan_covers(read_len, write_len);
    let t = spec_transfer_plan(read_len, write_len);
    assert forall|k: int| 0 <= k < t.len() implies (#[trigger] t[k]).balanced() by {}
    lemma_balanced_plan_returns_to_idle(t);
    lemma_balanced_plan_returns_to_idle(spec_read_plan(read_len));
    lemma_balanced_plan_returns_to_idle(spec_write_plan(write_len));
    lemma_balanced_plan_returns_to_idle(spec_transfer_in_place_plan(read_len));
}

// ---------------------------------------------------------------------------
// What carrying out the steps does to the caller's buffers.

/// The data side of the bus while steps are carried out.
pub struct DataState {
    /// The read buffer.
    pub read: Seq<u32>,
    /// Every word sent so far, in clock order (before the hardware aligns
    /// it in the TX FIFO).
    pub sent: Seq<u32>,
    /// Entries waiting in the RX FIFO, oldest first.
    pub rx: Seq<u32>,
    /// Whether received words are pushed to the RX FIFO.
    pub autopush: bool,
}

/// The state before an operation: nothing sent, nothing waiting, autopush on.
pub open spec fn data_start(read: Seq<u32>) -> DataState {
    DataState { read, sent: Seq::empty(), rx: Seq::empty(), autopush: true }
}

/// Clocks `words` onto the bus: the `k`-th word ever clocked gets the answer
/// `answers[k]`, which enters the RX FIFO if autopush is on.
pub open spec fn clock_out(st: DataState, words: Seq<u32>, answers: Seq<u32>) -> Option<DataState> {
    let start = st.sent.len();
    if start + words.len() > answers.len() {
        None
    } else {
        let got = if st.autopush { answers.subrange(start as int, (start + words.len()) as int) } else { Seq::empty() };
        Some(DataState { sent: st.sent + words, rx: st.rx + got, ..st })
    }
}

/// Pulls RX entries, oldest first, into `read[start..end]`; `None` where the
/// range is not in the buffer or the entries never come.
pub open spec fn pull_into(st: DataState, start: int, end: int) -> Option<DataState> {
    if !(0 <= start <= end <= st.read.len()) || end - start > st.rx.len() {
        None
    } else {
        Some(DataState {
            read: Seq::new(st.read.len(), |i: int| if start <= i < end { st.rx[i - start] } else { st.read[i] }),
            rx: st.rx.subrange(end - start, st.rx.len() as int),
            ..st
        })
    }
}

/// The slice `write[start..end]`, if it is one.
pub open spec fn write_slice(write: Seq<u32>, start: usize, end: usize) -> Option<Seq<u32>> {
    if start <= end && end <= write.len() { Some(write.subrange(start as int, end as int)) } else { None }
}

/// What one step does to the buffers and FIFOs; `None` where it never finishes
/// or indexes outside a buffer.
pub open spec fn carry_step(st: DataState, step: DmaStep, write: Seq<u32>, answers: Seq<u32>) -> Option<DataState> {
    match step {
        DmaStep::SetAutopush(on) => Some(DataState { autopush: on, ..st }),
        DmaStep::PullWhilePushing { read_start, read_end, write_start, write_end } =>
            match write_slice(write, write_start, write_end) {
                Some(words) => match clock_out(st, words, answers) {
                    Some(t) => pull_into(t, read_start as int, read_end as int),
                    None => None,
                },
                None => None,
            },
        DmaStep::PullWhilePushingZeros { read_start, read_end, zeros } =>
            match clock_out(st, Seq::new(zeros as nat, |i: int| 0u32), answers) {
                Some(t) => pull_into(t, read_start as int, read_end as int),
                None => None,
            },
        DmaStep::Push { write_start, write_end } =>
            match write_slice(write, write_start, write_end) {
                Some(words) => clock_out(st, words, answers),
                None => None,
            },
        DmaStep::ClearStall => Some(st),
        DmaStep::WaitStall => Some(st),
        DmaStep::Restart => Some(st),
    }
}

/// What a sequence of steps does, one after the other.
pub open spec fn carry_out(st: DataState, steps: Seq<DmaStep>, write: Seq<u32>, answers: Seq<u32>) -> Option<DataState>
    decreases steps.len(),
{
    if steps.len() == 0 {
        Some(st)
    } else {
        match carry_out(st, steps.drop_last(), write, answers) {
            Some(t) => carry_step(t, steps.last(), write, answers),
            None => None,
        }
    }
}

proof fn lemma_carry_out_append(st: DataState, a: Seq<DmaStep>, b: Seq<DmaStep>, write: Seq<u32>, answers: Seq<u32>)
    ensures
        carry_out(st, a + b, write, answers) == match carry_out(st, a, write, answers) {
            Some(t) => carry_out(t, b, write, answers),
            None => None,
        },
    decreases b.len(),
{
    if b.len() == 0 {
        assert(a + b =~= a);
    } else {
        assert((a + b).drop_last() =~= a + b.drop_last());
        assert((a + b).last() == b.last());
        lemma_carry_out_append(st, a, b.drop_last(), write, answers);
    }
}

proof fn lemma_plan_steps_one(a: DmaJob)
    ensures
        spec_plan_steps(seq![a]) == spec_job_steps(a),
{
    assert(seq![a].drop_last() =~= Seq::<DmaJob>::empty());
    assert(spec_plan_steps(Seq::<DmaJob>::empty()) == Seq::<DmaStep>::empty());
    assert(spec_plan_steps(seq![a]) =~= spec_job_steps(a));
}

proof fn lemma_plan_steps_two(a: DmaJob, b: DmaJob)
    ensures
        spec_plan_steps(seq![a, b]) == spec_job_steps(a) + spec_job_steps(b),
{
    lemma_plan_steps_one(a);
    assert(seq![a, b].drop_last() =~= seq![a]);
    assert(seq![a, b].last() == b);
}

/// The read buffer after `read[start..start + n]` takes the answers to the
/// `n` words clocked from position `at`.
pub open spec fn stored_at(read: Seq<u32>, start: int, n: int, answers: Seq<u32>, at: int) -> Seq<u32> {
    Seq::new(read.len(), |i: int| if start <= i < start + n { answers[at + i - start] } else { read[i] })
}

/// A pull-while-pushing job run with autopush on and an empty RX FIFO stores
/// the answers to the words it clocks into its read range and sends its
/// slice of the write buffer.
proof fn lemma_exchange_job(
    st: DataState,
    read_start: usize,
    read_end: usize,
    write_start: usize,
    write_end: usize,
    write: Seq<u32>,
    answers: Seq<u32>,
)
    requires
        read_start <= read_end <= st.read.len(),
        write_start <= write_end <= write.len(),
        read_end - read_start == write_end - write_start,
        st.sent.len() + (write_end - write_start) <= answers.len(),
        st.autopush,
        st.rx.len() == 0,
    ensures
        carry_out(
            st,
            spec_job_steps(DmaJob::Exchange { read_start, read_end, write_start, write_end }),
            write,
            answers,
        ) == Some(DataState {
            read: stored_at(st.read, read_start as int, read_end - read_start, answers, st.sent.len() as int),
            sent: st.sent + write.subrange(write_start as int, write_end as int),
            ..st
        }),
{
    let steps = spec_job_steps(DmaJob::Exchange { read_start, read_end, write_start, write_end });
    assert(steps.drop_last() =~= Seq::<DmaStep>::empty());
    assert(carry_out(st, Seq::<DmaStep>::empty(), write, answers) == Some(st));
    let words = write.subrange(write_start as int, write_end as int);
    assert(write_slice(write, write_start, write_end) == Some(words));
    let t = clock_out(st, words, answers).unwrap();
    assert(clock_out(st, words, answers) == Some(t));
    assert(t.rx.len() == read_end - read_start);
    let u = pull_into(t, read_start as int, read_end as int).unwrap();
    assert(pull_into(t, read_start as int, read_end as int) == Some(u));
    assert(carry_out(st, steps, write, answers) == Some(u));
    assert(u.read =~= stored_at(st.read, read_start as int, read_end - read_start, answers, st.sent.len() as int));
    assert(u.rx =~= st.rx);
}

/// A pull-while-pushing-zeros job run with autopush on and an empty RX FIFO
/// stores the answers to its zeros into its read range and sends the zeros.
proof fn lemma_read_padded_job(
    st: DataState,
    read_start: usize,
    read_end: usize,
    zeros: usize,
    write: Seq<u32>,
    answers: Seq<u32>,
)
    requires
        read_start <= read_end <= st.read.len(),
        read_end - read_start == zeros,
        st.sent.len() + zeros <= answers.len(),
        st.autopush,
        st.rx.len() == 0,
    ensures
        carry_out(st, spec_job_steps(DmaJob::ReadPadded { read_start, read_end, zeros }), write, answers)
            == Some(DataState {
                read: stored_at(st.read, read_start as int, zeros as int, answers, st.sent.len() as int),
                sent: st.sent + Seq::new(zeros as nat, |i: int| 0u32),
                ..st
            }),
{
    let steps = spec_job_steps(DmaJob::ReadPadded { read_start, read_end, zeros });
    assert(steps.drop_last() =~= Seq::<DmaStep>::empty());
    assert(carry_out(st, Seq::<DmaStep>::empty(), write, answers) == Some(st));
    let t = clock_out(st, Seq::new(zeros as nat, |i: int| 0u32), answers).unwrap();
    assert(clock_out(st, Seq::new(zeros as nat, |i: int| 0u32), answers) == Some(t));
    assert(t.rx.len() == zeros);
    let u = pull_into(t, read_start as int, read_end as int).unwrap();
    assert(pull_into(t, read_start as int, read_end as int) == Some(u));
    assert(carry_out(st, steps, write, answers) == Some(u));
    assert(u.read =~= stored_at(st.read, read_start as int, zeros as int, answers, st.sent.len() as int));
    assert(u.rx =~= st.rx);
}

/// A write-only job sends its slice of the write buffer, stores nothing,
/// leaves nothing in the RX FIFO and turns autopush back on.
proof fn lemma_write_only_job(st: DataState, write_start: usize, write_end: usize, write: Seq<u32>, answers: Seq<u32>)
    requires
        write_start <= write_end <= write.len(),
        st.sent.len() + (write_end - write_start) <= answers.len(),
        st.autopush,
    ensures
        carry_out(st, spec_job_steps(DmaJob::WriteOnly { write_start, write_end }), write, answers)
            == Some(DataState { sent: st.sent + write.subrange(write_start as int, write_end as int), ..st }),
{
    let steps = spec_job_steps(DmaJob::WriteOnly { write_start, write_end });
    reveal_with_fuel(carry_out, 7);
    assert(steps.drop_last().drop_last().drop_last().drop_last().drop_last().drop_last() =~= Seq::<DmaStep>::empty());
    let words = write.subrange(write_start as int, write_end as int);
    let s1 = DataState { autopush: false, ..st };
    let s2 = clock_out(s1, words, answers).unwrap();
    assert(s2.rx =~= st.rx);
}

/// Carrying out an asynchronous transfer sends the write buffer and then
/// zeros up to the longer buffer's length, stores into `read[i]` the answer
/// to the `i`-th clocked word for every `i` of the read buffer, whatever the
/// buffer held before, and leaves nothing in the RX FIFO and autopush on.
pub proof fn lemma_async_transfer_stores_answers(read: Seq<u32>, write: Seq<u32>, answers: Seq<u32>)
    requires
        read.len() <= usize::MAX,
        write.len() <= usize::MAX,
        answers.len() == if read.len() >= write.len() { read.len() } else { write.len() },
    ensures
        carry_out(
            data_start(read),
            spec_plan_steps(spec_transfer_plan(read.len() as usize, write.len() as usize)),
            write,
            answers,
        ) == Some(DataState {
            read: answers.take(read.len() as int),
            sent: write + Seq::new((answers.len() - write.len()) as nat, |i: int| 0u32),
            rx: Seq::empty(),
            autopush: true,
        }),
{
    let r = read.len() as usize;
    let w = write.len() as usize;
    let num: usize = if r <= w { r } else { w };
    let first = DmaJob::Exchange { read_start: 0, read_end: num, write_start: 0, write_end: num };
    let st = data_start(read);
    lemma_exchange_job(st, 0, num, 0, num, write, answers);
    let s1 = DataState {
        read: stored_at(read, 0, num as int, answers, 0),
        sent: write.subrange(0, num as int),
        ..st
    };
    assert(st.sent + write.subrange(0, num as int) =~= write.subrange(0, num as int));
    if w > r {
        let second = DmaJob::WriteOnly { write_start: num, write_end: w };
        lemma_plan_steps_two(first, second);
        lemma_carry_out_append(st, spec_job_steps(first), spec_job_steps(second), write, answers);
        lemma_write_only_job(s1, num, w, write, answers);
        assert(s1.read =~= answers.take(r as int));
        assert(s1.sent + write.subrange(num as int, w as int) =~= write + Seq::new((answers.len() - write.len()) as nat, |i: int| 0u32));
    } else if r > w {
        let second = DmaJob::ReadPadded { read_start: num, read_end: r, zeros: (r - w) as usize };
        lemma_plan_steps_two(first, second);
        lemma_carry_out_append(st, spec_job_steps(first), spec_job_steps(second), write, answers);
        lemma_read_padded_job(s1, num, r, (r - w) as usize, write, answers);
        assert(stored_at(s1.read, num as int, (r - w) as int, answers, num as int) =~= answers.take(r as int));
        assert(s1.sent + Seq::new((r - w) as nat, |i: int| 0u32) =~= write + Seq::new((answers.len() - write.len()) as nat, |i: int| 0u32));
    } else {
        lemma_plan_steps_one(first);
        assert(s1.read =~= answers.take(r as int));
        assert(s1.sent =~= write + Seq::new((answers.len() - write.len()) as nat, |i: int| 0u32));
    }
}

/// Carrying out an asynchronous read clocks one all-zero word per buffer
/// word and stores into `read[i]` the answer to the `i`-th, whatever the
/// buffer held before; nothing is left in the RX FIFO and autopush is on.
pub proof fn lemma_async_read_stores_answers(read: Seq<u32>, answers: Seq<u32>)
    requires
        read.len() <= usize::MAX,
        answers.len() == read.len(),
    ensures
        carry_out(data_start(read), spec_plan_steps(spec_read_plan(read.len() as usize)), Seq::empty(), answers)
            == Some(DataState {
                read: answers,
                sent: Seq::new(read.len(), |i: int| 0u32),
                rx: Seq::empty(),
                autopush: true,
            }),
{
    let n = read.len() as usize;
    let job = DmaJob::ReadPadded { read_start: 0, read_end: n, zeros: n };
    lemma_plan_steps_one(job);
    lemma_read_padded_job(data_start(read), 0, n, n, Seq::empty(), answers);
    assert(stored_at(read, 0, n as int, answers, 0) =~= answers);
    assert(Seq::<u32>::empty() + Seq::new(n as nat, |i: int| 0u32) =~= Seq::new(read.len(), |i: int| 0u32));
}

/// Carrying out an asynchronous write sends the words in order and leaves
/// the read side untouched: the buffer as it was, nothing in the RX FIFO,
/// autopush on.
pub proof fn lemma_async_write_sends_words(read: Seq<u32>, write: Seq<u32>, answers: Seq<u32>)
    requires
        write.len() <= usize::MAX,
        answers.len() == write.len(),
    ensures
        carry_out(data_start(read), spec_plan_steps(spec_write_plan(write.len() as usize)), write, answers)
            == Some(DataState { read, sent: write, rx: Seq::empty(), autopush: true }),
{
    let job = DmaJob::WriteOnly { write_start: 0, write_end: write.len() as usize };
    lemma_plan_steps_one(job);
    lemma_write_only_job(data_start(read), 0, write.len() as usize, write, answers);
    assert(Seq::<u32>::empty() + write.subrange(0, write.len() as int) =~= write);
}

/// Carrying out an asynchronous in-place transfer sends the words and
/// stores into each position the answer to the word clocked there.
pub proof fn lemma_async_in_place_stores_answers(words: Seq<u32>, answers: Seq<u32>)
    requires
        words.len() <= usize::MAX,
        answers.len() == words.len(),
    ensures
        carry_out(data_start(words), spec_plan_steps(spec_transfer_in_place_plan(words.len() as usize)), words, answers)
            == Some(DataState { read: answers, sent: words, rx: Seq::empty(), autopush: true }),
{
    let n = words.len() as usize;
    let job = DmaJob::Exchange { read_start: 0, read_end: n, write_start: 0, write_end: n };
    lemma_plan_steps_one(job);
    lemma_exchange_job(data_start(words), 0, n, 0, n, words, answers);
    assert(stored_at(words, 0, n as int, answers, 0) =~= answers);
    assert(Seq::<u32>::empty() + words.subrange(0, n as int) =~= words);
}

} // verus!
