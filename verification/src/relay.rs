//! The decision logic of a writer that hands its output to a background
//! worker.
//!
//! A producer holds a [`BufferedWriter`]. Every buffer it accepts is copied
//! and put on an ordered, unbounded channel. A single [`Worker`] takes the
//! buffers off the channel in the order they were put there, writes each to
//! the destination, flushes the destination once the channel is closed and
//! empty, and ends with the first failure it met, if any.
//!
//! Nothing here touches a channel, a thread or a destination. The handle and
//! the worker say what is to be done next; whoever drives them does it and
//! reports back. [`Session`] puts the two together with a model of the
//! channel, and the laws at the end of this file hold of every order in
//! which producer and worker may take their turns.

use vstd::prelude::*;

verus! {

/// Where the worker stands.
#[derive(Clone, Copy, Debug, PartialEq, Eq, Structural)]
pub enum Stage {
    /// Waiting for the next buffer, or for the channel to close.
    Receiving,
    /// A buffer is on its way to the destination.
    Writing,
    /// The channel is closed and empty; the destination is being flushed.
    Flushing,
    /// The worker has ended.
    Finished,
}

/// What the driver reports to the worker.
#[derive(Debug, PartialEq, Eq)]
pub enum Event<E> {
    /// What came off the channel: a buffer, or nothing once the channel is
    /// closed and empty.
    Received(Option<Vec<u8>>),
    /// How writing the last buffer went.
    Wrote(Result<(), E>),
    /// How flushing went.
    Flushed(Result<(), E>),
}

/// What the worker asks its driver to do next.
#[derive(Debug, PartialEq, Eq)]
pub enum Action<E> {
    /// Wait for the next buffer.
    Receive,
    /// Write the whole of this buffer to the destination.
    Write(Vec<u8>),
    /// Flush the destination.
    Flush,
    /// End, with this result.
    Finish(Result<(), E>),
}

/// An [`Event`] as a plain value.
pub enum Signal<E> {
    Received(Option<Seq<u8>>),
    Wrote(Result<(), E>),
    Flushed(Result<(), E>),
}

/// An [`Action`] as a plain value.
pub enum Order<E> {
    Receive,
    Write(Seq<u8>),
    Flush,
    Finish(Result<(), E>),
}

impl<E> View for Event<E> {
    type V = Signal<E>;

    open spec fn view(&self) -> Signal<E> {
        match *self {
            Event::Received(Some(buf)) => Signal::Received(Some(buf@)),
            Event::Received(None) => Signal::Received(None),
            Event::Wrote(r) => Signal::Wrote(r),
            Event::Flushed(r) => Signal::Flushed(r),
        }
    }
}

impl<E> View for Action<E> {
    type V = Order<E>;

    open spec fn view(&self) -> Order<E> {
        match *self {
            Action::Receive => Order::Receive,
            Action::Write(buf) => Order::Write(buf@),
            Action::Flush => Order::Flush,
            Action::Finish(r) => Order::Finish(r),
        }
    }
}

/// All that has happened to a worker so far.
pub struct Progress<E> {
    pub stage: Stage,
    /// The buffers taken off the channel, oldest first.
    pub received: Seq<Seq<u8>>,
    /// The buffers that the destination has taken whole, oldest first.
    pub written: Seq<Seq<u8>>,
    /// Whether the worker has seen the channel closed and empty.
    pub closed: bool,
    /// Whether the destination has been flushed.
    pub flushed: bool,
    /// The result the worker ended with.
    pub outcome: Option<Result<(), E>>,
}

impl<E> Progress<E> {
    /// A worker that has just been started.
    pub open spec fn start() -> Progress<E> {
        Progress {
            stage: Stage::Receiving,
            received: Seq::empty(),
            written: Seq::empty(),
            closed: false,
            flushed: false,
            outcome: None,
        }
    }

    /// Whether `signal` is what a worker at this stage waits for.
    pub open spec fn expects(self, signal: Signal<E>) -> bool {
        match signal {
            Signal::Received(_) => self.stage == Stage::Receiving,
            Signal::Wrote(_) => self.stage == Stage::Writing,
            Signal::Flushed(_) => self.stage == Stage::Flushing,
        }
    }

    /// The worker after `signal`. A signal that the worker does not wait
    /// for leaves it as it is.
    pub open spec fn step(self, signal: Signal<E>) -> Progress<E> {
        if !self.expects(signal) {
            self
        } else {
            match signal {
                Signal::Received(Some(buf)) => Progress {
                    stage: Stage::Writing,
                    received: self.received.push(buf),
                    ..self
                },
                Signal::Received(None) => Progress { stage: Stage::Flushing, closed: true, ..self },
                Signal::Wrote(Ok(_)) => Progress {
                    stage: Stage::Receiving,
                    written: self.written.push(self.received.last()),
                    ..self
                },
                Signal::Wrote(Err(e)) => Progress {
                    stage: Stage::Finished,
                    outcome: Some(Err(e)),
                    ..self
                },
                Signal::Flushed(r) => Progress {
                    stage: Stage::Finished,
                    flushed: r is Ok,
                    outcome: Some(r),
                    ..self
                },
            }
        }
    }

    /// What the worker asks for in answer to a `signal` that it waits for.
    pub open spec fn order(self, signal: Signal<E>) -> Order<E> {
        match signal {
            Signal::Received(Some(buf)) => Order::Write(buf),
            Signal::Received(None) => Order::Flush,
            Signal::Wrote(Ok(_)) => Order::Receive,
            Signal::Wrote(Err(e)) => Order::Finish(Err(e)),
            Signal::Flushed(r) => Order::Finish(r),
        }
    }

    /// The bytes that the destination has taken, in the order it took them.
    pub open spec fn delivered(self) -> Seq<u8> {
        self.written.flatten()
    }

    /// What holds of a worker at every moment.
    pub open spec fn wf(self) -> bool {
        match self.stage {
            Stage::Receiving => {
                &&& self.written == self.received
                &&& !self.closed
                &&& !self.flushed
                &&& self.outcome is None
            },
            Stage::Writing => {
                &&& self.received.len() > 0
                &&& self.written == self.received.drop_last()
                &&& !self.closed
                &&& !self.flushed
                &&& self.outcome is None
            },
            Stage::Flushing => {
                &&& self.written == self.received
                &&& self.closed
                &&& !self.flushed
                &&& self.outcome is None
            },
            Stage::Finished => {
                &&& self.outcome is Some
                &&& self.flushed <==> (self.outcome matches Some(Ok(_)))
                &&& self.closed ==> self.written == self.received
                &&& !self.closed ==> {
                    &&& self.outcome->0 is Err
                    &&& self.received.len() > 0
                    &&& self.written == self.received.drop_last()
                }
            },
        }
    }
}

/// The consumer's side: decides what is done with the destination, and when.
pub struct Worker<E> {
    stage: Stage,
    progress: Ghost<Progress<E>>,
}

impl<E> View for Worker<E> {
    type V = Progress<E>;

    closed spec fn view(&self) -> Progress<E> {
        self.progress@
    }
}

impl<E> Worker<E> {
    /// What holds of every worker that this module hands out.
    pub closed spec fn wf(&self) -> bool {
        &&& self.progress@.wf()
        &&& self.progress@.stage == self.stage
    }

    /// A worker that waits for its first buffer: its driver starts with
    /// [`Action::Receive`].
    pub fn new() -> (w: Worker<E>)
        ensures
            w.wf(),
            w@ == Progress::<E>::start(),
    {
        Worker { stage: Stage::Receiving, progress: Ghost(Progress::start()) }
    }

    /// Where the worker stands.
    pub fn stage(&self) -> (s: Stage)
        requires
            self.wf(),
        ensures
            s == self@.stage,
    {
        self.stage
    }

    /// Whether `event` is what the worker waits for.
    pub fn expects(&self, event: &Event<E>) -> (b: bool)
        requires
            self.wf(),
        ensures
            b == self@.expects(event@),
    {
        match event {
            Event::Received(_) => matches!(self.stage, Stage::Receiving),
            Event::Wrote(_) => matches!(self.stage, Stage::Writing),
            Event::Flushed(_) => matches!(self.stage, Stage::Flushing),
        }
    }

    /// Takes in what the driver reports and says what to do next.
    ///
    /// A buffer that came off the channel is to be written, as it is. After
    /// a write that went well the next buffer is awaited; after one that
    /// failed the worker ends with that failure, and asks for no further
    /// write nor for a flush. Once the channel is closed and empty the
    /// destination is flushed, and the worker ends with what the flush gave.
    pub fn step(&mut self, event: Event<E>) -> (action: Action<E>)
        requires
            old(self).wf(),
            old(self)@.expects(event@),
        ensures
            final(self).wf(),
            final(self)@ == old(self)@.step(event@),
            action@ == old(self)@.order(event@),
    {
        let ghost before = self.progress@;
        let ghost signal = event@;
        match event {
            Event::Received(Some(buf)) => {
                self.stage = Stage::Writing;
                self.progress = Ghost(before.step(signal));
                assert(before.received.push(buf@).drop_last() =~= before.received);
                Action::Write(buf)
            },
            Event::Received(None) => {
                self.stage = Stage::Flushing;
                self.progress = Ghost(before.step(signal));
                Action::Flush
            },
            Event::Wrote(Ok(_)) => {
                self.stage = Stage::Receiving;
                self.progress = Ghost(before.step(signal));
                assert(before.received.drop_last().push(before.received.last())
                    =~= before.received);
                Action::Receive
            },
            Event::Wrote(Err(e)) => {
                self.stage = Stage::Finished;
                self.progress = Ghost(before.step(signal));
                Action::Finish(Err(e))
            },
            Event::Flushed(r) => {
                self.stage = Stage::Finished;
                self.progress = Ghost(before.step(signal));
                Action::Finish(r)
            },
        }
    }
}

/// What a producer's handle stands for.
pub struct Handle {
    /// Whether the channel is still open at the producer's end.
    pub open: bool,
    /// The buffers accepted so far, oldest first.
    pub accepted: Seq<Seq<u8>>,
}

impl Handle {
    /// A handle that has just been made.
    pub open spec fn start() -> Handle {
        Handle { open: true, accepted: Seq::empty() }
    }

    /// The handle after it has been offered `bytes`: an open handle
    /// accepts them, a closed one takes nothing.
    pub open spec fn accept(self, bytes: Seq<u8>) -> Handle {
        if self.open {
            Handle { accepted: self.accepted.push(bytes), ..self }
        } else {
            self
        }
    }

    /// The handle after it has been disposed of.
    pub open spec fn dispose(self) -> Handle {
        Handle { open: false, ..self }
    }
}

/// The producer's side: accepts bytes and never waits for the destination.
pub struct BufferedWriter {
    open: bool,
    accepted: Ghost<Seq<Seq<u8>>>,
}

impl View for BufferedWriter {
    type V = Handle;

    closed spec fn view(&self) -> Handle {
        Handle { open: self.open, accepted: self.accepted@ }
    }
}

impl BufferedWriter {
    /// A handle with an open channel, and the one worker that serves it.
    /// The worker is to be started at once, on a thread of its own, with
    /// the receiving end of the channel and the destination.
    pub fn new<E>() -> (pair: (BufferedWriter, Worker<E>))
        ensures
            pair.0@ == Handle::start(),
            pair.1.wf(),
            pair.1@ == Progress::<E>::start(),
    {
        (BufferedWriter { open: true, accepted: Ghost(Seq::empty()) }, Worker::new())
    }

    /// Accepts `buf`: returns how many bytes were accepted, and the copy
    /// that is to be put on the channel.
    ///
    /// An open handle accepts all of `buf`, whatever the worker and the
    /// destination are doing. A handle that has been disposed of accepts
    /// nothing and has nothing to put on the channel.
    pub fn write(&mut self, buf: &[u8]) -> (r: (usize, Option<Vec<u8>>))
        ensures
            final(self)@ == old(self)@.accept(buf@),
            old(self)@.open ==> r.0 == buf@.len(),
            old(self)@.open ==> (r.1 matches Some(copy) && copy@ == buf@),
            !old(self)@.open ==> r.0 == 0 && r.1 is None,
    {
        if self.open {
            let copy = vstd::slice::slice_to_vec(buf);
            self.accepted = Ghost(self.accepted@.push(buf@));
            (buf.len(), Some(copy))
        } else {
            (0, None)
        }
    }

    /// Does nothing: what has been accepted reaches the destination, and
    /// the destination is flushed, by the time the worker has ended.
    pub fn flush(&mut self)
        ensures
            final(self)@ == old(self)@,
    {
    }

    /// Disposes of the handle. Returns whether the caller is now to close
    /// the channel and then wait for the worker to end, and to raise the
    /// failure that the worker ended with, if it ended with one.
    ///
    /// That is so the first time only: a handle is disposed of once, and a
    /// failure is raised once.
    pub fn dispose(&mut self) -> (join: bool)
        ensures
            final(self)@ == old(self)@.dispose(),
            join == old(self)@.open,
    {
        let join = self.open;
        self.open = false;
        join
    }
}

/// One turn of the producer, of the channel or of the destination.
pub enum Move<E> {
    /// The producer offers these bytes to the handle.
    Accept(Seq<u8>),
    /// The producer disposes of the handle, which closes the channel.
    Dispose,
    /// The producer, having disposed of the handle, finds that the worker
    /// has ended, and is told what it ended with.
    Join,
    /// The worker, waiting, is handed what the channel has for it: the
    /// oldest buffer, or word that the channel is closed and empty.
    Deliver,
    /// The destination has answered a write.
    Wrote(Result<(), E>),
    /// The destination has answered a flush.
    Flushed(Result<(), E>),
}

/// A handle, its worker and the channel between them.
pub struct Session<E> {
    pub handle: Handle,
    /// The buffers on the channel, oldest first.
    pub queue: Seq<Seq<u8>>,
    pub worker: Progress<E>,
    /// What the producer was told when it had disposed of the handle and
    /// waited for the worker.
    pub reported: Option<Result<(), E>>,
}

impl<E> Session<E> {
    /// A session that has just begun.
    pub open spec fn start() -> Session<E> {
        Session {
            handle: Handle::start(),
            queue: Seq::empty(),
            worker: Progress::start(),
            reported: None,
        }
    }

    /// The session after one move. A move that cannot be made as things
    /// stand leaves the session as it is: a delivery to a worker that is
    /// not waiting, or while the channel is open and empty; an answer that
    /// nobody waits for; the end of a wait for a worker that has not ended,
    /// or by a producer that has not disposed of the handle, or that has
    /// been told already.
    pub open spec fn next(self, mv: Move<E>) -> Session<E> {
        match mv {
            Move::Accept(bytes) => if self.handle.open {
                Session {
                    handle: self.handle.accept(bytes),
                    queue: self.queue.push(bytes),
                    ..self
                }
            } else {
                self
            },
            Move::Dispose => Session { handle: self.handle.dispose(), ..self },
            Move::Join => if !self.handle.open && self.worker.stage == Stage::Finished
                && self.reported is None {
                Session { reported: self.worker.outcome, ..self }
            } else {
                self
            },
            Move::Deliver => if self.worker.stage != Stage::Receiving {
                self
            } else if self.queue.len() > 0 {
                Session {
                    queue: self.queue.drop_first(),
                    worker: self.worker.step(Signal::Received(Some(self.queue.first()))),
                    ..self
                }
            } else if !self.handle.open {
                Session { worker: self.worker.step(Signal::Received(None)), ..self }
            } else {
                self
            },
            Move::Wrote(r) => Session { worker: self.worker.step(Signal::Wrote(r)), ..self },
            Move::Flushed(r) => Session { worker: self.worker.step(Signal::Flushed(r)), ..self },
        }
    }

    /// The session after all of `moves`, taken in order.
    pub open spec fn run(moves: Seq<Move<E>>) -> Session<E>
        decreases moves.len(),
    {
        if moves.len() == 0 {
            Session::start()
        } else {
            Session::run(moves.drop_last()).next(moves.last())
        }
    }

    /// What holds of a session at every moment: the worker has received,
    /// in order, what was accepted and is no longer on the channel; it has
    /// seen the channel closed only if the handle was disposed of and the
    /// channel was empty; and the producer was told nothing but what the
    /// worker ended with, after the handle was disposed of.
    pub open spec fn inv(self) -> bool {
        &&& self.worker.wf()
        &&& self.handle.accepted == self.worker.received + self.queue
        &&& self.worker.closed ==> !self.handle.open && self.queue.len() == 0
        &&& self.reported is Some ==> {
            &&& !self.handle.open
            &&& self.worker.stage == Stage::Finished
            &&& self.reported == self.worker.outcome
        }
    }
}

/// Every move keeps a session in order.
pub proof fn lemma_next_keeps_inv<E>(s: Session<E>, mv: Move<E>)
    requires
        s.inv(),
    ensures
        s.next(mv).inv(),
{
    let t = s.next(mv);
    match mv {
        Move::Accept(bytes) => {
            if s.handle.open {
                assert(t.handle.accepted =~= t.worker.received + t.queue);
            }
        },
        Move::Dispose => {},
        Move::Join => {},
        Move::Deliver => {
            if s.worker.stage == Stage::Receiving && s.queue.len() > 0 {
                assert(t.handle.accepted =~= t.worker.received + t.queue);
                assert(t.worker.received.drop_last() =~= s.worker.received);
            }
        },
        Move::Wrote(r) => {
            if s.worker.stage == Stage::Writing {
                match r {
                    Ok(_) => {
                        assert(s.worker.received.drop_last().push(s.worker.received.last())
                            =~= s.worker.received);
                    },
                    Err(_) => {},
                }
            }
        },
        Move::Flushed(r) => {},
    }
}

/// A session is in order after any moves.
pub proof fn lemma_run_inv<E>(moves: Seq<Move<E>>)
    ensures
        Session::run(moves).inv(),
    decreases moves.len(),
{
    if moves.len() == 0 {
        assert(Session::<E>::start().handle.accepted =~= Session::<E>::start().worker.received
            + Session::<E>::start().queue);
    } else {
        lemma_run_inv(moves.drop_last());
        lemma_next_keeps_inv(Session::run(moves.drop_last()), moves.last());
    }
}

/// A worker that has ended stays as it is, and what the producer was told
/// stays what it was told, whatever moves follow.
pub proof fn lemma_end_is_final<E>(moves: Seq<Move<E>>, more: Seq<Move<E>>)
    ensures
        Session::run(moves).worker.stage == Stage::Finished ==> Session::run(moves + more).worker
            == Session::run(moves).worker,
        Session::run(moves).reported is Some ==> Session::run(moves + more).reported
            == Session::run(moves).reported,
    decreases more.len(),
{
    if more.len() == 0 {
        assert(moves + more =~= moves);
    } else {
        lemma_end_is_final(moves, more.drop_last());
        assert((moves + more).drop_last() =~= moves + more.drop_last());
        assert((moves + more).last() == more.last());
    }
}

/// Ordering. At every moment the destination has taken buffers that the
/// handle accepted, in the order it accepted them, with none left out, none
/// twice and none changed. Once the worker has ended without a failure the
/// destination has taken all of them: its bytes are those of the accepted
/// buffers, one after the other.
pub proof fn law_order_kept<E>(moves: Seq<Move<E>>)
    ensures
        ({
            let s = Session::run(moves);
            &&& s.worker.written.len() <= s.handle.accepted.len()
            &&& s.worker.written == s.handle.accepted.take(s.worker.written.len() as int)
            &&& (s.worker.outcome matches Some(Ok(_))) ==> {
                &&& s.worker.written == s.handle.accepted
                &&& s.worker.delivered() == s.handle.accepted.flatten()
            }
        }),
{
    lemma_run_inv(moves);
    let s = Session::run(moves);
    assert(s.worker.written.len() <= s.worker.received.len());
    assert(s.worker.written =~= s.handle.accepted.take(s.worker.written.len() as int));
    if s.worker.outcome matches Some(Ok(_)) {
        assert(s.worker.received + s.queue =~= s.worker.received);
    }
}

/// Completion. The producer that disposes of its handle is told how things
/// went only once the worker has ended. If it is told that all went well,
/// then every buffer that was ever accepted has been taken whole by the
/// destination, the channel is empty and the destination has been flushed;
/// and nothing is accepted afterwards.
pub proof fn law_told_after_delivery<E>(moves: Seq<Move<E>>, more: Seq<Move<E>>)
    ensures
        ({
            let s = Session::run(moves);
            let later = Session::run(moves + more);
            &&& s.reported is Some ==> {
                &&& s.worker.stage == Stage::Finished
                &&& s.reported == s.worker.outcome
                &&& !s.handle.open
                &&& later.handle.accepted == s.handle.accepted
                &&& later.worker == s.worker
            }
            &&& (s.reported matches Some(Ok(_))) ==> {
                &&& s.queue.len() == 0
                &&& s.worker.written == s.handle.accepted
                &&& s.worker.delivered() == s.handle.accepted.flatten()
                &&& s.worker.flushed
            }
        }),
{
    lemma_run_inv(moves);
    law_order_kept(moves);
    lemma_end_is_final(moves, more);
    lemma_closed_accepts_nothing(moves, more);
}

/// A handle that has been disposed of stays so, and accepts nothing more.
pub proof fn lemma_closed_accepts_nothing<E>(moves: Seq<Move<E>>, more: Seq<Move<E>>)
    ensures
        !Session::run(moves).handle.open ==> Session::run(moves + more).handle == Session::run(
            moves,
        ).handle,
    decreases more.len(),
{
    if more.len() == 0 {
        assert(moves + more =~= moves);
    } else {
        lemma_closed_accepts_nothing(moves, more.drop_last());
        assert((moves + more).drop_last() =~= moves + more.drop_last());
        assert((moves + more).last() == more.last());
    }
}

/// Failure. When the destination fails a write, the worker ends with that
/// failure: the buffers written before it are all that the destination ever
/// takes, they are the first of those accepted, and the destination is not
/// flushed. The producer is told of that failure and of nothing else, and
/// is told once: what it was told stays as it is whatever moves follow, and
/// a handle that has been disposed of asks for no second wait.
pub proof fn law_failure_ends_writing<E>(moves: Seq<Move<E>>, failure: E, more: Seq<Move<E>>)
    requires
        Session::run(moves).worker.stage == Stage::Writing,
    ensures
        ({
            let before = Session::run(moves);
            let failed = Session::run(moves.push(Move::Wrote(Err(failure))));
            let after = Session::run(moves.push(Move::Wrote(Err(failure))) + more);
            &&& failed.worker.outcome == Some(Err::<(), E>(failure))
            &&& failed.worker.written == before.worker.written
            &&& failed.worker.written == failed.handle.accepted.take(
                failed.worker.written.len() as int,
            )
            &&& !failed.worker.flushed
            &&& after.worker == failed.worker
            &&& after.reported is Some ==> after.reported == Some(Err::<(), E>(failure))
            &&& forall|last: Seq<Move<E>>|
                after.reported is Some ==> (#[trigger] Session::run(
                    moves.push(Move::Wrote(Err(failure))) + more + last,
                )).reported == after.reported
            &&& !after.handle.dispose().open
            &&& after.handle.dispose().dispose() == after.handle.dispose()
        }),
{
    let failing = moves.push(Move::Wrote(Err(failure)));
    assert(failing.drop_last() =~= moves);
    assert(failing.last() == Move::Wrote(Err::<(), E>(failure)));
    lemma_run_inv(moves);
    law_order_kept(failing);
    lemma_end_is_final(failing, more);
    lemma_run_inv(failing + more);
    assert forall|last: Seq<Move<E>>| Session::run(failing + more).reported is Some implies (
    #[trigger] Session::run(failing + more + last)).reported == Session::run(
        failing + more,
    ).reported by {
        lemma_end_is_final(failing + more, last);
    }
}

} // verus!
