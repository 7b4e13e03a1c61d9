//! The resilient network sink: a bounded queue that drops rather than blocks,
//! and the reconnect protocol of the worker that empties it onto the wire.

use vstd::prelude::*;
use vstd::string::StringSliceAdditionalSpecFns;

verus! {

/// Chunks the queue between producer and worker can hold.
pub const QUEUE_CAPACITY: usize = 2;

/// Seconds the worker waits before it connects again after a failure.
pub const RETRY_DELAY_SECS: u64 = 1;

/// The bytes a source sends on connect: the `SOURCE` request line for the
/// mount point, the basic-authorization header with the credential, the
/// content type, and the empty line that ends the headers.
pub open spec fn handshake_bytes(mountpoint: Seq<u8>, credential: Seq<u8>) -> Seq<u8> {
    "SOURCE ".spec_bytes() + mountpoint + " HTTP/1.1\r\n".spec_bytes()
        + "Authorization: Basic ".spec_bytes() + credential + "\r\n".spec_bytes()
        + "Content-Type: audio/mpeg\r\n".spec_bytes() + "\r\n".spec_bytes()
}

fn append(out: &mut Vec<u8>, bytes: &[u8])
    ensures
        final(out)@ == old(out)@ + bytes@,
{
    let ghost before = out@;
    let n: usize = bytes.len();
    let mut k: usize = 0;
    while k < n
        invariant
            n == bytes@.len(),
            k <= n,
            out@ == before + bytes@.subrange(0, k as int),
        decreases n - k,
    {
        out.push(bytes[k]);
        k += 1;
        assert(out@ =~= before + bytes@.subrange(0, k as int));
    }
    assert(bytes@.subrange(0, n as int) =~= bytes@);
}

/// Builds the request a source opens its connection with.
pub fn handshake(mountpoint: &str, credential: &str) -> (request: Vec<u8>)
    ensures
        request@ == handshake_bytes(mountpoint.spec_bytes(), credential.spec_bytes()),
{
    let mut request: Vec<u8> = Vec::new();
    append(&mut request, "SOURCE ".as_bytes());
    append(&mut request, mountpoint.as_bytes());
    append(&mut request, " HTTP/1.1\r\n".as_bytes());
    append(&mut request, "Authorization: Basic ".as_bytes());
    append(&mut request, credential.as_bytes());
    append(&mut request, "\r\n".as_bytes());
    append(&mut request, "Content-Type: audio/mpeg\r\n".as_bytes());
    append(&mut request, "\r\n".as_bytes());
    assert(request@ =~= handshake_bytes(mountpoint.spec_bytes(), credential.spec_bytes()));
    request
}

/// The producer's end of a resilient sink, with the queue it shares with the
/// worker. Chunks wait in the queue in the order they were written.
pub struct SourceStream {
    remote: String,
    mountpoint: String,
    queue: Vec<Vec<u8>>,
    open: bool,
}

/// What the queue holds after one more chunk is offered: the chunk is added
/// behind the others while there is room, and dropped when the queue is full.
pub open spec fn offered(pending: Seq<Seq<u8>>, chunk: Seq<u8>) -> Seq<Seq<u8>> {
    if pending.len() < QUEUE_CAPACITY {
        pending.push(chunk)
    } else {
        pending
    }
}

impl SourceStream {
    /// The chunks waiting for the worker, oldest first.
    pub closed spec fn pending(&self) -> Seq<Seq<u8>> {
        Seq::new(self.queue@.len(), |i: int| self.queue@[i]@)
    }

    /// Whether the producer may still write.
    pub closed spec fn is_open(&self) -> bool {
        self.open
    }

    /// Address of the streaming endpoint.
    pub closed spec fn spec_remote(&self) -> Seq<char> {
        self.remote@
    }

    /// Mount point the stream is published under.
    pub closed spec fn spec_mountpoint(&self) -> Seq<char> {
        self.mountpoint@
    }

    /// The queue never holds more than its capacity.
    pub open spec fn well_formed(&self) -> bool {
        self.pending().len() <= QUEUE_CAPACITY
    }

    /// An open sink for the endpoint and mount point, with nothing queued.
    pub fn new(remote: &str, mountpoint: &str) -> (stream: Self)
        ensures
            stream.well_formed(),
            stream.is_open(),
            stream.pending() == Seq::<Seq<u8>>::empty(),
            stream.spec_remote() == remote@,
            stream.spec_mountpoint() == mountpoint@,
    {
        let stream = SourceStream {
            remote: remote.to_owned(),
            mountpoint: mountpoint.to_owned(),
            queue: Vec::new(),
            open: true,
        };
        assert(stream.pending() =~= Seq::<Seq<u8>>::empty());
        stream
    }

    /// Address of the streaming endpoint.
    pub fn remote(&self) -> (r: &str)
        ensures
            r@ == self.spec_remote(),
    {
        self.remote.as_str()
    }

    /// Mount point the stream is published under.
    pub fn mountpoint(&self) -> (m: &str)
        ensures
            m@ == self.spec_mountpoint(),
    {
        self.mountpoint.as_str()
    }

    /// Whether the producer may still write.
    pub fn accepts_writes(&self) -> (open: bool)
        ensures
            open == self.is_open(),
    {
        self.open
    }

    /// Number of chunks waiting for the worker.
    pub fn queued(&self) -> (n: usize)
        ensures
            n == self.pending().len(),
    {
        self.queue.len()
    }

    /// Offers a chunk to the worker without ever waiting: a copy of the
    /// bytes is queued while there is room and silently dropped when the
    /// queue is full. Either way the whole chunk is reported as written.
    pub fn write(&mut self, data: &[u8]) -> (written: usize)
        requires
            old(self).well_formed(),
        ensures
            final(self).well_formed(),
            written == data@.len(),
            final(self).pending() == offered(old(self).pending(), data@),
            final(self).is_open() == old(self).is_open(),
            final(self).spec_remote() == old(self).spec_remote(),
            final(self).spec_mountpoint() == old(self).spec_mountpoint(),
    {
        if self.queue.len() < QUEUE_CAPACITY {
            let mut chunk: Vec<u8> = Vec::new();
            append(&mut chunk, data);
            self.queue.push(chunk);
            assert(self.pending() =~= old(self).pending().push(data@));
        }
        data.len()
    }

    /// Does nothing: the sink streams in real time and keeps no bytes back.
    pub fn flush(&mut self)
        ensures
            *final(self) == *old(self),
    {
    }

    /// Marks the producer's end as closed. What is queued stays queued.
    pub fn close(&mut self)
        ensures
            !final(self).is_open(),
            final(self).pending() == old(self).pending(),
            final(self).well_formed() == old(self).well_formed(),
            final(self).spec_remote() == old(self).spec_remote(),
            final(self).spec_mountpoint() == old(self).spec_mountpoint(),
    {
        self.open = false;
    }

    /// Discards everything that waits in the queue and returns how many
    /// chunks that were.
    pub fn drain(&mut self) -> (discarded: usize)
        ensures
            final(self).well_formed(),
            discarded == old(self).pending().len(),
            final(self).pending() == Seq::<Seq<u8>>::empty(),
            final(self).is_open() == old(self).is_open(),
            final(self).spec_remote() == old(self).spec_remote(),
            final(self).spec_mountpoint() == old(self).spec_mountpoint(),
    {
        let discarded = self.queue.len();
        self.queue.clear();
        assert(self.pending() =~= Seq::<Seq<u8>>::empty());
        discarded
    }

    /// Takes the oldest waiting chunk out of the queue, if there is one.
    pub fn take(&mut self) -> (chunk: Option<Vec<u8>>)
        requires
            old(self).well_formed(),
        ensures
            final(self).well_formed(),
            final(self).is_open() == old(self).is_open(),
            final(self).spec_remote() == old(self).spec_remote(),
            final(self).spec_mountpoint() == old(self).spec_mountpoint(),
            old(self).pending().len() == 0 ==> {
                &&& chunk is None
                &&& final(self).pending() == old(self).pending()
            },
            old(self).pending().len() > 0 ==> {
                &&& chunk matches Some(bytes)
                &&& bytes@ == old(self).pending()[0]
                &&& final(self).pending() == old(self).pending().drop_first()
            },
    {
        if self.queue.len() == 0 {
            None
        } else {
            let bytes = self.queue.remove(0);
            assert(self.pending() =~= old(self).pending().drop_first());
            Some(bytes)
        }
    }
}

/// Where the worker stands in its protocol.
#[derive(Debug, Clone, Copy, PartialEq, Eq, Structural)]
pub enum WorkerState {
    /// No connection; a connection attempt is under way or due.
    Connecting,
    /// Connected; chunks are taken from the queue and sent.
    Streaming,
    /// The producer is gone; the worker has exited.
    Finished,
}

/// What the worker's surroundings report to it.
#[derive(Debug, Clone, Copy, PartialEq, Eq, Structural)]
pub enum WorkerEvent {
    /// The connection is open and the handshake was sent.
    Connected,
    /// Connecting, or sending the handshake, failed.
    ConnectFailed,
    /// The queue may hold something, or the producer may be gone.
    Woken,
    /// The last chunk went out.
    Sent,
    /// The last chunk could not be written.
    SendFailed,
}

/// What the worker's surroundings are to do next.
#[derive(Debug, PartialEq, Eq)]
pub enum WorkerAction {
    /// Open the connection and send the handshake.
    Connect,
    /// Wait `RETRY_DELAY_SECS`, then open the connection and send the
    /// handshake.
    SleepThenConnect,
    /// Write these bytes to the connection.
    Send(Vec<u8>),
    /// Block until a chunk is queued or the producer is gone.
    Wait,
    /// Leave the worker's loop.
    Exit,
}

/// State and first action of a worker.
pub fn worker_start() -> (first: (WorkerState, WorkerAction))
    ensures
        first.0 == WorkerState::Connecting,
        first.1 is Connect,
{
    (WorkerState::Connecting, WorkerAction::Connect)
}

/// The state a worker is in after `event`, given the queue and the
/// producer's end as they were before.
pub open spec fn next_state(
    state: WorkerState,
    event: WorkerEvent,
    pending: Seq<Seq<u8>>,
    open: bool,
) -> WorkerState {
    match state {
        WorkerState::Finished => WorkerState::Finished,
        WorkerState::Connecting => match event {
            WorkerEvent::Connected => if open {
                WorkerState::Streaming
            } else {
                WorkerState::Finished
            },
            _ => WorkerState::Connecting,
        },
        WorkerState::Streaming => match event {
            WorkerEvent::SendFailed => WorkerState::Connecting,
            WorkerEvent::Woken | WorkerEvent::Sent => if pending.len() == 0 && !open {
                WorkerState::Finished
            } else {
                WorkerState::Streaming
            },
            _ => WorkerState::Streaming,
        },
    }
}

/// What waits in the queue after `event`: a fresh connection discards all of
/// it, a streaming worker that is ready for more takes the oldest chunk, and
/// nothing else touches it.
pub open spec fn next_pending(
    state: WorkerState,
    event: WorkerEvent,
    pending: Seq<Seq<u8>>,
) -> Seq<Seq<u8>> {
    match (state, event) {
        (WorkerState::Connecting, WorkerEvent::Connected) => Seq::empty(),
        (WorkerState::Streaming, WorkerEvent::Woken) | (WorkerState::Streaming, WorkerEvent::Sent) => {
            if pending.len() > 0 {
                pending.drop_first()
            } else {
                pending
            }
        },
        _ => pending,
    }
}

/// One decision of the worker. While connecting: a failure asks for another
/// attempt after the retry delay; success discards whatever was queued while
/// there was no connection, then waits for fresh chunks, or exits if the
/// producer is gone. While streaming: a worker that is ready for more sends
/// the oldest queued chunk, waits if none is queued, or exits if none is
/// queued and the producer is gone; a failed write asks for a new connection
/// after the retry delay. A finished worker stays finished. An event the
/// state does not await changes nothing and repeats the state's request.
pub fn worker_step(stream: &mut SourceStream, state: WorkerState, event: WorkerEvent) -> (next: (
    WorkerState,
    WorkerAction,
))
    requires
        old(stream).well_formed(),
    ensures
        final(stream).well_formed(),
        final(stream).is_open() == old(stream).is_open(),
        final(stream).spec_remote() == old(stream).spec_remote(),
        final(stream).spec_mountpoint() == old(stream).spec_mountpoint(),
        final(stream).pending() == next_pending(state, event, old(stream).pending()),
        next.0 == next_state(state, event, old(stream).pending(), old(stream).is_open()),
        match state {
            WorkerState::Finished => next.1 is Exit,
            WorkerState::Connecting => match event {
                WorkerEvent::Connected => if old(stream).is_open() {
                    next.1 is Wait
                } else {
                    next.1 is Exit
                },
                WorkerEvent::ConnectFailed => next.1 is SleepThenConnect,
                _ => next.1 is Connect,
            },
            WorkerState::Streaming => match event {
                WorkerEvent::SendFailed => next.1 is SleepThenConnect,
                WorkerEvent::Woken | WorkerEvent::Sent => if old(stream).pending().len() > 0 {
                    &&& next.1 matches WorkerAction::Send(bytes)
                    &&& bytes@ == old(stream).pending()[0]
                } else if old(stream).is_open() {
                    next.1 is Wait
                } else {
                    next.1 is Exit
                },
                _ => next.1 is Wait,
            },
        },
{
    match state {
        WorkerState::Finished => (WorkerState::Finished, WorkerAction::Exit),
        WorkerState::Connecting => match event {
            WorkerEvent::Connected => {
                stream.drain();
                if stream.open {
                    (WorkerState::Streaming, WorkerAction::Wait)
                } else {
                    (WorkerState::Finished, WorkerAction::Exit)
                }
            },
            WorkerEvent::ConnectFailed => (WorkerState::Connecting, WorkerAction::SleepThenConnect),
            _ => (WorkerState::Connecting, WorkerAction::Connect),
        },
        WorkerState::Streaming => match event {
            WorkerEvent::SendFailed => (WorkerState::Connecting, WorkerAction::SleepThenConnect),
            WorkerEvent::Woken | WorkerEvent::Sent => {
                match stream.take() {
                    Some(bytes) => (WorkerState::Streaming, WorkerAction::Send(bytes)),
                    None => if stream.open {
                        (WorkerState::Streaming, WorkerAction::Wait)
                    } else {
                        (WorkerState::Finished, WorkerAction::Exit)
                    },
                }
            },
            _ => (WorkerState::Streaming, WorkerAction::Wait),
        },
    }
}

/// However full the queue is, a worker that has just connected starts with
/// an empty one: nothing written before the connection stood is ever sent.
pub proof fn lemma_connect_discards_backlog(pending: Seq<Seq<u8>>)
    ensures
        next_pending(WorkerState::Connecting, WorkerEvent::Connected, pending).len() == 0,
{
}

/// A full queue takes no further chunk: whatever is offered, it holds what it
/// held. A queue with room holds the offered chunk last.
pub proof fn lemma_offer(pending: Seq<Seq<u8>>, chunk: Seq<u8>)
    requires
        pending.len() <= QUEUE_CAPACITY,
    ensures
        offered(pending, chunk).len() <= QUEUE_CAPACITY,
        pending.len() == QUEUE_CAPACITY ==> offered(pending, chunk) == pending,
        pending.len() < QUEUE_CAPACITY ==> offered(pending, chunk).last() == chunk && offered(
            pending,
            chunk,
        ).drop_last() == pending,
{
    if pending.len() < QUEUE_CAPACITY {
        assert(pending.push(chunk).drop_last() =~= pending);
    }
}

} // verus!
