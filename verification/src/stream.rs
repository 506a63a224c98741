use vstd::prelude::*;
use crate::utils::{Command, command_byte};
use crate::session::{UploadPlan, DownloadPlan, download_outcome, download_read};
use crate::exchange::{
    Exchange, write_run, run_outcome, outcome, since, extends, taken_total, chained, pieces,
    all_took, all_hold, lemma_log_grows, lemma_write_step, lemma_run_ends, lemma_all_took_drop_last,
};

verus! {

/// A byte connection that a [`Stream`] sends over. Implement it for a socket.
pub trait NetStream {
    /// Hands a prefix of `buf` to the connection and says how long it was.
    fn write(&mut self, buf: &[u8]) -> (r: Result<usize, String>)
        ensures
            r matches Ok(n) ==> n <= buf@.len(),
    ;

    /// Fills a prefix of `buf` with received bytes and says how long it is.
    fn read(&mut self, buf: &mut [u8]) -> (r: Result<usize, String>)
        ensures
            final(buf)@.len() == old(buf)@.len(),
            r matches Ok(n) ==> n <= old(buf)@.len(),
    ;

    /// The size of the connection's send buffer.
    fn write_buffer_size(&self) -> Result<usize, String>;

    /// The size of the connection's receive buffer.
    fn read_buffer_size(&self) -> Result<usize, String>;
}

/// A connection's answer to one read or write: the count of bytes, or the
/// text of its error.
pub open spec fn answer(r: Result<usize, String>) -> Result<usize, Seq<char>> {
    match r {
        Ok(n) => Ok(n),
        Err(e) => Err(e@),
    }
}

/// What a stream's read makes of the connection's answer: a read of nothing
/// is the error "Zero Read", any other answer stands.
pub open spec fn checked_read(a: Result<usize, Seq<char>>) -> Result<usize, Seq<char>> {
    match a {
        Ok(0) => Err("Zero Read"@),
        _ => a,
    }
}

/// The exchange `e` is a call that the connection really answered so: a call
/// on the connection as it was before, with these arguments, of which the
/// connection's contract holds with that answer.
pub open spec fn net_made<N: NetStream>(e: Exchange<N>) -> bool {
    match e {
        Exchange::Write { before, offered, after, answer } => exists|m: &mut N, b: &[u8]|
            mut_ref_current(m) == before && b@ == offered && call_ensures(N::write, (m, b), answer),
        Exchange::Read { before, given, after, filled, answer } => exists|m: &mut N, bm: &mut [u8]|
            mut_ref_current(m) == before && bm@ == given && call_ensures(N::read, (m, bm), answer),
    }
}

/// Being a call that was really made, as a predicate.
pub open spec fn made_pred<N: NetStream>() -> spec_fn(Exchange<N>) -> bool {
    |e: Exchange<N>| net_made(e)
}

/// Every exchange of `es` was really made.
pub open spec fn all_made<N: NetStream>(es: Seq<Exchange<N>>) -> bool {
    all_hold(es, made_pred::<N>())
}

/// A connection with the operations that the speed test needs.
///
/// A stream keeps, as ghost state, the bytes that the connection took from its
/// writes, the bytes that its reads delivered, and every call it made on the
/// connection with the connection's answer.
pub struct Stream<N: NetStream> {
    net: N,
    sent: Ghost<Seq<u8>>,
    received: Ghost<Seq<u8>>,
    log: Ghost<Seq<Exchange<N>>>,
}

impl<N: NetStream> Stream<N> {
    /// The connection underneath.
    pub closed spec fn connection(&self) -> N {
        self.net
    }

    /// The bytes that the connection took from this stream's writes so far.
    pub closed spec fn sent(&self) -> Seq<u8> {
        self.sent@
    }

    /// The bytes that this stream's reads delivered so far.
    pub closed spec fn received(&self) -> Seq<u8> {
        self.received@
    }

    /// The calls this stream made on its connection so far, in order.
    pub closed spec fn log(&self) -> Seq<Exchange<N>> {
        self.log@
    }

    /// Wraps a connection; nothing is sent or received yet.
    pub fn new(net: N) -> (s: Stream<N>)
        ensures
            s.connection() == net,
            s.sent() == Seq::<u8>::empty(),
            s.received() == Seq::<u8>::empty(),
            s.log() == Seq::<Exchange<N>>::empty(),
    {
        Stream {
            net,
            sent: Ghost(Seq::empty()),
            received: Ghost(Seq::empty()),
            log: Ghost(Seq::empty()),
        }
    }

    /// The size of the connection's send buffer, as the connection reports it.
    pub fn write_buffer_size(&self) -> (r: Result<usize, String>)
        ensures
            call_ensures(N::write_buffer_size, (&self.connection(),), r),
    {
        self.net.write_buffer_size()
    }

    /// The size of the connection's receive buffer, as the connection reports it.
    pub fn read_buffer_size(&self) -> (r: Result<usize, String>)
        ensures
            call_ensures(N::read_buffer_size, (&self.connection(),), r),
    {
        self.net.read_buffer_size()
    }

    /// Reads once into `buf`, the whole of it offered to the connection. A read
    /// of nothing is the error "Zero Read"; any other answer is the result.
    pub fn read(&mut self, buf: &mut [u8]) -> (r: Result<usize, String>)
        ensures
            final(buf)@.len() == old(buf)@.len(),
            final(self).sent() == old(self).sent(),
            final(self).log() == old(self).log().push(
                Exchange::Read {
                    before: old(self).connection(),
                    given: old(buf)@,
                    after: final(self).connection(),
                    filled: final(buf)@,
                    answer: final(self).log().last().reply(),
                },
            ),
            net_made(final(self).log().last()),
            answer(r) == checked_read(answer(final(self).log().last().reply())),
            match r {
                Ok(n) => 1 <= n <= old(buf)@.len() && final(self).received() == old(self).received()
                    + final(buf)@.take(n as int),
                Err(_) => final(self).received() == old(self).received(),
            },
    {
        let ghost before = self.net;
        let ghost given = buf@;
        let r = self.net.read(buf);
        if let Ok(n) = r {
            self.received = Ghost(self.received@ + buf@.take(n as int));
        }
        self.log = Ghost(
            self.log@.push(
                Exchange::Read { before, given, after: self.net, filled: buf@, answer: r },
            ),
        );
        proof {
            reveal_strlit("Zero Read");
        }
        match r {
            Ok(0) => Err(String::from_str("Zero Read")),
            Ok(n) => Ok(n),
            Err(e) => Err(e),
        }
    }

    /// Hands `buf` to the connection with one write; the result is the
    /// connection's answer, passed on unchanged.
    pub fn write(&mut self, buf: &[u8]) -> (r: Result<usize, String>)
        ensures
            final(self).received() == old(self).received(),
            final(self).log() == old(self).log().push(
                Exchange::Write {
                    before: old(self).connection(),
                    offered: buf@,
                    after: final(self).connection(),
                    answer: r,
                },
            ),
            net_made(final(self).log().last()),
            match r {
                Ok(n) => n <= buf@.len() && final(self).sent() == old(self).sent() + buf@.take(
                    n as int,
                ),
                Err(_) => final(self).sent() == old(self).sent(),
            },
    {
        let ghost before = self.net;
        let r = self.net.write(buf);
        if let Ok(n) = r {
            self.sent = Ghost(self.sent@ + buf@.take(n as int));
        }
        self.log = Ghost(
            self.log@.push(Exchange::Write { before, offered: buf@, after: self.net, answer: r }),
        );
        r
    }

    /// Writes the whole of `buf`, each write offered what the ones before did
    /// not take. Stops at the first error, which is the result, or with
    /// "failed to write" when a write takes nothing.
    pub fn write_all(&mut self, buf: &[u8]) -> (r: Result<(), String>)
        ensures
            final(self).received() == old(self).received(),
            extends(final(self).log(), old(self).log()),
            write_run(
                since(final(self).log(), old(self).log()),
                buf@,
                old(self).connection(),
                final(self).connection(),
            ),
            all_made(since(final(self).log(), old(self).log())),
            since(final(self).log(), old(self).log()).len() <= buf@.len(),
            outcome(r) == run_outcome(
                since(final(self).log(), old(self).log()),
                "failed to write"@,
                Seq::<char>::empty(),
            ),
            final(self).sent() == old(self).sent() + buf@.take(
                taken_total(since(final(self).log(), old(self).log())) as int,
            ),
            r is Ok ==> final(self).sent() == old(self).sent() + buf@,
            r is Err ==> exists|k: int|
                0 <= k < buf@.len() && final(self).sent() == old(self).sent() + buf@.take(k),
            buf@.len() == 0 ==> r is Ok && *final(self) == *old(self),
    {
        let size: usize = buf.len();
        let mut sent: usize = 0;
        let ghost es: Seq<Exchange<N>> = Seq::empty();
        proof {
            assert(old(self).log() + es =~= old(self).log());
        }
        while sent < size
            invariant
                size == buf@.len(),
                sent <= size,
                self.received() == old(self).received(),
                self.sent() == old(self).sent() + buf@.take(sent as int),
                self.log() == old(self).log() + es,
                chained(es, old(self).connection(), self.connection()),
                pieces(es, buf@),
                all_took(es),
                all_made(es),
                taken_total(es) == sent,
                size == 0 ==> *self == *old(self),
            decreases size - sent,
        {
            let rest = vstd::slice::slice_subrange(buf, sent, size);
            let r = self.write(rest);
            let ghost e = self.log@.last();
            proof {
                assert(rest@ == buf@.skip(sent as int));
                lemma_write_step(es, e, buf@, old(self).connection(), made_pred());
                assert(self.log@ =~= old(self).log() + es.push(e));
                es = es.push(e);
                lemma_log_grows(old(self).log(), es);
            }
            match r {
                Ok(0) => {
                    proof {
                        reveal_strlit("failed to write");
                        assert(buf@.take(sent as int) + rest@.take(0) =~= buf@.take(sent as int));
                        lemma_run_ends(es, buf@, old(self).connection(), self.connection());
                    }
                    return Err(String::from_str("failed to write"));
                },
                Ok(n) => {
                    proof {
                        assert(buf@.take(sent as int) + rest@.take(n as int) =~= buf@.take(
                            (sent + n) as int,
                        ));
                    }
                    sent = sent + n;
                },
                Err(e) => {
                    proof {
                        assert(Seq::<char>::empty() + e@ =~= e@);
                        lemma_run_ends(es, buf@, old(self).connection(), self.connection());
                    }
                    return Err(e);
                },
            }
        }
        proof {
            assert(buf@.take(size as int) =~= buf@);
            if es.len() > 0 {
                lemma_all_took_drop_last(es);
            }
            lemma_run_ends(es, buf@, old(self).connection(), self.connection());
            lemma_log_grows(old(self).log(), es);
        }
        Ok(())
    }

    /// One round of a timed upload: the first `plan.send` bytes of `buf` are
    /// written in full with [`Stream::write_all`]. When that succeeds they
    /// count as sent in the plan; otherwise the plan stays as it was.
    pub fn upload_round(&mut self, plan: &mut UploadPlan, buf: &[u8]) -> (r: Result<(), String>)
        requires
            old(plan).send <= buf@.len(),
            old(plan).sent + old(plan).send <= usize::MAX,
        ensures
            final(self).received() == old(self).received(),
            extends(final(self).log(), old(self).log()),
            write_run(
                since(final(self).log(), old(self).log()),
                buf@.take(old(plan).send as int),
                old(self).connection(),
                final(self).connection(),
            ),
            all_made(since(final(self).log(), old(self).log())),
            outcome(r) == run_outcome(
                since(final(self).log(), old(self).log()),
                "failed to write"@,
                Seq::<char>::empty(),
            ),
            final(self).sent() == old(self).sent() + buf@.take(old(plan).send as int).take(
                taken_total(since(final(self).log(), old(self).log())) as int,
            ),
            r is Ok ==> final(self).sent() == old(self).sent() + buf@.take(old(plan).send as int),
            r is Ok ==> *final(plan) == (UploadPlan {
                sent: (old(plan).sent + old(plan).send) as usize,
                ..*old(plan)
            }),
            r is Ok ==> final(self).sent().len() - old(self).sent().len() == final(plan).sent
                - old(plan).sent,
            r is Err ==> *final(plan) == *old(plan),
    {
        let piece = vstd::slice::slice_subrange(buf, 0, plan.send);
        proof {
            assert(piece@ =~= buf@.take(plan.send as int));
        }
        let r = self.write_all(piece);
        if r.is_ok() {
            plan.sent = plan.sent + plan.send;
        }
        r
    }

    /// One round of a timed download: one read into the whole of `buf`, judged
    /// as a download judges it ([`download_read`]). The count of a successful
    /// read is added to the plan; otherwise the plan stays as it was.
    pub fn download_round(&mut self, plan: &mut DownloadPlan, buf: &mut [u8]) -> (r: Result<
        usize,
        String,
    >)
        requires
            old(plan).downloaded + old(buf)@.len() <= usize::MAX,
        ensures
            final(buf)@.len() == old(buf)@.len(),
            final(self).sent() == old(self).sent(),
            final(self).log() == old(self).log().push(
                Exchange::Read {
                    before: old(self).connection(),
                    given: old(buf)@,
                    after: final(self).connection(),
                    filled: final(buf)@,
                    answer: final(self).log().last().reply(),
                },
            ),
            net_made(final(self).log().last()),
            answer(r) == download_outcome(checked_read(answer(final(self).log().last().reply()))),
            match r {
                Ok(n) => 1 <= n <= old(buf)@.len() && final(self).received() == old(self).received()
                    + final(buf)@.take(n as int) && *final(plan) == (DownloadPlan {
                    downloaded: (old(plan).downloaded + n) as usize,
                    ..*old(plan)
                }) && final(self).received().len() - old(self).received().len()
                    == final(plan).downloaded - old(plan).downloaded,
                Err(_) => final(self).received() == old(self).received() && *final(plan)
                    == *old(plan),
            },
    {
        let r = download_read(self.read(buf));
        if let Ok(n) = r {
            plan.downloaded = plan.downloaded + n;
        }
        r
    }

    /// Sends the byte of `command` with a single write. The write's error is
    /// the result; any count is success, and a count of 1 sent the byte.
    pub fn command(&mut self, command: Command) -> (r: Result<(), String>)
        ensures
            final(self).received() == old(self).received(),
            final(self).log() == old(self).log().push(
                Exchange::Write {
                    before: old(self).connection(),
                    offered: seq![command_byte(command)],
                    after: final(self).connection(),
                    answer: final(self).log().last().reply(),
                },
            ),
            net_made(final(self).log().last()),
            match final(self).log().last().reply() {
                Ok(n) => r is Ok && n <= 1 && final(self).sent() == old(self).sent()
                    + seq![command_byte(command)].take(n as int),
                Err(e) => r matches Err(m) && m == e && final(self).sent() == old(self).sent(),
            },
    {
        let buf: Vec<u8> = vec![command.to_byte()];
        proof {
            assert(buf@ =~= seq![command_byte(command)]);
        }
        match self.write(buf.as_slice()) {
            Ok(_) => Ok(()),
            Err(e) => Err(e),
        }
    }
}

} // verus!
