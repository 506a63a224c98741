//! Network throughput testing: a client streams bytes to (or from) a server
//! for a fixed time and reports the transfer speed.
//!
//! The library holds the protocol's decisions and bookkeeping; the sockets,
//! clocks and terminal output are driven by the program around it.

pub mod config;
pub mod exchange;
pub mod sender;
pub mod server;
pub mod session;
pub mod stream;
pub mod text;
pub mod utils;

use vstd::prelude::*;
use crate::stream::{NetStream, net_made, all_made, made_pred};
use crate::exchange::{
    Exchange, write_run, run_outcome, outcome, since, extends, taken_total, chained, pieces,
    all_took, with_prefix, lemma_log_grows, lemma_write_step, lemma_run_ends,
    lemma_all_took_drop_last,
};
use crate::text::str_equals;
use crate::utils::{Command, command_byte};
use crate::stream::answer;
use crate::session::{UploadPlan, DownloadPlan, download_outcome, download_read};

verus! {

/// The transport that a test runs over.
#[derive(Clone, Copy, Debug, PartialEq, Eq, Structural)]
pub enum Protocol {
    Tcp,
    Udp,
}

/// What a protocol name selects: "tcp" and "udp" and nothing else.
pub open spec fn protocol_of(name: Seq<char>) -> Option<Protocol> {
    if name == seq!['t', 'c', 'p'] {
        Some(Protocol::Tcp)
    } else if name == seq!['u', 'd', 'p'] {
        Some(Protocol::Udp)
    } else {
        None
    }
}

/// Picks the transport named by `protocol`; any other name is the error
/// "protocol not defined".
pub fn select_protocol(protocol: &str) -> (r: Result<Protocol, String>)
    ensures
        match protocol_of(protocol@) {
            Some(p) => r == Ok::<Protocol, String>(p),
            None => r matches Err(e) && e@ == "protocol not defined"@,
        },
{
    proof {
        reveal_strlit("tcp");
        reveal_strlit("udp");
        reveal_strlit("protocol not defined");
        assert("tcp"@ =~= seq!['t', 'c', 'p']);
        assert("udp"@ =~= seq!['u', 'd', 'p']);
    }
    if str_equals(protocol, "tcp") {
        Ok(Protocol::Tcp)
    } else if str_equals(protocol, "udp") {
        Ok(Protocol::Udp)
    } else {
        Err(String::from_str("protocol not defined"))
    }
}

/// The error text `prefix` followed by `detail`.
pub open spec fn error_text(prefix: Seq<char>, detail: Seq<char>) -> Seq<char> {
    prefix + detail
}

/// A client connection of the speed test.
///
/// It keeps, as ghost state, the bytes that the connection took from its
/// writes and every call it made on the connection with the answer.
pub struct Client<N: NetStream> {
    stream: N,
    sent: Ghost<Seq<u8>>,
    log: Ghost<Seq<Exchange<N>>>,
}

impl<N: NetStream> Client<N> {
    /// The connection underneath.
    pub closed spec fn connection(&self) -> N {
        self.stream
    }

    /// The bytes that the connection took from this client's writes so far.
    pub closed spec fn sent(&self) -> Seq<u8> {
        self.sent@
    }

    /// The calls this client made on its connection so far, in order.
    pub closed spec fn log(&self) -> Seq<Exchange<N>> {
        self.log@
    }

    /// A client over a connection that has sent nothing yet.
    pub fn new(stream: N) -> (c: Client<N>)
        ensures
            c.connection() == stream,
            c.sent() == Seq::<u8>::empty(),
            c.log() == Seq::<Exchange<N>>::empty(),
    {
        Client { stream, sent: Ghost(Seq::empty()), log: Ghost(Seq::empty()) }
    }

    /// Reads once into `buf`, the whole of it offered to the connection; the
    /// result is the connection's answer, passed on unchanged.
    pub fn read(&mut self, buf: &mut [u8]) -> (r: Result<usize, String>)
        ensures
            final(buf)@.len() == old(buf)@.len(),
            r matches Ok(n) ==> n <= old(buf)@.len(),
            final(self).sent() == old(self).sent(),
            final(self).log() == old(self).log().push(
                Exchange::Read {
                    before: old(self).connection(),
                    given: old(buf)@,
                    after: final(self).connection(),
                    filled: final(buf)@,
                    answer: r,
                },
            ),
            net_made(final(self).log().last()),
    {
        let ghost before = self.stream;
        let ghost given = buf@;
        let r = self.stream.read(buf);
        self.log = Ghost(
            self.log@.push(
                Exchange::Read { before, given, after: self.stream, filled: buf@, answer: r },
            ),
        );
        r
    }

    /// The size of the connection's send buffer, as the connection reports it.
    pub fn send_buffer_size(&self) -> (r: Result<usize, String>)
        ensures
            call_ensures(N::write_buffer_size, (&self.connection(),), r),
    {
        self.stream.write_buffer_size()
    }

    /// The size of the connection's receive buffer, as the connection reports it.
    pub fn recv_buffer_size(&self) -> (r: Result<usize, String>)
        ensures
            call_ensures(N::read_buffer_size, (&self.connection(),), r),
    {
        self.stream.read_buffer_size()
    }

    /// Hands `buf` to the connection with one write and returns how much it
    /// took; an error of the connection comes back as "Error on write: " and
    /// its text.
    pub fn write_buf(&mut self, buf: &[u8]) -> (r: Result<usize, String>)
        ensures
            final(self).log() == old(self).log().push(
                Exchange::Write {
                    before: old(self).connection(),
                    offered: buf@,
                    after: final(self).connection(),
                    answer: final(self).log().last().reply(),
                },
            ),
            net_made(final(self).log().last()),
            match final(self).log().last().reply() {
                Ok(n) => r == Ok::<usize, String>(n) && n <= buf@.len() && final(self).sent()
                    == old(self).sent() + buf@.take(n as int),
                Err(e) => r matches Err(m) && m@ == error_text("Error on write: "@, e@)
                    && final(self).sent() == old(self).sent(),
            },
    {
        let ghost before = self.stream;
        let raw = self.stream.write(buf);
        self.log = Ghost(
            self.log@.push(Exchange::Write { before, offered: buf@, after: self.stream, answer: raw }),
        );
        match raw {
            Ok(s) => {
                self.sent = Ghost(self.sent@ + buf@.take(s as int));
                Ok(s)
            },
            Err(e) => {
                proof {
                    reveal_strlit("Error on write: ");
                }
                let mut m = String::from_str("Error on write: ");
                m.append(e.as_str());
                proof {
                    assert(m@ == error_text("Error on write: "@, e@));
                }
                Err(m)
            },
        }
    }

    /// Writes the whole of `buf`, each write offered what the ones before did
    /// not take. A write that takes nothing ends it with "failed to write"; a
    /// failing write with "Error on write: " and its error.
    pub fn write(&mut self, buf: &[u8]) -> (r: Result<(), String>)
        ensures
            extends(final(self).log(), old(self).log()),
            write_run(
                since(final(self).log(), old(self).log()),
                buf@,
                old(self).connection(),
                final(self).connection(),
            ),
            all_made(since(final(self).log(), old(self).log())),
            since(final(self).log(), old(self).log()).len() <= buf@.len(),
            outcome(r) == run_outcome(
                since(final(self).log(), old(self).log()),
                "failed to write"@,
                "Error on write: "@,
            ),
            final(self).sent() == old(self).sent() + buf@.take(
                taken_total(since(final(self).log(), old(self).log())) as int,
            ),
            r is Ok ==> final(self).sent() == old(self).sent() + buf@,
            r is Err ==> exists|k: int|
                0 <= k < buf@.len() && final(self).sent() == old(self).sent() + buf@.take(k),
            buf@.len() == 0 ==> r is Ok && *final(self) == *old(self),
    {
        let size: usize = buf.len();
        let mut sent: usize = 0;
        let ghost es: Seq<Exchange<N>> = Seq::empty();
        proof {
            assert(old(self).log() + es =~= old(self).log());
        }
        while sent < size
            invariant
                size == buf@.len(),
                sent <= size,
                self.sent() == old(self).sent() + buf@.take(sent as int),
                self.log() == old(self).log() + es,
                chained(es, old(self).connection(), self.connection()),
                pieces(es, buf@),
                all_took(es),
                all_made(es),
                taken_total(es) == sent,
                size == 0 ==> *self == *old(self),
            decreases size - sent,
        {
            let rest = vstd::slice::slice_subrange(buf, sent, size);
            let r = self.write_buf(rest);
            let ghost e = self.log@.last();
            proof {
                assert(rest@ == buf@.skip(sent as int));
                lemma_write_step(es, e, buf@, old(self).connection(), made_pred());
                assert(self.log@ =~= old(self).log() + es.push(e));
                es = es.push(e);
                lemma_log_grows(old(self).log(), es);
            }
            match r {
                Ok(0) => {
                    proof {
                        reveal_strlit("failed to write");
                        assert(buf@.take(sent as int) + rest@.take(0) =~= buf@.take(sent as int));
                        lemma_run_ends(es, buf@, old(self).connection(), self.connection());
                    }
                    return Err(String::from_str("failed to write"));
                },
                Ok(s) => {
                    proof {
                        assert(buf@.take(sent as int) + rest@.take(s as int) =~= buf@.take(
                            (sent + s) as int,
                        ));
                    }
                    sent = sent + s;
                },
                Err(e) => {
                    proof {
                        lemma_run_ends(es, buf@, old(self).connection(), self.connection());
                    }
                    return Err(e);
                },
            }
        }
        proof {
            assert(buf@.take(size as int) =~= buf@);
            if es.len() > 0 {
                lemma_all_took_drop_last(es);
            }
            lemma_run_ends(es, buf@, old(self).connection(), self.connection());
            lemma_log_grows(old(self).log(), es);
        }
        Ok(())
    }

    /// One round of a timed upload: the first `plan.send` bytes of `buf` are
    /// written in full with [`Client::write`]. When that succeeds they count
    /// as sent in the plan; otherwise the plan stays as it was.
    pub fn upload_round(&mut self, plan: &mut UploadPlan, buf: &[u8]) -> (r: Result<(), String>)
        requires
            old(plan).send <= buf@.len(),
            old(plan).sent + old(plan).send <= usize::MAX,
        ensures
            extends(final(self).log(), old(self).log()),
            write_run(
                since(final(self).log(), old(self).log()),
                buf@.take(old(plan).send as int),
                old(self).connection(),
                final(self).connection(),
            ),
            all_made(since(final(self).log(), old(self).log())),
            outcome(r) == run_outcome(
                since(final(self).log(), old(self).log()),
                "failed to write"@,
                "Error on write: "@,
            ),
            final(self).sent() == old(self).sent() + buf@.take(old(plan).send as int).take(
                taken_total(since(final(self).log(), old(self).log())) as int,
            ),
            r is Ok ==> final(self).sent() == old(self).sent() + buf@.take(old(plan).send as int),
            r is Ok ==> *final(plan) == (UploadPlan {
                sent: (old(plan).sent + old(plan).send) as usize,
                ..*old(plan)
            }),
            r is Ok ==> final(self).sent().len() - old(self).sent().len() == final(plan).sent
                - old(plan).sent,
            r is Err ==> *final(plan) == *old(plan),
    {
        let piece = vstd::slice::slice_subrange(buf, 0, plan.send);
        proof {
            assert(piece@ =~= buf@.take(plan.send as int));
        }
        let r = self.write(piece);
        if r.is_ok() {
            plan.sent = plan.sent + plan.send;
        }
        r
    }

    /// One round of a timed download: one read into the whole of `buf`, judged
    /// as a download judges it ([`download_read`]). The count of a successful
    /// read is added to the plan; otherwise the plan stays as it was.
    pub fn download_round(&mut self, plan: &mut DownloadPlan, buf: &mut [u8]) -> (r: Result<
        usize,
        String,
    >)
        requires
            old(plan).downloaded + old(buf)@.len() <= usize::MAX,
        ensures
            final(buf)@.len() == old(buf)@.len(),
            final(self).sent() == old(self).sent(),
            final(self).log() == old(self).log().push(
                Exchange::Read {
                    before: old(self).connection(),
                    given: old(buf)@,
                    after: final(self).connection(),
                    filled: final(buf)@,
                    answer: final(self).log().last().reply(),
                },
            ),
            net_made(final(self).log().last()),
            answer(r) == download_outcome(answer(final(self).log().last().reply())),
            match r {
                Ok(n) => 1 <= n <= old(buf)@.len() && final(self).log().last().reply() == Ok::<
                    usize,
                    String,
                >(n) && *final(plan) == (DownloadPlan {
                    downloaded: (old(plan).downloaded + n) as usize,
                    ..*old(plan)
                }),
                Err(_) => *final(plan) == *old(plan),
            },
    {
        let r = download_read(self.read(buf));
        if let Ok(n) = r {
            plan.downloaded = plan.downloaded + n;
        }
        r
    }

    /// Sends the byte of `command` in full with `write`; an error comes back as
    /// "Error on command: " and the text of `write`'s error.
    pub fn command(&mut self, command: Command) -> (r: Result<(), String>)
        ensures
            extends(final(self).log(), old(self).log()),
            write_run(
                since(final(self).log(), old(self).log()),
                seq![command_byte(command)],
                old(self).connection(),
                final(self).connection(),
            ),
            all_made(since(final(self).log(), old(self).log())),
            outcome(r) == with_prefix(
                run_outcome(
                    since(final(self).log(), old(self).log()),
                    "failed to write"@,
                    "Error on write: "@,
                ),
                "Error on command: "@,
            ),
            r is Ok ==> final(self).sent() == old(self).sent().push(command_byte(command)),
            r is Err ==> final(self).sent() == old(self).sent(),
    {
        let buf: Vec<u8> = vec![command.to_byte()];
        proof {
            assert(buf@ =~= seq![command_byte(command)]);
        }
        match self.write(buf.as_slice()) {
            Ok(()) => Ok(()),
            Err(e) => {
                proof {
                    reveal_strlit("Error on command: ");
                    assert(buf@.take(0) =~= Seq::<u8>::empty());
                }
                let mut m = String::from_str("Error on command: ");
                m.append(e.as_str());
                Err(m)
            },
        }
    }
}

} // verus!
