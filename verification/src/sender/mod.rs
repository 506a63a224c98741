//! Sending a whole file to a server, announced by an "UPLOAD:<size>" command.

pub mod stream;

use vstd::prelude::*;
use crate::error_text;
use crate::exchange::{
    Exchange, write_run, run_outcome, outcome, since, extends, taken_total, chained, pieces,
    all_took, all_hold, lemma_log_grows, lemma_write_step, lemma_run_ends, lemma_all_took_drop_last,
};
use crate::text::{decimal, decimal_value, push_decimal, lemma_decimal_value};
use crate::utils::{calc_speed, rate};
use vstd::utf8::encode_utf8;

verus! {

/// A connection that sends files.
///
/// It keeps, as ghost state, the bytes that the connection took from its
/// writes and every write it made with the connection's answer.
pub struct Server<S: stream::Server> {
    stream: S,
    sent: Ghost<Seq<u8>>,
    log: Ghost<Seq<Exchange<S>>>,
}

/// The command that announces an upload of `size` bytes.
pub open spec fn upload_command(size: nat) -> Seq<char> {
    seq!['U', 'P', 'L', 'O', 'A', 'D', ':'] + decimal(size)
}

/// Law: the command announces the whole size. It is "UPLOAD:" followed by
/// decimal digits only, and reading those digits back gives the size, so no two
/// sizes share a command.
pub proof fn lemma_upload_command_size(size: nat, other: nat)
    ensures
        upload_command(size).take(7) == seq!['U', 'P', 'L', 'O', 'A', 'D', ':'],
        upload_command(size).len() > 7,
        forall|i: int|
            7 <= i < upload_command(size).len() ==> '0' <= #[trigger] upload_command(size)[i] <= '9',
        decimal_value(upload_command(size).skip(7)) == size,
        upload_command(size) == upload_command(other) ==> size == other,
{
    let head = seq!['U', 'P', 'L', 'O', 'A', 'D', ':'];
    lemma_decimal_value(size);
    lemma_decimal_value(other);
    assert(upload_command(size).take(7) =~= head);
    assert(upload_command(size).skip(7) =~= decimal(size));
    assert(upload_command(other).skip(7) =~= decimal(other));
    assert forall|i: int| 7 <= i < upload_command(size).len() implies '0'
        <= #[trigger] upload_command(size)[i] <= '9' by {
        assert(upload_command(size)[i] == decimal(size)[i - 7]);
    }
}

/// The exchange `e` is a write that the connection really answered so: a call
/// on the connection as it was before, offered these bytes, of which the
/// connection's contract holds with that answer.
pub open spec fn sender_made<S: stream::Server>(e: Exchange<S>) -> bool {
    match e {
        Exchange::Write { before, offered, answer, .. } => exists|m: &mut S, b: &[u8]|
            mut_ref_current(m) == before && b@ == offered && call_ensures(S::write, (m, b), answer),
        Exchange::Read { .. } => false,
    }
}

/// Being a write that was really made, as a predicate.
pub open spec fn sender_made_pred<S: stream::Server>() -> spec_fn(Exchange<S>) -> bool {
    |e: Exchange<S>| sender_made(e)
}

/// Every exchange of `es` is a write that was really made.
pub open spec fn all_sender_made<S: stream::Server>(es: Seq<Exchange<S>>) -> bool {
    all_hold(es, sender_made_pred::<S>())
}

impl<S: stream::Server> Server<S> {
    /// The connection underneath.
    pub closed spec fn connection(&self) -> S {
        self.stream
    }

    /// The bytes that the connection took from this sender's writes so far.
    pub closed spec fn sent(&self) -> Seq<u8> {
        self.sent@
    }

    /// The writes this sender made on its connection so far, in order.
    pub closed spec fn log(&self) -> Seq<Exchange<S>> {
        self.log@
    }

    /// A sender over a connection that has sent nothing yet.
    pub fn new(stream: S) -> (s: Server<S>)
        ensures
            s.connection() == stream,
            s.sent() == Seq::<u8>::empty(),
            s.log() == Seq::<Exchange<S>>::empty(),
    {
        Server { stream, sent: Ghost(Seq::empty()), log: Ghost(Seq::empty()) }
    }

    /// Hands `buf` to the connection with one write; the result is the
    /// connection's answer, passed on unchanged.
    pub fn write(&mut self, buf: &[u8]) -> (r: Result<usize, String>)
        ensures
            final(self).log() == old(self).log().push(
                Exchange::Write {
                    before: old(self).connection(),
                    offered: buf@,
                    after: final(self).connection(),
                    answer: r,
                },
            ),
            sender_made(final(self).log().last()),
            match r {
                Ok(n) => n <= buf@.len() && final(self).sent() == old(self).sent()
                    + buf@.take(n as int),
                Err(_) => final(self).sent() == old(self).sent(),
            },
    {
        let ghost before = self.stream;
        let r = self.stream.write(buf);
        if let Ok(n) = r {
            self.sent = Ghost(self.sent@ + buf@.take(n as int));
        }
        self.log = Ghost(
            self.log@.push(Exchange::Write { before, offered: buf@, after: self.stream, answer: r }),
        );
        r
    }

    /// Sends the UTF-8 bytes of `command` in full, each write offered what the
    /// ones before did not take. A failing write ends it with
    /// "Error on command: " and the write's error; a write that takes nothing
    /// with "Error on command: failed to write".
    pub fn command(&mut self, command: String) -> (r: Result<(), String>)
        ensures
            extends(final(self).log(), old(self).log()),
            write_run(
                since(final(self).log(), old(self).log()),
                encode_utf8(command@),
                old(self).connection(),
                final(self).connection(),
            ),
            all_sender_made(since(final(self).log(), old(self).log())),
            since(final(self).log(), old(self).log()).len() <= encode_utf8(command@).len(),
            outcome(r) == run_outcome(
                since(final(self).log(), old(self).log()),
                "Error on command: failed to write"@,
                "Error on command: "@,
            ),
            final(self).sent() == old(self).sent() + encode_utf8(command@).take(
                taken_total(since(final(self).log(), old(self).log())) as int,
            ),
            r is Ok ==> final(self).sent() == old(self).sent() + encode_utf8(command@),
            r is Err ==> exists|k: int|
                0 <= k < encode_utf8(command@).len()
                    && final(self).sent() == old(self).sent()
                    + encode_utf8(command@).take(k),
    {
        let buf = command.as_str().as_bytes();
        let size: usize = buf.len();
        let mut sent: usize = 0;
        let ghost es: Seq<Exchange<S>> = Seq::empty();
        proof {
            assert(old(self).log() + es =~= old(self).log());
        }
        while sent < size
            invariant
                size == buf@.len(),
                buf@ == encode_utf8(command@),
                sent <= size,
                self.sent() == old(self).sent() + buf@.take(sent as int),
                self.log() == old(self).log() + es,
                chained(es, old(self).connection(), self.connection()),
                pieces(es, buf@),
                all_took(es),
                all_sender_made(es),
                taken_total(es) == sent,
            decreases size - sent,
        {
            let b = vstd::slice::slice_subrange(buf, sent, size);
            let w = self.write(b);
            let ghost e = self.log@.last();
            proof {
                assert(b@ == buf@.skip(sent as int));
                lemma_write_step(es, e, buf@, old(self).connection(), sender_made_pred());
                assert(self.log@ =~= old(self).log() + es.push(e));
                es = es.push(e);
                lemma_log_grows(old(self).log(), es);
            }
            match w {
                Ok(0) => {
                    let mut m = String::from_str("Error on command: ");
                    m.append("failed to write");
                    proof {
                        reveal_strlit("Error on command: ");
                        reveal_strlit("Error on command: failed to write");
                        reveal_strlit("failed to write");
                        assert(m@ =~= "Error on command: failed to write"@);
                        assert(buf@.take(sent as int) + b@.take(0) =~= buf@.take(sent as int));
                        lemma_run_ends(es, buf@, old(self).connection(), self.connection());
                    }
                    return Err(m);
                },
                Ok(r) => {
                    proof {
                        assert(buf@.take(sent as int) + b@.take(r as int) =~= buf@.take(
                            (sent + r) as int,
                        ));
                    }
                    sent = sent + r;
                },
                Err(e) => {
                    let mut m = String::from_str("Error on command: ");
                    m.append(e.as_str());
                    proof {
                        lemma_run_ends(es, buf@, old(self).connection(), self.connection());
                    }
                    return Err(m);
                },
            }
        }
        proof {
            assert(buf@.take(size as int) =~= buf@);
            if es.len() > 0 {
                lemma_all_took_drop_last(es);
            }
            lemma_run_ends(es, buf@, old(self).connection(), self.connection());
            lemma_log_grows(old(self).log(), es);
        }
        Ok(())
    }
}

impl<S: stream::Server> Server<S> {
    /// One write of the rest of `file` in an upload: returns how many bytes the
    /// connection took; a failing write is "Error on write: " and its error.
    pub fn upload_round(&mut self, file: &[u8], progress: &FileUpload) -> (r: Result<usize, String>)
        requires
            progress.sent <= progress.size <= file@.len(),
        ensures
            final(self).log() == old(self).log().push(
                Exchange::Write {
                    before: old(self).connection(),
                    offered: progress.rest(file@),
                    after: final(self).connection(),
                    answer: final(self).log().last().reply(),
                },
            ),
            sender_made(final(self).log().last()),
            match final(self).log().last().reply() {
                Ok(n) => r == Ok::<usize, String>(n) && n <= progress.size - progress.sent
                    && final(self).sent() == old(self).sent() + progress.rest(file@).take(
                    n as int,
                ),
                Err(e) => r matches Err(m) && m@ == error_text("Error on write: "@, e@)
                    && final(self).sent() == old(self).sent(),
            },
    {
        let b = vstd::slice::slice_subrange(file, progress.sent, progress.size);
        proof {
            assert(b@ =~= progress.rest(file@));
        }
        match self.write(b) {
            Ok(n) => Ok(n),
            Err(e) => {
                proof {
                    reveal_strlit("Error on write: ");
                }
                let mut m = String::from_str("Error on write: ");
                m.append(e.as_str());
                proof {
                    assert(m@ == error_text("Error on write: "@, e@));
                }
                Err(m)
            },
        }
    }

    /// Announces an upload of `size` bytes with the command "UPLOAD:<size>".
    pub fn cmd_upload(&mut self, size: usize) -> (r: Result<(), String>)
        ensures
            extends(final(self).log(), old(self).log()),
            write_run(
                since(final(self).log(), old(self).log()),
                encode_utf8(upload_command(size as nat)),
                old(self).connection(),
                final(self).connection(),
            ),
            all_sender_made(since(final(self).log(), old(self).log())),
            since(final(self).log(), old(self).log()).len() <= encode_utf8(
                upload_command(size as nat),
            ).len(),
            outcome(r) == run_outcome(
                since(final(self).log(), old(self).log()),
                "Error on command: failed to write"@,
                "Error on command: "@,
            ),
            r is Ok ==> final(self).sent() == old(self).sent() + encode_utf8(
                upload_command(size as nat),
            ),
            r is Err ==> exists|k: int|
                0 <= k < encode_utf8(upload_command(size as nat)).len()
                    && final(self).sent() == old(self).sent()
                    + encode_utf8(upload_command(size as nat)).take(k),
    {
        proof {
            reveal_strlit("UPLOAD:");
            assert("UPLOAD:"@ =~= seq!['U', 'P', 'L', 'O', 'A', 'D', ':']);
        }
        let mut c = String::from_str("UPLOAD:");
        push_decimal(&mut c, size as u64);
        proof {
            assert(c@ =~= upload_command(size as nat));
        }
        self.command(c)
    }
}

/// The sender seen as the client of a file transfer.
pub type Client<S> = Server<S>;

impl<S: stream::Server> Client<S> {
    /// Bytes per second of `len` bytes sent in `nanos` nanoseconds, rounded down.
    pub fn calc_speed(len: usize, nanos: u128) -> (r: u64)
        requires
            nanos > 0,
        ensures
            r == rate(len as nat, nanos as nat) as u64,
    {
        calc_speed(len, nanos)
    }

    /// Receives into `buf` with one call of the connection's `download`, the
    /// whole of `buf` offered; the result is the connection's answer.
    pub fn download(&self, buf: &mut [u8]) -> (r: Result<(), String>)
        ensures
            final(buf)@.len() == old(buf)@.len(),
            exists|bm: &mut [u8]|
                bm@ == old(buf)@ && final(bm)@ == final(buf)@ && call_ensures(
                    S::download,
                    (&self.connection(), bm),
                    r,
                ),
    {
        self.stream.download(buf)
    }
}

/// The progress of sending a file of `size` bytes: `sent` bytes went out in
/// writes that took `sum_nanos` nanoseconds in all.
#[derive(Clone, Copy, Debug, PartialEq, Eq, Structural)]
pub struct FileUpload {
    pub size: usize,
    pub sent: usize,
    pub sum_nanos: u128,
}

impl FileUpload {
    /// Nothing sent yet.
    pub fn new(size: usize) -> (u: FileUpload)
        ensures
            u == (FileUpload { size, sent: 0, sum_nanos: 0 }),
    {
        FileUpload { size, sent: 0, sum_nanos: 0 }
    }

    /// Whether the whole file went out.
    pub fn done(&self) -> (r: bool)
        ensures
            r == (self.sent >= self.size),
    {
        self.sent >= self.size
    }

    /// Accounts for a write of `n` bytes that took `nanos` nanoseconds.
    pub fn record(&mut self, n: usize, nanos: u128)
        requires
            old(self).sent + n <= old(self).size,
            old(self).sum_nanos + nanos <= u128::MAX,
        ensures
            *final(self) == (FileUpload {
                sent: (old(self).sent + n) as usize,
                sum_nanos: (old(self).sum_nanos + nanos) as u128,
                ..*old(self)
            }),
    {
        self.sent = self.sent + n;
        self.sum_nanos = self.sum_nanos + nanos;
    }

    /// The bytes of the file that have not gone out yet.
    pub open spec fn rest(&self, file: Seq<u8>) -> Seq<u8> {
        file.subrange(self.sent as int, self.size as int)
    }

    /// Seconds still needed for the rest at `speed` bytes per second, rounded down.
    pub fn remaining_secs(&self, speed: u64) -> (r: u64)
        requires
            speed > 0,
            self.sent <= self.size,
        ensures
            r == (self.size - self.sent) / (speed as int),
    {
        (self.size - self.sent) as u64 / speed
    }
}

} // verus!
