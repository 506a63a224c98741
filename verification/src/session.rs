use vstd::prelude::*;
use crate::error_text;
use crate::stream::answer;

verus! {

/// The longest time a `std::time::Duration` holds, in nanoseconds.
pub const MAX_DURATION_NANOS: u128 = 18_446_744_073_709_551_615_999_999_999u128;

/// The time left and spent of a timed transfer, in nanoseconds.
#[derive(Clone, Copy, Debug, PartialEq, Eq, Structural)]
pub struct Countdown {
    pub remain: u128,
    pub elapse: u128,
    pub running: bool,
}

/// A countdown after one round that took `d` nanoseconds: the round is added
/// to the time spent; when it is longer than the time left, the countdown
/// stops at zero, else the time left shrinks by it.
pub open spec fn tick_spec(c: Countdown, d: u128) -> Countdown {
    if c.remain < d {
        Countdown { remain: 0, elapse: (c.elapse + d) as u128, running: false }
    } else {
        Countdown { remain: (c.remain - d) as u128, elapse: (c.elapse + d) as u128, running: c.running }
    }
}

/// The bookkeeping of a countdown started with `total` nanoseconds: it runs
/// exactly while the time spent is at most `total`; while it runs, spent and
/// left add up to `total`; once stopped, nothing is left.
pub open spec fn countdown_account(c: Countdown, total: nat) -> bool {
    &&& c.running <==> c.elapse <= total
    &&& c.running ==> c.remain + c.elapse == total
    &&& !c.running ==> c.remain == 0
}

impl Countdown {
    /// A running countdown of `duration` nanoseconds with nothing spent.
    pub fn new(duration: u128) -> (c: Countdown)
        ensures
            c == (Countdown { remain: duration, elapse: 0, running: true }),
            countdown_account(c, duration as nat),
    {
        Countdown { remain: duration, elapse: 0, running: true }
    }

    /// Accounts for one round of `d` nanoseconds. The time spent must stay a
    /// valid `Duration` (adding durations past that panics).
    pub fn tick(&mut self, d: u128)
        requires
            old(self).elapse + d <= MAX_DURATION_NANOS,
        ensures
            *final(self) == tick_spec(*old(self), d),
    {
        self.elapse = self.elapse + d;
        if self.remain < d {
            self.running = false;
            self.remain = 0;
        } else {
            self.remain = self.remain - d;
        }
    }
}

/// Law: each round keeps the bookkeeping of a countdown, so it stops at the
/// first round after which more than `total` has been spent, with nothing left.
pub proof fn lemma_tick_keeps_account(c: Countdown, total: nat, d: u128)
    requires
        countdown_account(c, total),
        c.elapse + d <= MAX_DURATION_NANOS,
    ensures
        countdown_account(tick_spec(c, d), total),
{
}

/// The total of a series of round times.
pub open spec fn total_time(ds: Seq<u128>) -> nat
    decreases ds.len(),
{
    if ds.len() == 0 {
        0
    } else {
        total_time(ds.drop_last()) + ds.last() as nat
    }
}

/// A countdown after a series of rounds.
pub open spec fn after_rounds(c: Countdown, ds: Seq<u128>) -> Countdown
    decreases ds.len(),
{
    if ds.len() == 0 {
        c
    } else {
        tick_spec(after_rounds(c, ds.drop_last()), ds.last())
    }
}

/// Law: a transfer timed for `total` nanoseconds runs exactly while its rounds
/// have taken at most `total` in all, and its time spent is the sum of its rounds.
pub proof fn lemma_rounds(total: u128, ds: Seq<u128>)
    requires
        total_time(ds) <= MAX_DURATION_NANOS,
    ensures
        after_rounds(Countdown { remain: total, elapse: 0, running: true }, ds).elapse
            == total_time(ds),
        after_rounds(Countdown { remain: total, elapse: 0, running: true }, ds).running
            <==> total_time(ds) <= total,
        countdown_account(
            after_rounds(Countdown { remain: total, elapse: 0, running: true }, ds),
            total as nat,
        ),
    decreases ds.len(),
{
    let start = Countdown { remain: total, elapse: 0, running: true };
    if ds.len() > 0 {
        lemma_rounds(total, ds.drop_last());
        lemma_tick_keeps_account(after_rounds(start, ds.drop_last()), total as nat, ds.last());
    }
}

/// The first amount that an upload sends per round, and its buffer size: 500 KiB.
pub const UPLOAD_START: usize = 512_000;

/// How much larger than the send buffer of the connection a round grows: 100 KiB.
pub const SEND_STEP: usize = 102_400;

/// The bookkeeping of a timed upload: `send` bytes go out per round from a
/// buffer of `size` bytes; `sent` bytes have gone so far.
#[derive(Clone, Copy, Debug, PartialEq, Eq, Structural)]
pub struct UploadPlan {
    pub size: usize,
    pub send: usize,
    pub sent: usize,
    pub clock: Countdown,
}

/// The round size after the connection reports its send buffer `window`: a
/// smaller buffer becomes the round size, a larger one the round size plus
/// `SEND_STEP`; the buffer grows to the round size when that is larger. An
/// unknown window changes nothing.
pub open spec fn adjust_spec(p: UploadPlan, window: Option<usize>) -> UploadPlan {
    match window {
        Some(s) => if s < p.send {
            UploadPlan { send: s, ..p }
        } else if s > p.send {
            let send = (s + SEND_STEP) as usize;
            UploadPlan { send: send, size: if send > p.size { send } else { p.size }, ..p }
        } else {
            p
        },
        None => p,
    }
}

impl UploadPlan {
    /// The plan at the start of an upload of `duration` nanoseconds.
    pub fn new(duration: u128) -> (p: UploadPlan)
        ensures
            p.size == UPLOAD_START,
            p.send == UPLOAD_START,
            p.sent == 0,
            p.clock == (Countdown { remain: duration, elapse: 0, running: true }),
    {
        UploadPlan { size: UPLOAD_START, send: UPLOAD_START, sent: 0, clock: Countdown::new(duration) }
    }

    /// Adjusts the round size to the send buffer that the connection reports.
    /// Returns whether the buffer has to grow to `size` bytes.
    pub fn adjust(&mut self, window: Option<usize>) -> (grow: bool)
        requires
            window matches Some(s) ==> (s > old(self).send ==> s + SEND_STEP <= usize::MAX),
        ensures
            *final(self) == adjust_spec(*old(self), window),
            grow == (final(self).size != old(self).size),
    {
        match window {
            Some(s) => {
                if s < self.send {
                    self.send = s;
                    false
                } else if s > self.send {
                    self.send = s + SEND_STEP;
                    if self.send > self.size {
                        self.size = self.send;
                        true
                    } else {
                        false
                    }
                } else {
                    false
                }
            },
            None => false,
        }
    }
}

/// Law: a round never sends more than the buffer holds, whatever the
/// connection reports.
pub proof fn lemma_adjust_fits(p: UploadPlan, window: Option<usize>)
    requires
        p.send <= p.size,
        window matches Some(s) ==> (s > p.send ==> s + SEND_STEP <= usize::MAX),
    ensures
        adjust_spec(p, window).send <= adjust_spec(p, window).size,
        adjust_spec(p, window).size >= p.size,
        adjust_spec(p, window).sent == p.sent,
{
}

/// Law: the round size follows the reported window. A smaller window becomes
/// the round size; a larger one makes it the window plus 100 KiB (102 400
/// bytes), whatever the window; an equal window, or none, changes nothing. The
/// buffer grows only to hold the round, and the count sent and the clock stay.
pub proof fn lemma_adjust_follows_window(p: UploadPlan, s: usize)
    requires
        s > p.send ==> s + SEND_STEP <= usize::MAX,
    ensures
        s < p.send ==> adjust_spec(p, Some(s)).send == s && adjust_spec(p, Some(s)).size
            == p.size,
        s > p.send ==> adjust_spec(p, Some(s)).send == s + 102_400,
        s > p.send ==> adjust_spec(p, Some(s)).size == (if s + 102_400 > p.size {
            s + 102_400
        } else {
            p.size as int
        }),
        s == p.send ==> adjust_spec(p, Some(s)) == p,
        adjust_spec(p, None) == p,
        adjust_spec(p, Some(s)).sent == p.sent,
        adjust_spec(p, Some(s)).clock == p.clock,
{
}

/// The size of the buffer that a download reads into at first: 500 KiB.
pub const DOWNLOAD_START: usize = 512_000;

/// The bookkeeping of a timed download: `downloaded` bytes so far, read into a
/// buffer of `buf_len` bytes.
#[derive(Clone, Copy, Debug, PartialEq, Eq, Structural)]
pub struct DownloadPlan {
    pub buf_len: usize,
    pub downloaded: usize,
    pub clock: Countdown,
}

impl DownloadPlan {
    /// The plan at the start of a download of `duration` nanoseconds.
    pub fn new(duration: u128) -> (p: DownloadPlan)
        ensures
            p.buf_len == DOWNLOAD_START,
            p.downloaded == 0,
            p.clock == (Countdown { remain: duration, elapse: 0, running: true }),
    {
        DownloadPlan { buf_len: DOWNLOAD_START, downloaded: 0, clock: Countdown::new(duration) }
    }

    /// The next rounds read into a buffer of the size of the connection's
    /// receive buffer, when it reports one.
    pub fn adjust(&mut self, window: Option<usize>)
        ensures
            final(self).buf_len == (match window {
                Some(s) => s,
                None => old(self).buf_len,
            }),
            final(self).downloaded == old(self).downloaded,
            final(self).clock == old(self).clock,
    {
        if let Some(s) = window {
            self.buf_len = s;
        }
    }
}

/// What a download makes of the answer to a read: a read of nothing is the
/// error "Download Read Zero", a failed read the error "Download: " and its
/// text, a count stands.
pub open spec fn download_outcome(a: Result<usize, Seq<char>>) -> Result<usize, Seq<char>> {
    match a {
        Ok(0) => Err("Download Read Zero"@),
        Ok(n) => Ok(n),
        Err(t) => Err(error_text("Download: "@, t)),
    }
}

/// What a download does with the outcome of a read: a read of nothing is the
/// error "Download Read Zero", a failed read the error "Download: " and its text.
pub fn download_read(r: Result<usize, String>) -> (out: Result<usize, String>)
    ensures
        answer(out) == download_outcome(answer(r)),
        match r {
            Ok(0) => out is Err,
            Ok(n) => out == Ok::<usize, String>(n),
            Err(_) => out is Err,
        },
{
    match r {
        Ok(0) => {
            proof {
                reveal_strlit("Download Read Zero");
            }
            Err(String::from_str("Download Read Zero"))
        },
        Ok(n) => Ok(n),
        Err(t) => {
            proof {
                reveal_strlit("Download: ");
            }
            let mut m = String::from_str("Download: ");
            m.append(t.as_str());
            Err(m)
        },
    }
}

} // verus!
