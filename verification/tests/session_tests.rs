use downup::session::{
    download_read, Countdown, DownloadPlan, UploadPlan, DOWNLOAD_START, MAX_DURATION_NANOS, SEND_STEP,
    UPLOAD_START,
};
use downup::stream::{NetStream, Stream};
use std::cell::RefCell;
use std::rc::Rc;

/// A connection that takes up to `chunk` bytes per write and reads `reads` bytes of 'x' each time.
struct Wire {
    out: Rc<RefCell<Vec<u8>>>,
    chunk: usize,
    reads: usize,
}

impl NetStream for Wire {
    fn write(&mut self, buf: &[u8]) -> Result<usize, String> {
        let n = buf.len().min(self.chunk);
        self.out.borrow_mut().extend_from_slice(&buf[..n]);
        Ok(n)
    }
    fn read(&mut self, buf: &mut [u8]) -> Result<usize, String> {
        let n = buf.len().min(self.reads);
        for b in buf[..n].iter_mut() {
            *b = b'x';
        }
        Ok(n)
    }
    fn write_buffer_size(&self) -> Result<usize, String> {
        Ok(self.chunk)
    }
    fn read_buffer_size(&self) -> Result<usize, String> {
        Ok(self.reads)
    }
}

fn wire(chunk: usize, reads: usize) -> (Stream<Wire>, Rc<RefCell<Vec<u8>>>) {
    let out = Rc::new(RefCell::new(Vec::new()));
    (Stream::new(Wire { out: out.clone(), chunk, reads }), out)
}

const SEC: u128 = 1_000_000_000;

#[test]
fn countdown_runs_down_then_stops_at_zero() {
    let mut c = Countdown::new(3 * SEC);
    c.tick(SEC);
    assert_eq!(c, Countdown { remain: 2 * SEC, elapse: SEC, running: true });
    c.tick(2 * SEC);
    assert_eq!(c, Countdown { remain: 0, elapse: 3 * SEC, running: true });
    c.tick(1);
    assert_eq!(c, Countdown { remain: 0, elapse: 3 * SEC + 1, running: false });
}

#[test]
fn countdown_stops_when_a_round_overshoots() {
    let mut c = Countdown::new(SEC);
    c.tick(5 * SEC);
    assert_eq!(c, Countdown { remain: 0, elapse: 5 * SEC, running: false });
    assert!(MAX_DURATION_NANOS > 5 * SEC);
}

#[test]
fn upload_starts_at_500_kib() {
    let p = UploadPlan::new(10 * SEC);
    assert_eq!(UPLOAD_START, 512_000);
    assert_eq!((p.size, p.send, p.sent), (512_000, 512_000, 0));
    assert!(p.clock.running);
}

#[test]
fn upload_counts_what_went_out() {
    let mut p = UploadPlan::new(10 * SEC);
    let (mut stream, out) = wire(100_000, 0);
    let buf = vec![b'A'; p.size];
    assert_eq!(stream.upload_round(&mut p, &buf), Ok(()));
    p.clock.tick(SEC);
    assert_eq!(stream.upload_round(&mut p, &buf), Ok(()));
    p.clock.tick(SEC);
    assert_eq!(p.sent, 1_024_000);
    assert_eq!(out.borrow().len(), p.sent);
    assert_eq!(p.clock.remain, 8 * SEC);
    assert_eq!(p.clock.elapse, 2 * SEC);
}

#[test]
fn upload_shrinks_to_a_smaller_window() {
    let mut p = UploadPlan::new(SEC);
    assert!(!p.adjust(Some(65_536)));
    assert_eq!((p.send, p.size), (65_536, 512_000));
}

#[test]
fn upload_grows_past_a_larger_window() {
    let mut p = UploadPlan::new(SEC);
    assert!(p.adjust(Some(600_000)));
    assert_eq!((p.send, p.size), (600_000 + SEND_STEP, 600_000 + SEND_STEP));
    // smaller again: the buffer keeps its size
    assert!(!p.adjust(Some(1000)));
    assert_eq!((p.send, p.size), (1000, 702_400));
    // larger than the send size but the buffer already fits it
    assert!(!p.adjust(Some(2000)));
    assert_eq!((p.send, p.size), (2000 + SEND_STEP, 702_400));
}

#[test]
fn upload_keeps_its_size_without_a_window() {
    let mut p = UploadPlan::new(SEC);
    assert!(!p.adjust(None));
    assert!(!p.adjust(Some(512_000)));
    assert_eq!((p.send, p.size), (512_000, 512_000));
}

#[test]
fn download_counts_and_follows_the_window() {
    let mut p = DownloadPlan::new(2 * SEC);
    assert_eq!(p.buf_len, DOWNLOAD_START);
    let (mut stream, _) = wire(1, 1000);
    let mut buf = vec![0u8; p.buf_len];
    assert_eq!(stream.download_round(&mut p, &mut buf), Ok(1000));
    assert!(buf[..1000].iter().all(|b| *b == b'x'));
    p.clock.tick(SEC / 2);
    p.adjust(Some(4096));
    assert_eq!((p.downloaded, p.buf_len), (1000, 4096));
    p.adjust(None);
    assert_eq!(p.buf_len, 4096);
    assert_eq!(p.clock.remain, 3 * SEC / 2);
}

#[test]
fn download_read_outcomes() {
    assert_eq!(download_read(Ok(0)), Err(String::from("Download Read Zero")));
    assert_eq!(download_read(Ok(17)), Ok(17));
    assert_eq!(download_read(Err(String::from("Zero Read"))), Err(String::from("Download: Zero Read")));
}

#[test]
fn upload_round_sends_only_the_round_size() {
    let mut p = UploadPlan::new(SEC);
    assert!(!p.adjust(Some(3)));
    let (mut stream, out) = wire(2, 0);
    let buf = vec![b'A'; p.size];
    assert_eq!(stream.upload_round(&mut p, &buf), Ok(()));
    assert_eq!(*out.borrow(), vec![b'A'; 3]);
    assert_eq!(p.sent, 3);
    assert_eq!(p.clock, Countdown::new(SEC));
}

#[test]
fn upload_round_that_fails_counts_nothing() {
    let mut p = UploadPlan::new(SEC);
    let (mut stream, out) = wire(0, 0);
    let buf = vec![b'A'; p.size];
    assert_eq!(stream.upload_round(&mut p, &buf), Err(String::from("failed to write")));
    assert_eq!(p.sent, 0);
    assert!(out.borrow().is_empty());
}

#[test]
fn download_round_of_nothing_fails_and_counts_nothing() {
    let mut p = DownloadPlan::new(SEC);
    let (mut stream, _) = wire(1, 0);
    let mut buf = vec![0u8; 16];
    assert_eq!(
        stream.download_round(&mut p, &mut buf),
        Err(String::from("Download: Zero Read"))
    );
    assert_eq!(p.downloaded, 0);
}
