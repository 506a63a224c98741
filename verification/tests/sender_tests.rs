use downup::sender::stream::Server as Conn;
use downup::sender::{Client, FileUpload, Server};
use std::cell::RefCell;
use std::rc::Rc;

struct Sink {
    out: Rc<RefCell<Vec<u8>>>,
    chunk: usize,
    error: Option<String>,
}

impl Conn for Sink {
    fn write(&mut self, buf: &[u8]) -> Result<usize, String> {
        if let Some(e) = &self.error {
            return Err(e.clone());
        }
        let n = buf.len().min(self.chunk);
        self.out.borrow_mut().extend_from_slice(&buf[..n]);
        Ok(n)
    }
    fn download(&self, _buf: &mut [u8]) -> Result<(), String> {
        Ok(())
    }
}

fn sender(chunk: usize, error: Option<&str>) -> (Server<Sink>, Rc<RefCell<Vec<u8>>>) {
    let out = Rc::new(RefCell::new(Vec::new()));
    (Server::new(Sink { out: out.clone(), chunk, error: error.map(String::from) }), out)
}

#[test]
fn command_is_sent_whole() {
    let (mut s, out) = sender(3, None);
    assert_eq!(s.command(String::from("CLOSE")), Ok(()));
    assert_eq!(*out.borrow(), b"CLOSE".to_vec());
}

#[test]
fn upload_command_carries_the_size() {
    let (mut s, out) = sender(4, None);
    assert_eq!(s.cmd_upload(1234), Ok(()));
    assert_eq!(*out.borrow(), b"UPLOAD:1234".to_vec());
}

#[test]
fn command_errors_are_reported() {
    let (mut s, out) = sender(4, Some("closed"));
    assert_eq!(s.cmd_upload(1), Err(String::from("Error on command: closed")));
    let (mut s, out) = sender(0, None);
    assert_eq!(s.cmd_upload(1), Err(String::from("Error on command: failed to write")));
}

#[test]
fn client_speed_and_download() {
    assert_eq!(Client::<Sink>::calc_speed(2_000_000, 2_000_000_000), 1_000_000);
    let (c, _out): (Client<Sink>, _) = sender(1, None);
    let mut buf = [0u8; 2];
    assert_eq!(c.download(&mut buf), Ok(()));
}

#[test]
fn file_progress() {
    let mut u = FileUpload::new(10);
    assert!(!u.done());
    u.record(4, 100);
    u.record(6, 50);
    assert_eq!(u, FileUpload { size: 10, sent: 10, sum_nanos: 150 });
    assert!(u.done());
    let u = FileUpload { size: 1000, sent: 100, sum_nanos: 1 };
    assert_eq!(u.remaining_secs(300), 3);
}

#[test]
fn upload_round_writes_the_rest() {
    let (mut s, out) = sender(3, None);
    let file = b"abcdefgh";
    let mut p = FileUpload::new(8);
    let n = s.upload_round(file, &p).unwrap();
    assert_eq!(n, 3);
    p.record(n, 10);
    assert_eq!(s.upload_round(file, &p), Ok(3));
    assert_eq!(*out.borrow(), b"abcdef".to_vec());
    let (mut s, _out) = sender(3, Some("reset"));
    assert_eq!(s.upload_round(file, &p), Err(String::from("Error on write: reset")));
}
