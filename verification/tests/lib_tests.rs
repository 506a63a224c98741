use downup::session::{DownloadPlan, UploadPlan};
use downup::stream::NetStream;
use downup::utils::Command;
use downup::{select_protocol, Client, Protocol};
use std::cell::RefCell;
use std::rc::Rc;

struct Pipe {
    out: Rc<RefCell<Vec<u8>>>,
    chunk: usize,
    error: Option<String>,
}

impl NetStream for Pipe {
    fn write(&mut self, buf: &[u8]) -> Result<usize, String> {
        if let Some(e) = &self.error {
            return Err(e.clone());
        }
        let n = buf.len().min(self.chunk);
        self.out.borrow_mut().extend_from_slice(&buf[..n]);
        Ok(n)
    }
    fn read(&mut self, buf: &mut [u8]) -> Result<usize, String> {
        Ok(buf.len().min(1))
    }
    fn write_buffer_size(&self) -> Result<usize, String> {
        Ok(8192)
    }
    fn read_buffer_size(&self) -> Result<usize, String> {
        Err(String::from("no buffer"))
    }
}

fn client(chunk: usize, error: Option<&str>) -> (Client<Pipe>, Rc<RefCell<Vec<u8>>>) {
    let out = Rc::new(RefCell::new(Vec::new()));
    let pipe = Pipe { out: out.clone(), chunk, error: error.map(String::from) };
    (Client::new(pipe), out)
}

#[test]
fn protocols_are_selected_by_name() {
    assert_eq!(select_protocol("tcp"), Ok(Protocol::Tcp));
    assert_eq!(select_protocol("udp"), Ok(Protocol::Udp));
    assert_eq!(select_protocol("TCP"), Err(String::from("protocol not defined")));
    assert_eq!(select_protocol(""), Err(String::from("protocol not defined")));
}

#[test]
fn client_passes_reads_and_buffer_sizes_through() {
    let (mut c, _out) = client(1, None);
    let mut buf = [0u8; 3];
    assert_eq!(c.read(&mut buf), Ok(1));
    assert_eq!(c.send_buffer_size(), Ok(8192));
    assert_eq!(c.recv_buffer_size(), Err(String::from("no buffer")));
}

#[test]
fn write_buf_reports_errors_with_context() {
    let (mut c, out) = client(2, None);
    assert_eq!(c.write_buf(&[1, 2, 3]), Ok(2));
    let (mut c, out) = client(2, Some("timed out"));
    assert_eq!(c.write_buf(&[1]), Err(String::from("Error on write: timed out")));
}

#[test]
fn write_sends_everything() {
    let (mut c, out) = client(2, None);
    assert_eq!(c.write(&[1, 2, 3, 4, 5]), Ok(()));
    assert_eq!(*out.borrow(), vec![1, 2, 3, 4, 5]);
}

#[test]
fn write_fails_when_nothing_is_taken() {
    let (mut c, out) = client(0, None);
    assert_eq!(c.write(&[1]), Err(String::from("failed to write")));
}

#[test]
fn command_errors_say_command() {
    let (mut c, out) = client(1, None);
    assert_eq!(c.command(Command::Download), Ok(()));
    assert_eq!(*out.borrow(), vec![0x03]);
    let (mut c, out) = client(1, Some("refused"));
    assert_eq!(
        c.command(Command::Finish),
        Err(String::from("Error on command: Error on write: refused"))
    );
    let (mut c, out) = client(0, None);
    assert_eq!(c.command(Command::Finish), Err(String::from("Error on command: failed to write")));
}

#[test]
fn client_upload_round_counts_a_full_round() {
    let (mut c, out) = client(1000, None);
    let mut plan = UploadPlan::new(1_000_000_000);
    assert!(!plan.adjust(Some(2500)));
    let buf = vec![65u8; plan.size];
    assert_eq!(c.upload_round(&mut plan, &buf), Ok(()));
    assert_eq!(plan.sent, 2500);
    assert_eq!(*out.borrow(), vec![65u8; 2500]);
    let (mut c, _) = client(1000, Some("reset"));
    assert_eq!(c.upload_round(&mut plan, &buf), Err(String::from("Error on write: reset")));
    assert_eq!(plan.sent, 2500);
}

#[test]
fn client_download_round_counts_what_was_read() {
    let (mut c, _) = client(1, None);
    let mut plan = DownloadPlan::new(1_000_000_000);
    let mut buf = vec![0u8; 8];
    assert_eq!(c.download_round(&mut plan, &mut buf), Ok(1));
    assert_eq!(c.download_round(&mut plan, &mut buf), Ok(1));
    assert_eq!(plan.downloaded, 2);
    let mut empty: Vec<u8> = Vec::new();
    assert_eq!(
        c.download_round(&mut plan, &mut empty),
        Err(String::from("Download Read Zero"))
    );
    assert_eq!(plan.downloaded, 2);
}
