use downup::stream::{NetStream, Stream};
use downup::utils::Command;
use std::cell::RefCell;
use std::rc::Rc;

/// A connection that takes at most `chunk` bytes per write and replays `input` on reads.
struct Mock {
    out: Rc<RefCell<Vec<u8>>>,
    chunk: usize,
    fail_write: bool,
    input: Vec<u8>,
    pos: usize,
    fail_read: bool,
}

impl Mock {
    fn new(chunk: usize) -> Mock {
        Mock { out: Rc::new(RefCell::new(Vec::new())), chunk, fail_write: false, input: Vec::new(), pos: 0, fail_read: false }
    }
}

impl NetStream for Mock {
    fn write(&mut self, buf: &[u8]) -> Result<usize, String> {
        if self.fail_write {
            return Err(String::from("broken pipe"));
        }
        let n = buf.len().min(self.chunk);
        self.out.borrow_mut().extend_from_slice(&buf[..n]);
        Ok(n)
    }
    fn read(&mut self, buf: &mut [u8]) -> Result<usize, String> {
        if self.fail_read {
            return Err(String::from("reset"));
        }
        let n = buf.len().min(self.input.len() - self.pos);
        buf[..n].copy_from_slice(&self.input[self.pos..self.pos + n]);
        self.pos += n;
        Ok(n)
    }
    fn write_buffer_size(&self) -> Result<usize, String> {
        Ok(4096)
    }
    fn read_buffer_size(&self) -> Result<usize, String> {
        Err(String::from("unsupported"))
    }
}

fn log(m: &Mock) -> Rc<RefCell<Vec<u8>>> {
    m.out.clone()
}

fn sent(out: &Rc<RefCell<Vec<u8>>>) -> Vec<u8> {
    out.borrow().clone()
}

#[test]
fn write_all_sends_every_byte_in_chunks() {
    let m = Mock::new(3);
    let out = log(&m);
    let mut s = Stream::new(m);
    let data: Vec<u8> = (0u8..10).collect();
    assert_eq!(s.write_all(&data), Ok(()));
    assert_eq!(sent(&out), data);
}

#[test]
fn write_all_of_nothing_writes_nothing() {
    let m = Mock::new(0);
    let out = log(&m);
    let mut s = Stream::new(m);
    assert_eq!(s.write_all(&[]), Ok(()));
    assert_eq!(sent(&out), Vec::<u8>::new());
}

#[test]
fn write_all_stops_when_a_write_takes_nothing() {
    let mut s = Stream::new(Mock::new(0));
    assert_eq!(s.write_all(&[1, 2, 3]), Err(String::from("failed to write")));
}

#[test]
fn write_all_passes_the_connection_error_on() {
    let mut m = Mock::new(4);
    m.fail_write = true;
    let mut s = Stream::new(m);
    assert_eq!(s.write_all(&[1, 2, 3]), Err(String::from("broken pipe")));
}

#[test]
fn write_returns_the_prefix_length() {
    let m = Mock::new(2);
    let out = log(&m);
    let mut s = Stream::new(m);
    assert_eq!(s.write(&[7, 8, 9]), Ok(2));
    assert_eq!(sent(&out), vec![7, 8]);
}

#[test]
fn read_of_nothing_is_an_error() {
    let mut s = Stream::new(Mock::new(1));
    let mut buf = [0u8; 4];
    assert_eq!(s.read(&mut buf), Err(String::from("Zero Read")));
}

#[test]
fn read_fills_a_prefix() {
    let mut m = Mock::new(1);
    m.input = vec![5, 6];
    let mut s = Stream::new(m);
    let mut buf = [0u8; 4];
    assert_eq!(s.read(&mut buf), Ok(2));
    assert_eq!(buf, [5, 6, 0, 0]);
}

#[test]
fn read_error_is_passed_on() {
    let mut m = Mock::new(1);
    m.fail_read = true;
    let mut s = Stream::new(m);
    let mut buf = [0u8; 4];
    assert_eq!(s.read(&mut buf), Err(String::from("reset")));
}

#[test]
fn command_sends_its_byte() {
    let m = Mock::new(8);
    let out = log(&m);
    let mut s = Stream::new(m);
    assert_eq!(s.command(Command::Upload), Ok(()));
    assert_eq!(s.command(Command::Finish), Ok(()));
    assert_eq!(sent(&out), vec![0x02, 0x04]);
}

#[test]
fn buffer_sizes_come_from_the_connection() {
    let s = Stream::new(Mock::new(8));
    assert_eq!(s.write_buffer_size(), Ok(4096));
    assert_eq!(s.read_buffer_size(), Err(String::from("unsupported")));
}
