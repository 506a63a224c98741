use downup::server::{finish_in, receive_upload_round, send_download_round, DOWNLOAD_BUFFER, UPLOAD_BUFFER};
use downup::stream::{NetStream, Stream};

struct Peer {
    incoming: Vec<u8>,
    out: Vec<u8>,
    write_error: Option<String>,
    read_error: Option<String>,
}

impl NetStream for Peer {
    fn write(&mut self, buf: &[u8]) -> Result<usize, String> {
        match &self.write_error {
            Some(e) => Err(e.clone()),
            None => {
                self.out.extend_from_slice(buf);
                Ok(buf.len())
            }
        }
    }
    fn read(&mut self, buf: &mut [u8]) -> Result<usize, String> {
        if let Some(e) = &self.read_error {
            return Err(e.clone());
        }
        let n = buf.len().min(self.incoming.len());
        buf[..n].copy_from_slice(&self.incoming[..n]);
        self.incoming.drain(..n);
        Ok(n)
    }
    fn write_buffer_size(&self) -> Result<usize, String> {
        Ok(0)
    }
    fn read_buffer_size(&self) -> Result<usize, String> {
        Ok(0)
    }
}

fn peer(incoming: &[u8]) -> Peer {
    Peer { incoming: incoming.to_vec(), out: Vec::new(), write_error: None, read_error: None }
}

#[test]
fn buffer_sizes() {
    assert_eq!(UPLOAD_BUFFER, 102_400);
    assert_eq!(DOWNLOAD_BUFFER, 10_240);
}

#[test]
fn finish_is_found_only_in_the_prefix() {
    assert!(finish_in(&[65, 65, 4, 65], 3));
    assert!(!finish_in(&[65, 65, 65, 4], 3));
    assert!(!finish_in(&[4], 0));
}

#[test]
fn upload_round_goes_on_until_finish() {
    let mut s = Stream::new(peer(&[65, 65, 65, 4]));
    let mut buf = [0u8; 2];
    assert_eq!(receive_upload_round(&mut s, &mut buf), Ok(false));
    assert_eq!(receive_upload_round(&mut s, &mut buf), Ok(true));
    assert_eq!(receive_upload_round(&mut s, &mut buf), Err(String::from("Zero Read")));
}

#[test]
fn download_round_sends_while_it_can() {
    let mut s = Stream::new(peer(&[]));
    assert_eq!(send_download_round(&mut s, &[65, 65]), Ok(false));
}

#[test]
fn download_round_ends_on_finish_after_a_failed_send() {
    let mut p = peer(&[4]);
    p.write_error = Some(String::from("broken pipe"));
    let mut s = Stream::new(p);
    assert_eq!(send_download_round(&mut s, &[65]), Ok(true));
}

#[test]
fn download_round_fails_with_the_send_error_otherwise() {
    let mut p = peer(&[2]);
    p.write_error = Some(String::from("broken pipe"));
    let mut s = Stream::new(p);
    assert_eq!(send_download_round(&mut s, &[65]), Err(String::from("broken pipe")));
    let mut p = peer(&[]);
    p.write_error = Some(String::from("broken pipe"));
    let mut s = Stream::new(p);
    assert_eq!(send_download_round(&mut s, &[65]), Err(String::from("Zero Read")));
    let mut p = peer(&[4]);
    p.write_error = Some(String::from("broken pipe"));
    p.read_error = Some(String::from("reset"));
    let mut s = Stream::new(p);
    assert_eq!(send_download_round(&mut s, &[65]), Err(String::from("reset")));
}
