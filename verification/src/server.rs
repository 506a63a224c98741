use vstd::prelude::*;
use crate::stream::{NetStream, Stream, checked_read, answer, net_made};
use crate::exchange::Exchange;
use crate::utils::{Command, command_byte};

verus! {

/// The buffer that the server reads an upload into: 100 KiB.
pub const UPLOAD_BUFFER: usize = 102_400;

/// The buffer of 'A's that the server sends a download from: 10 KiB.
pub const DOWNLOAD_BUFFER: usize = 10_240;

/// Whether `data` holds the byte of the Finish command.
pub open spec fn holds_finish(data: Seq<u8>) -> bool {
    exists|i: int| 0 <= i < data.len() && data[i] == command_byte(Command::Finish)
}

/// Law: bytes read end an upload exactly when one of them, the first as much as
/// any other, is the Finish byte 0x04; and what two reads in a row hold ends it
/// exactly when one of the two does.
pub proof fn lemma_finish_anywhere(data: Seq<u8>, more: Seq<u8>)
    ensures
        holds_finish(data) <==> data.contains(0x04u8),
        data.len() > 0 && data[0] == 0x04u8 ==> holds_finish(data),
        holds_finish(data + more) <==> holds_finish(data) || holds_finish(more),
{
    if data.len() > 0 && data[0] == 0x04u8 {
        assert(data[0] == command_byte(Command::Finish));
    }
    if holds_finish(data + more) {
        let i = choose|i: int|
            0 <= i < (data + more).len() && (data + more)[i] == command_byte(Command::Finish);
        if i >= data.len() {
            assert(more[i - data.len()] == (data + more)[i]);
        }
    }
    if holds_finish(data) {
        let i = choose|i: int| 0 <= i < data.len() && data[i] == command_byte(Command::Finish);
        assert((data + more)[i] == data[i]);
    }
    if holds_finish(more) {
        let i = choose|i: int| 0 <= i < more.len() && more[i] == command_byte(Command::Finish);
        assert((data + more)[data.len() + i] == more[i]);
    }
}

/// Whether the first `n` bytes of `buf` hold the byte of the Finish command.
pub fn finish_in(buf: &[u8], n: usize) -> (r: bool)
    requires
        n <= buf@.len(),
    ensures
        r == holds_finish(buf@.take(n as int)),
{
    let fin: u8 = Command::Finish.to_byte();
    let mut i: usize = 0;
    while i < n
        invariant
            n <= buf@.len(),
            i <= n,
            fin == command_byte(Command::Finish),
            forall|j: int| 0 <= j < i ==> buf@[j] != fin,
        decreases n - i,
    {
        if buf[i] == fin {
            proof {
                assert(buf@.take(n as int)[i as int] == fin);
            }
            return true;
        }
        i = i + 1;
    }
    proof {
        assert forall|j: int| 0 <= j < n implies buf@.take(n as int)[j] != fin by {
            assert(buf@.take(n as int)[j] == buf@[j]);
        }
    }
    false
}

/// One round of taking an upload: reads once into `buf` and says whether the
/// bytes read hold the Finish command, which ends the upload. A failed read
/// ends it with that read's error.
pub fn receive_upload_round<N: NetStream>(stream: &mut Stream<N>, buf: &mut [u8]) -> (r: Result<
    bool,
    String,
>)
    ensures
        final(stream).sent() == old(stream).sent(),
        final(buf)@.len() == old(buf)@.len(),
        final(stream).log() == old(stream).log().push(
            Exchange::Read {
                before: old(stream).connection(),
                given: old(buf)@,
                after: final(stream).connection(),
                filled: final(buf)@,
                answer: final(stream).log().last().reply(),
            },
        ),
        net_made(final(stream).log().last()),
        match checked_read(answer(final(stream).log().last().reply())) {
            Ok(n) => 1 <= n <= old(buf)@.len() && final(stream).received() == old(stream).received()
                + final(buf)@.take(n as int) && r == Ok::<bool, String>(
                holds_finish(final(buf)@.take(n as int)),
            ),
            Err(e) => r matches Err(m) && m@ == e && final(stream).received() == old(
                stream,
            ).received(),
        },
{
    let n: usize = stream.read(buf)?;
    let done = finish_in(buf, n);
    Ok(done)
}

/// One round of serving a download: sends `buf`. When the send fails, the
/// client's answer is read: the Finish command ends the download, anything
/// else ends it with the send's error, and a failed read with the read's error.
/// `Ok(false)` means the send went through and the download goes on.
pub fn send_download_round<N: NetStream>(stream: &mut Stream<N>, buf: &[u8]) -> (r: Result<
    bool,
    String,
>)
    ensures
        final(stream).log().len() > old(stream).log().len(),
        final(stream).log().take(old(stream).log().len() as int) == old(stream).log(),
        final(stream).log()[old(stream).log().len() as int] == (Exchange::Write {
            before: old(stream).connection(),
            offered: buf@,
            after: final(stream).log()[old(stream).log().len() as int].after(),
            answer: final(stream).log()[old(stream).log().len() as int].reply(),
        }),
        net_made(final(stream).log()[old(stream).log().len() as int]),
        match final(stream).log()[old(stream).log().len() as int].reply() {
            Ok(n) => r == Ok::<bool, String>(false) && n <= buf@.len()
                && final(stream).log().len() == old(stream).log().len() + 1
                && final(stream).connection() == final(stream).log().last().after()
                && final(stream).sent() == old(stream).sent() + buf@.take(n as int)
                && final(stream).received() == old(stream).received(),
            Err(e) => {
                &&& final(stream).sent() == old(stream).sent()
                &&& final(stream).log().len() == old(stream).log().len() + 2
                &&& final(stream).log().last() matches Exchange::Read {
                    before,
                    given,
                    after,
                    filled,
                    answer: a,
                } && before == final(stream).log()[old(stream).log().len() as int].after()
                    && given == seq![0u8] && after == final(stream).connection()
                    && net_made(final(stream).log().last()) && match checked_read(answer(a)) {
                    Err(e2) => r matches Err(m) && m@ == e2 && final(stream).received() == old(
                        stream,
                    ).received(),
                    Ok(_) => final(stream).received() == old(stream).received().push(filled[0])
                        && if filled[0] == command_byte(Command::Finish) {
                        r == Ok::<bool, String>(true)
                    } else {
                        r matches Err(m) && m == e
                    },
                }
            },
        },
{
    match stream.write(buf) {
        Ok(_) => Ok(false),
        Err(e) => {
            let mut cmd: Vec<u8> = vec![0u8];
            stream.read(cmd.as_mut_slice())?;
            if cmd[0] == Command::Finish.to_byte() {
                proof {
                    assert(cmd@.take(1) =~= cmd@);
                }
                Ok(true)
            } else {
                proof {
                    assert(cmd@.take(1) =~= cmd@);
                }
                Err(e)
            }
        },
    }
}

} // verus!
