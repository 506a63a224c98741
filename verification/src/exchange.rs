//! The exchanges that a stream has with its connection, and the shape of a
//! run of writes that sends a whole buffer.

use vstd::prelude::*;

verus! {

/// One call on a connection of type `C`: the connection before and after the
/// call, what the call was given and what it answered.
pub enum Exchange<C> {
    /// A write that was offered `offered`.
    Write { before: C, offered: Seq<u8>, after: C, answer: Result<usize, String> },
    /// A read into a buffer that held `given` and afterwards held `filled`.
    Read { before: C, given: Seq<u8>, after: C, filled: Seq<u8>, answer: Result<usize, String> },
}

impl<C> Exchange<C> {
    /// The connection before the call.
    pub open spec fn before(self) -> C {
        match self {
            Exchange::Write { before, .. } => before,
            Exchange::Read { before, .. } => before,
        }
    }

    /// The connection after the call.
    pub open spec fn after(self) -> C {
        match self {
            Exchange::Write { after, .. } => after,
            Exchange::Read { after, .. } => after,
        }
    }

    /// What the connection answered.
    pub open spec fn reply(self) -> Result<usize, String> {
        match self {
            Exchange::Write { answer, .. } => answer,
            Exchange::Read { answer, .. } => answer,
        }
    }

    /// The count that the connection answered, or 0 for an error.
    pub open spec fn count(self) -> nat {
        match self.reply() {
            Ok(n) => n as nat,
            Err(_) => 0,
        }
    }
}

/// The bytes that a series of calls took in all.
pub open spec fn taken_total<C>(es: Seq<Exchange<C>>) -> nat
    decreases es.len(),
{
    if es.len() == 0 {
        0
    } else {
        taken_total(es.drop_last()) + es.last().count()
    }
}

/// The calls follow one another on one connection, from `c0` to `c1`.
pub open spec fn chained<C>(es: Seq<Exchange<C>>, c0: C, c1: C) -> bool
    decreases es.len(),
{
    if es.len() == 0 {
        c0 == c1
    } else {
        chained(es.drop_last(), c0, es.last().before()) && es.last().after() == c1
    }
}

/// Every call answered a count of at least one.
pub open spec fn all_took<C>(es: Seq<Exchange<C>>) -> bool {
    forall|i: int| 0 <= i < es.len() ==> (#[trigger] es[i].reply() matches Ok(n) && n >= 1)
}

/// Each call is a write offered the part of `buf` that the calls before it had
/// not taken, and that part was not empty.
pub open spec fn pieces<C>(es: Seq<Exchange<C>>, buf: Seq<u8>) -> bool
    decreases es.len(),
{
    if es.len() == 0 {
        true
    } else {
        &&& pieces(es.drop_last(), buf)
        &&& taken_total(es.drop_last()) < buf.len()
        &&& es.last() matches Exchange::Write { offered, .. }
        &&& offered == buf.skip(taken_total(es.drop_last()) as int)
    }
}

/// The writes of a run that sends `buf` over a connection going from `c0` to
/// `c1`: each is offered the rest of `buf`; all but the last took something;
/// there are none for an empty `buf`; and when the last took something, the
/// writes took `buf` whole.
pub open spec fn write_run<C>(es: Seq<Exchange<C>>, buf: Seq<u8>, c0: C, c1: C) -> bool {
    &&& chained(es, c0, c1)
    &&& pieces(es, buf)
    &&& es.len() == 0 ==> buf.len() == 0
    &&& es.len() > 0 ==> all_took(es.drop_last())
    &&& es.len() > 0 && es.last().count() >= 1 ==> taken_total(es) == buf.len()
}

/// What a run of writes comes to: success unless the last write took nothing
/// (the error `zero`) or failed (the error `prefix` followed by its text).
pub open spec fn run_outcome<C>(es: Seq<Exchange<C>>, zero: Seq<char>, prefix: Seq<char>) -> Result<
    (),
    Seq<char>,
> {
    if es.len() == 0 {
        Ok(())
    } else {
        match es.last().reply() {
            Ok(n) => if n == 0 {
                Err(zero)
            } else {
                Ok(())
            },
            Err(e) => Err(prefix + e@),
        }
    }
}

/// A result with its error as text.
pub open spec fn outcome(r: Result<(), String>) -> Result<(), Seq<char>> {
    match r {
        Ok(()) => Ok(()),
        Err(e) => Err(e@),
    }
}

/// An outcome whose error, if any, is preceded by `prefix`.
pub open spec fn with_prefix(o: Result<(), Seq<char>>, prefix: Seq<char>) -> Result<(), Seq<char>> {
    match o {
        Ok(()) => Ok(()),
        Err(m) => Err(prefix + m),
    }
}

/// The exchanges made after the first `start` ones of `log`.
pub open spec fn since<C>(log: Seq<Exchange<C>>, start: Seq<Exchange<C>>) -> Seq<Exchange<C>> {
    log.skip(start.len() as int)
}

/// `log` goes on from `start`.
pub open spec fn extends<C>(log: Seq<Exchange<C>>, start: Seq<Exchange<C>>) -> bool {
    start.len() <= log.len() && log.take(start.len() as int) == start
}

/// `p` holds of every exchange of `es`.
pub open spec fn all_hold<C>(es: Seq<Exchange<C>>, p: spec_fn(Exchange<C>) -> bool) -> bool {
    forall|i: int| 0 <= i < es.len() ==> p(#[trigger] es[i])
}

/// A log that goes on from `start` with the exchanges `es`.
pub proof fn lemma_log_grows<C>(start: Seq<Exchange<C>>, es: Seq<Exchange<C>>)
    ensures
        extends(start + es, start),
        since(start + es, start) == es,
{
    assert((start + es).skip(start.len() as int) =~= es);
    assert((start + es).take(start.len() as int) =~= start);
}

/// One more write in a run that sends `buf`: it was offered what the writes
/// before had not taken. The run's facts carry over to the longer run.
pub proof fn lemma_write_step<C>(
    es: Seq<Exchange<C>>,
    e: Exchange<C>,
    buf: Seq<u8>,
    c0: C,
    p: spec_fn(Exchange<C>) -> bool,
)
    requires
        chained(es, c0, e.before()),
        pieces(es, buf),
        all_took(es),
        all_hold(es, p),
        p(e),
        taken_total(es) < buf.len(),
        e matches Exchange::Write { offered, .. } && offered == buf.skip(taken_total(es) as int),
    ensures
        chained(es.push(e), c0, e.after()),
        pieces(es.push(e), buf),
        all_hold(es.push(e), p),
        all_took(es.push(e).drop_last()),
        taken_total(es.push(e)) == taken_total(es) + e.count(),
        e.count() >= 1 ==> all_took(es.push(e)),
{
    lemma_push(es, e);
    let es2 = es.push(e);
    assert forall|i: int| 0 <= i < es2.len() implies p(#[trigger] es2[i]) by {
        if i < es.len() {
            assert(es2[i] == es[i]);
        }
    }
    if e.count() >= 1 {
        assert forall|i: int| 0 <= i < es2.len() implies (#[trigger] es2[i].reply() matches Ok(
            n,
        ) && n >= 1) by {
            if i < es.len() {
                assert(es2[i] == es[i]);
            }
        }
    }
}

/// A run that stopped, either having taken `buf` whole or at a write that
/// took nothing or failed, has the shape of a write run.
pub proof fn lemma_run_ends<C>(es: Seq<Exchange<C>>, buf: Seq<u8>, c0: C, c1: C)
    requires
        chained(es, c0, c1),
        pieces(es, buf),
        es.len() > 0 ==> all_took(es.drop_last()),
        es.len() == 0 ==> buf.len() == 0,
        es.len() > 0 && es.last().count() >= 1 ==> taken_total(es) == buf.len(),
    ensures
        write_run(es, buf, c0, c1),
        es.len() <= buf.len(),
{
    lemma_run_bounded(es, buf, c0, c1);
}

/// A run all of whose writes took something keeps that fact for its
/// writes but the last.
pub proof fn lemma_all_took_drop_last<C>(es: Seq<Exchange<C>>)
    requires
        es.len() > 0,
        all_took(es),
    ensures
        all_took(es.drop_last()),
{
    assert forall|i: int| 0 <= i < es.drop_last().len() implies (
    #[trigger] es.drop_last()[i].reply() matches Ok(n) && n >= 1) by {
        assert(es.drop_last()[i] == es[i]);
    }
}

/// Law: a run of writes makes at most one write per byte of the buffer.
pub proof fn lemma_run_bounded<C>(es: Seq<Exchange<C>>, buf: Seq<u8>, c0: C, c1: C)
    requires
        write_run(es, buf, c0, c1),
    ensures
        es.len() <= buf.len(),
{
    if es.len() > 0 {
        lemma_took_at_least_count(es.drop_last());
    }
}

/// Calls that each took something took at least one byte apiece.
pub proof fn lemma_took_at_least_count<C>(es: Seq<Exchange<C>>)
    requires
        all_took(es),
    ensures
        taken_total(es) >= es.len(),
    decreases es.len(),
{
    if es.len() > 0 {
        assert(all_took(es.drop_last())) by {
            assert forall|i: int| 0 <= i < es.drop_last().len() implies (
            #[trigger] es.drop_last()[i].reply() matches Ok(n) && n >= 1) by {
                assert(es.drop_last()[i] == es[i]);
            }
        }
        lemma_took_at_least_count(es.drop_last());
        assert(es[es.len() - 1].reply() matches Ok(n) && n >= 1);
    }
}

/// Appending a call: the facts about the earlier calls carry over.
pub proof fn lemma_push<C>(es: Seq<Exchange<C>>, e: Exchange<C>)
    ensures
        es.push(e).drop_last() == es,
        es.push(e).last() == e,
        taken_total(es.push(e)) == taken_total(es) + e.count(),
{
    assert(es.push(e).drop_last() =~= es);
}

} // verus!
