//! The network seam: one conditional, size-capped, cancellable GET.
//!
//! A host performs the transfer; what the transfer decides — how a
//! response status is read, what total is reported, when a body has
//! overrun its cap — is here, as a [`Transfer`] the host feeds.
use vstd::prelude::*;

verus! {

/// Called with `(downloaded, total)` as the body arrives; returning false
/// cancels the transfer (see [`Transfer::report`]). Shared with the
/// thread that runs the transfer.
pub trait ProgressCallback: Send + Sync {
    /// Whether `answer` is an answer the callback may give when told
    /// `(downloaded, total)`. A callback may keep state, so more than one
    /// answer may be possible.
    /// A callback that does not say leaves every answer possible.
    closed spec fn answers(&self, downloaded: u64, total: u64, answer: bool) -> bool {
        true
    }

    fn call(&self, downloaded: u64, total: u64) -> (r: bool)
        ensures
            self.answers(downloaded, total, r),
    ;
}

/// One GET.
pub struct Request<'a> {
    pub url: &'a str,
    /// Sent as `If-None-Match`, making the request conditional.
    pub if_none_match: Option<&'a str>,
    /// Hard cap on the body: a transfer that overruns it is abandoned as
    /// soon as it does.
    pub max_len: Option<u64>,
    pub on_progress: Option<&'a dyn ProgressCallback>,
}

impl<'a> Request<'a> {
    /// An unconditional, uncapped GET of `url`, without progress reports.
    pub fn new(url: &'a str) -> (r: Request<'a>)
        ensures
            r.url == url,
            r.if_none_match is None,
            r.max_len is None,
            r.on_progress is None,
    {
        Request { url, if_none_match: None, max_len: None, on_progress: None }
    }
}

/// How a GET ended, short of an error.
#[derive(Debug)]
pub enum Fetch {
    /// The conditional request matched: nothing was transferred.
    NotModified,
    /// The progress callback asked to stop.
    Cancelled,
    Body { etag: Option<String>, body: Vec<u8> },
}

/// Why a GET failed.
#[derive(Debug, PartialEq, Eq)]
pub enum Error {
    Transport(String),
    Status(u16),
    TooLarge { limit: u64 },
    Timeout,
}

/// What a response status means for the transfer.
#[derive(Debug, PartialEq, Eq)]
pub enum StatusVerdict {
    /// 304: the conditional request matched.
    NotModified,
    /// Any other status outside 200..=299.
    Failed(u16),
    /// Read the body.
    Proceed,
}

/// What a response status means for the transfer.
pub fn classify_status(status: u16) -> (r: StatusVerdict)
    ensures
        status == 304 ==> r == StatusVerdict::NotModified,
        status != 304 && !(200 <= status <= 299) ==> r == StatusVerdict::Failed(status),
        200 <= status <= 299 ==> r == StatusVerdict::Proceed,
{
    if status == 304 {
        StatusVerdict::NotModified
    } else if status < 200 || status > 299 {
        StatusVerdict::Failed(status)
    } else {
        StatusVerdict::Proceed
    }
}

/// The total a transfer reports progress against: the server's length,
/// else the caller's expected size, else 0.
pub fn expected_total(content_length: Option<u64>, max_len: Option<u64>) -> (r: u64)
    ensures
        r == match content_length {
            Some(n) => n,
            None => match max_len {
                Some(m) => m,
                None => 0,
            },
        },
{
    match content_length {
        Some(n) => n,
        None => match max_len {
            Some(m) => m,
            None => 0,
        },
    }
}

/// A body being received under an optional cap.
pub struct Transfer {
    body: Vec<u8>,
    max_len: Option<u64>,
    total: u64,
}

/// Whether `len` bytes fit under `cap`.
pub open spec fn within(cap: Option<u64>, len: int) -> bool {
    match cap {
        Some(limit) => len <= limit,
        None => true,
    }
}

impl Transfer {
    #[verifier::type_invariant]
    spec fn inv(self) -> bool {
        within(self.max_len, self.body@.len() as int)
    }

    /// The bytes received so far.
    pub closed spec fn received(&self) -> Seq<u8> {
        self.body@
    }

    /// The cap the transfer was started with.
    pub closed spec fn cap(&self) -> Option<u64> {
        self.max_len
    }

    /// The total it reports progress against.
    pub closed spec fn reported_total(&self) -> u64 {
        self.total
    }

    /// Start receiving a body for `request`'s cap, reporting progress
    /// against `total`.
    pub fn new(max_len: Option<u64>, total: u64) -> (t: Transfer)
        ensures
            t.received() == Seq::<u8>::empty(),
            t.cap() == max_len,
            t.reported_total() == total,
    {
        Transfer { body: Vec::new(), max_len, total }
    }

    /// How many bytes have arrived; never more than the cap.
    pub fn downloaded(&self) -> (r: u64)
        ensures
            r == self.received().len(),
            within(self.cap(), self.received().len() as int),
    {
        proof {
            use_type_invariant(self);
        }
        let n = self.body.len();
        assert(n <= u64::MAX) by {
            if n > u64::MAX {
                assert(self.max_len is None ==> n <= usize::MAX);
            }
        }
        n as u64
    }

    /// The progress report after the bytes so far: `(downloaded, total)`.
    pub fn progress(&self) -> (r: (u64, u64))
        ensures
            r == (self.received().len() as u64, self.reported_total()),
    {
        (self.downloaded(), self.total)
    }

    /// Take in the next chunk, or refuse it and abandon the transfer when
    /// it would carry the body past the cap.
    pub fn accept(&mut self, chunk: &[u8]) -> (r: Result<(), Error>)
        ensures
            final(self).cap() == old(self).cap(),
            final(self).reported_total() == old(self).reported_total(),
            within(old(self).cap(), (old(self).received().len() + chunk@.len()) as int) ==> r is Ok
                && final(self).received() == old(self).received() + chunk@,
            !within(old(self).cap(), (old(self).received().len() + chunk@.len()) as int) ==> r == Err::<(), Error>(
                Error::TooLarge { limit: old(self).cap()->Some_0 },
            ) && final(self).received() == old(self).received(),
    {
        proof {
            use_type_invariant(&*self);
        }
        match self.max_len {
            Some(limit) => {
                let have = self.body.len() as u64;
                let more = chunk.len() as u64;
                assert(have == self.body@.len());
                if more > limit || have > limit - more {
                    return Err(Error::TooLarge { limit });
                }
            },
            None => {},
        }
        let ghost before = self.body@;
        let mut body: Vec<u8> = Vec::new();
        std::mem::swap(&mut body, &mut self.body);
        let mut i: usize = 0;
        while i < chunk.len()
            invariant
                i <= chunk@.len(),
                body@ == before + chunk@.take(i as int),
            decreases chunk@.len() - i,
        {
            body.push(chunk[i]);
            i = i + 1;
            assert(body@ =~= before + chunk@.take(i as int));
        }
        assert(chunk@.take(i as int) =~= chunk@);
        self.body = body;
        Ok(())
    }

    /// The finished body, with the server's validator if it sent one.
    pub fn finish(self, etag: Option<String>) -> (r: Fetch)
        ensures
            r matches Fetch::Body { etag: e, body } && e == etag && body@ == self.received(),
    {
        Fetch::Body { etag, body: self.body }
    }
}

impl Transfer {
    /// Report the progress so far, `(bytes received, total)`, to
    /// `on_progress`, if there is one: `Some(Cancelled)` when it answers
    /// false, that the transfer should stop.
    pub fn report(&self, on_progress: Option<&dyn ProgressCallback>) -> (r: Option<Fetch>)
        ensures
            on_progress is None ==> r is None,
            on_progress matches Some(cb) ==> exists|a: bool|
                #[trigger] cb.answers(self.received().len() as u64, self.reported_total(), a) && (r is None <==> a),
            r is Some ==> r matches Some(Fetch::Cancelled),
    {
        match on_progress {
            Some(cb) => {
                let (done, total) = self.progress();
                if cb.call(done, total) {
                    None
                } else {
                    Some(Fetch::Cancelled)
                }
            },
            None => None,
        }
    }

    /// Take the next piece of the body as the transport delivered it: a
    /// transport failure ends the transfer with that failure; a chunk that
    /// would carry the body past its cap ends it as too large; any other
    /// chunk is kept and then reported, and the report may cancel.
    /// `None` means the transfer goes on.
    pub fn receive(&mut self, chunk: Result<Vec<u8>, Error>, on_progress: Option<&dyn ProgressCallback>) -> (r: Option<
        Result<Fetch, Error>,
    >)
        ensures
            final(self).cap() == old(self).cap(),
            final(self).reported_total() == old(self).reported_total(),
            match chunk {
                Err(e) => r == Some(Err::<Fetch, Error>(e)) && final(self).received() == old(self).received(),
                Ok(c) => if within(old(self).cap(), (old(self).received().len() + c@.len()) as int) {
                    &&& final(self).received() == old(self).received() + c@
                    &&& (r is None || r matches Some(Ok(Fetch::Cancelled)))
                    &&& on_progress is None ==> r is None
                    &&& on_progress matches Some(cb) ==> exists|a: bool|
                        #[trigger] cb.answers(final(self).received().len() as u64, final(self).reported_total(), a)
                            && (r is None <==> a)
                } else {
                    r == Some(Err::<Fetch, Error>(Error::TooLarge { limit: old(self).cap()->Some_0 }))
                        && final(self).received() == old(self).received()
                },
            },
    {
        let c = match chunk {
            Ok(c) => c,
            Err(e) => {
                return Some(Err(e));
            },
        };
        match self.accept(c.as_slice()) {
            Ok(()) => {},
            Err(e) => {
                return Some(Err(e));
            },
        }
        match self.report(on_progress) {
            Some(f) => Some(Ok(f)),
            None => None,
        }
    }
}

} // verus!
