//! Logo downloads: where each logo is fetched from and stored, what a
//! response status means, and a dispatcher that keeps at most a fixed number
//! of downloads in flight.
use vstd::prelude::*;
use crate::text::same_text;

verus! {

/// The file extension of the logos, with its dot.
pub const LOGO_EXTENSION: &'static str = ".png";

/// The most downloads that may be in flight at once.
pub const MAX_IN_FLIGHT: usize = 12;

/// What to do with a response, by its status code.
#[derive(Debug, Clone, Copy, PartialEq, Eq, Structural)]
pub enum Disposition {
    /// A success: store the body.
    Save,
    /// The resource is not there: pass over it.
    Skip,
    /// Any other status: the download failed with that status.
    Fail(u16),
}

/// Why a download failed.
#[derive(Debug, Clone, Copy, PartialEq, Eq, Structural)]
pub enum Failure {
    /// The server answered with this status, neither a success nor "not found".
    Status(u16),
    /// No response, or its body could not be read.
    Transport,
    /// The body could not be stored.
    Storage,
}

/// How the download of one code ended.
#[derive(Debug, Clone, Copy, PartialEq, Eq, Structural)]
pub enum Outcome {
    Saved,
    Skipped,
    Failed(Failure),
}

/// A status in the success range.
pub open spec fn is_success(status: u16) -> bool {
    200 <= status <= 299
}

/// 404 and 410 mean the logo is not there; a success means it is stored;
/// anything else is a failure that records the status.
pub open spec fn disposition_of(status: u16) -> Disposition {
    if status == 404 || status == 410 {
        Disposition::Skip
    } else if is_success(status) {
        Disposition::Save
    } else {
        Disposition::Fail(status)
    }
}

/// What to do with a response whose status is `status`.
pub fn classify_status(status: u16) -> (r: Disposition)
    ensures
        r == disposition_of(status),
{
    if status == 404 || status == 410 {
        Disposition::Skip
    } else if 200 <= status && status <= 299 {
        Disposition::Save
    } else {
        Disposition::Fail(status)
    }
}

/// The outcome of a response whose status is `status`, given for a success
/// whether its body was stored.
pub open spec fn outcome_of(status: u16, stored: bool) -> Outcome {
    match disposition_of(status) {
        Disposition::Skip => Outcome::Skipped,
        Disposition::Fail(s) => Outcome::Failed(Failure::Status(s)),
        Disposition::Save => if stored {
            Outcome::Saved
        } else {
            Outcome::Failed(Failure::Storage)
        },
    }
}

/// The outcome of a response whose status is `status`; `stored` tells, for
/// a success, whether its body was stored.
pub fn response_outcome(status: u16, stored: bool) -> (r: Outcome)
    ensures
        r == outcome_of(status, stored),
{
    match classify_status(status) {
        Disposition::Skip => Outcome::Skipped,
        Disposition::Fail(s) => Outcome::Failed(Failure::Status(s)),
        Disposition::Save => if stored {
            Outcome::Saved
        } else {
            Outcome::Failed(Failure::Storage)
        },
    }
}

/// The logo address of `code`: the base, the code and the extension.
pub fn logo_url(base: &str, code: &str) -> (r: String)
    ensures
        r@ == base@ + code@ + LOGO_EXTENSION@,
{
    let mut r = String::from_str(base);
    r.append(code);
    r.append(LOGO_EXTENSION);
    r
}

/// The name of the file that holds the logo of `code`.
pub fn logo_file_name(code: &str) -> (r: String)
    ensures
        r@ == code@ + LOGO_EXTENSION@,
{
    let mut r = String::from_str(code);
    r.append(LOGO_EXTENSION);
    r
}

/// Hands out codes to download so that no more than a fixed number are in
/// flight at once, and records how each download ended.
pub struct Dispatcher {
    pending: Vec<String>,
    in_flight: Vec<String>,
    resolved: Vec<String>,
    outcomes: Vec<Outcome>,
    cap: usize,
    total: usize,
}

impl Dispatcher {
    /// Codes not yet handed out.
    pub closed spec fn pending(&self) -> Seq<Seq<char>> {
        self.pending.deep_view()
    }

    /// Codes handed out whose download has not ended.
    pub closed spec fn in_flight(&self) -> Seq<Seq<char>> {
        self.in_flight.deep_view()
    }

    /// Codes whose download has ended, in the order they ended.
    pub closed spec fn resolved(&self) -> Seq<Seq<char>> {
        self.resolved.deep_view()
    }

    /// How each download in `resolved` ended.
    pub closed spec fn outcomes(&self) -> Seq<Outcome> {
        self.outcomes@
    }

    /// The most downloads in flight at once.
    pub closed spec fn cap(&self) -> nat {
        self.cap as nat
    }

    /// How many codes were given at the start.
    pub closed spec fn total(&self) -> nat {
        self.total as nat
    }

    /// The bound holds, and every code given at the start is in exactly one
    /// of the three stages.
    pub open spec fn wf(&self) -> bool {
        &&& self.cap() > 0
        &&& self.in_flight().len() <= self.cap()
        &&& self.resolved().len() == self.outcomes().len()
        &&& self.pending().len() + self.in_flight().len() + self.resolved().len() == self.total()
    }

    /// All downloads have ended.
    pub open spec fn finished(&self) -> bool {
        self.pending().len() == 0 && self.in_flight().len() == 0
    }

    /// While downloads remain, either one more may be handed out or one is
    /// in flight and will end: the dispatcher never stalls.
    pub proof fn lemma_progress(&self)
        requires
            self.wf(),
            !self.finished(),
        ensures
            (self.pending().len() > 0 && self.in_flight().len() < self.cap()) || self.in_flight().len()
                > 0,
    {
    }

    /// Once all downloads have ended, every code given at the start has an
    /// outcome; and at every step no more than the cap were in flight.
    pub proof fn lemma_all_resolved(&self)
        requires
            self.wf(),
            self.finished(),
        ensures
            self.resolved().len() == self.total(),
            self.outcomes().len() == self.total(),
            self.in_flight().len() <= self.cap(),
    {
    }

    /// A dispatcher for `codes`, with at most `cap` in flight.
    pub fn new(codes: Vec<String>, cap: usize) -> (r: Dispatcher)
        requires
            cap > 0,
        ensures
            r.wf(),
            r.pending() == codes.deep_view(),
            r.in_flight().len() == 0,
            r.resolved().len() == 0,
            r.cap() == cap,
            r.total() == codes@.len(),
    {
        let total = codes.len();
        let r = Dispatcher {
            pending: codes,
            in_flight: Vec::new(),
            resolved: Vec::new(),
            outcomes: Vec::new(),
            cap,
            total,
        };
        assert(r.in_flight.deep_view() =~= Seq::<Seq<char>>::empty());
        assert(r.resolved.deep_view() =~= Seq::<Seq<char>>::empty());
        r
    }

    /// The next code to download, if one is pending and fewer than the cap
    /// are in flight; it is then in flight.
    pub fn next_dispatch(&mut self) -> (r: Option<String>)
        requires
            old(self).wf(),
        ensures
            final(self).wf(),
            final(self).cap() == old(self).cap(),
            final(self).total() == old(self).total(),
            final(self).resolved() == old(self).resolved(),
            final(self).outcomes() == old(self).outcomes(),
            (old(self).pending().len() > 0 && old(self).in_flight().len() < old(self).cap())
                <==> r is Some,
            r is None ==> final(self).pending() == old(self).pending() && final(self).in_flight()
                == old(self).in_flight(),
            r matches Some(c) ==> {
                &&& c@ == old(self).pending().last()
                &&& final(self).pending() == old(self).pending().drop_last()
                &&& final(self).in_flight() == old(self).in_flight().push(c@)
            },
    {
        if self.in_flight.len() < self.cap && self.pending.len() > 0 {
            let ghost p = self.pending.deep_view();
            let ghost f = self.in_flight.deep_view();
            let code = self.pending.pop().unwrap();
            assert(self.pending.deep_view() =~= p.drop_last());
            let r = code.clone();
            self.in_flight.push(code);
            assert(self.in_flight.deep_view() =~= f.push(r@));
            Some(r)
        } else {
            None
        }
    }

    /// Records that the download of `code` ended with `outcome`; false, and
    /// nothing changed, where `code` is not in flight.
    pub fn complete(&mut self, code: &str, outcome: Outcome) -> (r: bool)
        requires
            old(self).wf(),
        ensures
            final(self).wf(),
            final(self).cap() == old(self).cap(),
            final(self).total() == old(self).total(),
            final(self).pending() == old(self).pending(),
            r == old(self).in_flight().contains(code@),
            !r ==> final(self).in_flight() == old(self).in_flight() && final(self).resolved()
                == old(self).resolved() && final(self).outcomes() == old(self).outcomes(),
            r ==> exists|i: int|
                0 <= i < old(self).in_flight().len() && #[trigger] old(self).in_flight()[i]
                    == code@ && final(self).in_flight() == old(self).in_flight().remove(i),
            r ==> final(self).resolved() == old(self).resolved().push(code@),
            r ==> final(self).outcomes() == old(self).outcomes().push(outcome),
    {
        let ghost f = self.in_flight.deep_view();
        let mut i: usize = 0;
        while i < self.in_flight.len()
            invariant
                i <= self.in_flight@.len(),
                *self == *old(self),
                self.wf(),
                f == self.in_flight.deep_view(),
                forall|k: int| 0 <= k < i ==> f[k] != code@,
            decreases self.in_flight@.len() - i,
        {
            assert(f[i as int] == self.in_flight[i as int]@);
            if same_text(self.in_flight[i].as_str(), code) {
                let ghost rs = self.resolved.deep_view();
                let done = self.in_flight.remove(i);
                assert(self.in_flight.deep_view() =~= f.remove(i as int));
                self.resolved.push(done);
                assert(self.resolved.deep_view() =~= rs.push(code@));
                self.outcomes.push(outcome);
                assert(self.pending.deep_view() == old(self).pending.deep_view());
                assert(self.outcomes@.len() == old(self).outcomes@.len() + 1);
                return true;
            }
            i = i + 1;
        }
        false
    }

    /// How many downloads are in flight.
    pub fn in_flight_count(&self) -> (r: usize)
        ensures
            r == self.in_flight().len(),
    {
        self.in_flight.len()
    }

    /// Whether all downloads have ended.
    pub fn is_finished(&self) -> (r: bool)
        ensures
            r == self.finished(),
    {
        self.pending.len() == 0 && self.in_flight.len() == 0
    }

    /// The codes whose download has ended, with how each ended.
    pub fn results(&self) -> (r: (Vec<String>, Vec<Outcome>))
        ensures
            r.0.deep_view() == self.resolved(),
            r.1@ == self.outcomes(),
    {
        (self.resolved.clone(), self.outcomes.clone())
    }
}

} // verus!
