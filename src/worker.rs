//! What one worker decides between its outside steps: take the next payload,
//! fetch a fresh CSRF page for it, and fire with the tokens of that page.
use vstd::prelude::*;
use crate::error::KillerError;
use crate::parts::{PartModel, RequestParts};
use crate::request::Payload;
use crate::settings::Modes;
use crate::tokens::{extracted, filter_tokens, token_view, Csrf};

verus! {

pub enum Phase {
    /// Waiting for the next payload.
    Ready,
    /// A CSRF page is being fetched for this payload.
    Fetching(Payload),
    Stopped,
}

/// The next outside step.
pub enum Step {
    FetchCsrf,
    /// Compose and send the target request for the payload with these parts.
    Fire(Payload, RequestParts),
    /// The CSRF fetch failed; the attempt counts as a transport error.
    Skip,
    Stop,
    Abort(KillerError),
}

/// One worker's progress: payloads taken, CSRF pages asked for, and target
/// requests fired.
pub struct Worker {
    pub phase: Phase,
    pub pulled: u64,
    pub fetched: u64,
    pub fired: u64,
}

/// The payload that a line stands for: the line itself in brute force, else
/// the line as a path to upload in the configured field.
pub open spec fn payload_for(modes: Modes, line: String) -> Option<Payload> {
    if modes.brute_force {
        Some(Payload::Line(line))
    } else {
        match modes.field_name {
            Some(f) => Some(Payload::Upload(f, line)),
            None => None,
        }
    }
}

impl Worker {
    /// Each payload taken has had exactly one CSRF fetch asked for, and no
    /// more target requests were fired than CSRF pages fetched.
    pub open spec fn wf(&self) -> bool {
        &&& self.pulled == self.fetched
        &&& self.fired <= self.fetched
        &&& self.phase is Fetching ==> self.fired < self.fetched
    }

    pub fn new() -> (r: Worker)
        ensures
            r.wf(),
            r.phase is Ready,
            r.pulled == 0,
            r.fired == 0,
    {
        Worker { phase: Phase::Ready, pulled: 0, fetched: 0, fired: 0 }
    }

    /// The payload stream gave `line`; `None` means it is exhausted. A line
    /// starts an attempt with a CSRF fetch; the end of the stream stops the
    /// worker.
    pub fn on_line(&mut self, line: Option<String>, modes: &Modes) -> (r: Step)
        requires
            old(self).wf(),
            old(self).phase is Ready,
            old(self).pulled < u64::MAX,
        ensures
            final(self).wf(),
            final(self).fired == old(self).fired,
            match line {
                Some(l) => match payload_for(*modes, l) {
                    Some(p) => r is FetchCsrf && final(self).phase == Phase::Fetching(p)
                        && final(self).pulled == old(self).pulled + 1,
                    None => r is Abort && final(self).phase is Stopped && final(self).pulled
                        == old(self).pulled,
                },
                None => r is Stop && final(self).phase is Stopped && final(self).pulled == old(self).pulled,
            },
    {
        match line {
            Some(l) => {
                let payload = if modes.brute_force {
                    Payload::Line(l)
                } else {
                    match &modes.field_name {
                        Some(f) => Payload::Upload(f.clone(), l),
                        None => {
                            self.phase = Phase::Stopped;
                            return Step::Abort(KillerError::new("Upload mode needs a field name"));
                        },
                    }
                };
                self.phase = Phase::Fetching(payload);
                self.pulled = self.pulled + 1;
                self.fetched = self.fetched + 1;
                Step::FetchCsrf
            },
            None => {
                self.phase = Phase::Stopped;
                Step::Stop
            },
        }
    }

    /// The CSRF page for the current payload arrived, or its fetch failed
    /// (`None`). The tokens come from this page alone; the worker is then
    /// ready for the next payload, or stopped when a token is missing.
    pub fn on_csrf_page(&mut self, csrf: &Csrf, page: Option<&str>) -> (r: Step)
        requires
            old(self).wf(),
            old(self).phase is Fetching,
            csrf.names_distinct(),
        ensures
            final(self).wf(),
            final(self).pulled == old(self).pulled,
            match page {
                Some(text) => match r {
                    Step::Fire(p, parts) => old(self).phase == Phase::Fetching(p) && final(self).phase is Ready
                        && final(self).fired == old(self).fired + 1 && parts@.len() == csrf.tokens@.len()
                        && forall|i: int|
                        0 <= i < csrf.tokens@.len() ==> extracted(token_view(#[trigger] csrf.tokens@[i]), text@)
                            == Some(parts@[i]),
                    Step::Abort(_) => final(self).phase is Stopped && final(self).fired == old(self).fired
                        && exists|i: int|
                        0 <= i < csrf.tokens@.len() && extracted(token_view(#[trigger] csrf.tokens@[i]), text@)
                            is None,
                    _ => false,
                },
                None => r is Skip && final(self).phase is Ready && final(self).fired == old(self).fired,
            },
    {
        let mut phase = Phase::Ready;
        std::mem::swap(&mut phase, &mut self.phase);
        let payload = match phase {
            Phase::Fetching(p) => p,
            _ => {
                return Step::Stop;
            },
        };
        match page {
            Some(text) => match filter_tokens(csrf, text) {
                Ok(parts) => {
                    self.fired = self.fired + 1;
                    Step::Fire(payload, parts)
                },
                Err(e) => {
                    self.phase = Phase::Stopped;
                    Step::Abort(e)
                },
            },
            None => Step::Skip,
        }
    }
}

} // verus!
