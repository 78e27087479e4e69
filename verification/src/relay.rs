//! The order in which one accepted client is handled. Order is load-bearing:
//! 1. the client is identity-checked before anything else happens;
//! 2. the agent endpoint is identity-checked before the nonce is sent;
//! 3. any failure closes the client connection with nothing written to it.
//!
//! A `Session` decides; the program performs each step it names and reports
//! whether the step succeeded.

use vstd::prelude::*;

verus! {

/// The next thing to do for a client.
#[derive(Debug, Clone, Copy, PartialEq, Eq, Structural)]
pub enum Step {
    /// Check that the client's process runs as this user, unrestricted.
    VerifyClient,
    /// Read the agent's port and nonce from the socket file. It is re-read
    /// on every attempt because the agent rewrites it at every start.
    ReadSocketFile,
    /// Connect to the port that the socket file names.
    ConnectAgent,
    /// Check that the process listening on that port runs as this user.
    VerifyListener,
    /// Write the nonce to the agent connection.
    SendNonce,
    /// Run `gpgconf --launch gpg-agent`: it covers a stopped agent and a
    /// stale socket file alike.
    LaunchAgent,
    /// Copy bytes both ways until both sides are done.
    Relay,
    /// Drop the client connection with nothing written to it.
    Close,
}

/// The state of one client's handling.
pub struct Session {
    step: Step,
    can_launch: bool,
    launched: bool,
    client_admitted: bool,
    listener_admitted: bool,
    nonce_sent: bool,
}

impl Session {
    /// The step that the program performs next.
    pub closed spec fn pending(&self) -> Step {
        self.step
    }

    /// A way to launch the agent is known (gpgconf was found).
    pub closed spec fn can_launch(&self) -> bool {
        self.can_launch
    }

    /// The agent has been launched for this client.
    pub closed spec fn launched(&self) -> bool {
        self.launched
    }

    /// The client's process passed the admission check.
    pub closed spec fn client_admitted(&self) -> bool {
        self.client_admitted
    }

    /// The listener of the current agent connection passed the admission
    /// check.
    pub closed spec fn listener_admitted(&self) -> bool {
        self.listener_admitted
    }

    /// The nonce was written to the current agent connection.
    pub closed spec fn nonce_sent(&self) -> bool {
        self.nonce_sent
    }

    /// The handling is over: the client is relayed or closed.
    pub open spec fn finished(&self) -> bool {
        self.pending() == Step::Relay || self.pending() == Step::Close
    }

    /// An upper bound on the steps still to be taken before the handling is
    /// over: two attempts at the agent at most, with one launch between them.
    pub closed spec fn steps_left(&self) -> nat {
        let relaunch: nat = if self.can_launch && !self.launched {
            5
        } else {
            0
        };
        match self.step {
            Step::VerifyClient => 11,
            Step::ReadSocketFile => 4 + relaunch,
            Step::ConnectAgent => 3 + relaunch,
            Step::VerifyListener => 2 + relaunch,
            Step::SendNonce => 1 + relaunch,
            Step::LaunchAgent => 5,
            Step::Relay => 0,
            Step::Close => 0,
        }
    }

    /// What holds in every state that a session can reach.
    #[verifier::type_invariant]
    spec fn wf(&self) -> bool {
        &&& self.launched ==> self.can_launch
        &&& self.step != Step::VerifyClient ==> (self.client_admitted || self.step == Step::Close)
        &&& self.step == Step::VerifyClient ==> !self.client_admitted && !self.launched
            && !self.listener_admitted && !self.nonce_sent
        &&& (self.step == Step::ReadSocketFile || self.step == Step::ConnectAgent
            || self.step == Step::VerifyListener || self.step == Step::LaunchAgent)
            ==> !self.listener_admitted && !self.nonce_sent
        &&& self.step == Step::SendNonce ==> self.listener_admitted && !self.nonce_sent
        &&& self.step == Step::Relay ==> self.listener_admitted && self.nonce_sent
        &&& self.step == Step::LaunchAgent ==> self.launched
    }

    /// A new client. `can_launch` says whether gpgconf was found, so that a
    /// stopped agent can be launched.
    pub fn new(can_launch: bool) -> (s: Session)
        ensures
            s.pending() == Step::VerifyClient,
            s.steps_left() == 11,
            s.can_launch() == can_launch,
            !s.launched(),
            !s.client_admitted(),
    {
        Session {
            step: Step::VerifyClient,
            can_launch,
            launched: false,
            client_admitted: false,
            listener_admitted: false,
            nonce_sent: false,
        }
    }

    /// The step that the program performs next.
    ///
    /// In every state that a session can reach, sending the nonce means that
    /// the client and the agent's listener were both admitted, relaying means
    /// that the nonce was sent too, and every step but the first and the end
    /// comes after the client was admitted.
    pub fn next_step(&self) -> (r: Step)
        ensures
            r == self.pending(),
            r == Step::SendNonce ==> self.client_admitted() && self.listener_admitted()
                && !self.nonce_sent(),
            r == Step::Relay ==> self.client_admitted() && self.listener_admitted()
                && self.nonce_sent(),
            r != Step::VerifyClient && r != Step::Close ==> self.client_admitted(),
            r == Step::VerifyClient ==> !self.client_admitted() && !self.launched(),
            self.launched() ==> self.can_launch(),
    {
        proof {
            use_type_invariant(self);
        }
        self.step
    }

    /// Where a failed attempt to reach the agent leads: one launch of the
    /// agent and a second attempt where gpgconf is known and no launch was
    /// made yet, else the end.
    pub open spec fn after_failed_attempt(can_launch: bool, launched: bool) -> Step {
        if can_launch && !launched {
            Step::LaunchAgent
        } else {
            Step::Close
        }
    }

    /// The step that follows `step` when it succeeded (`ok`) or failed.
    pub open spec fn spec_next(step: Step, ok: bool, can_launch: bool, launched: bool) -> Step {
        match step {
            Step::VerifyClient => if ok {
                Step::ReadSocketFile
            } else {
                Step::Close
            },
            Step::ReadSocketFile => if ok {
                Step::ConnectAgent
            } else {
                Self::after_failed_attempt(can_launch, launched)
            },
            Step::ConnectAgent => if ok {
                Step::VerifyListener
            } else {
                Self::after_failed_attempt(can_launch, launched)
            },
            Step::VerifyListener => if ok {
                Step::SendNonce
            } else {
                Self::after_failed_attempt(can_launch, launched)
            },
            Step::SendNonce => if ok {
                Step::Relay
            } else {
                Self::after_failed_attempt(can_launch, launched)
            },
            Step::LaunchAgent => if ok {
                Step::ReadSocketFile
            } else {
                Step::Close
            },
            Step::Relay => Step::Relay,
            Step::Close => Step::Close,
        }
    }

    /// Records whether the pending step succeeded and returns the next one.
    pub fn advance(&mut self, ok: bool) -> (r: Step)
        requires
            !old(self).finished(),
        ensures
            r == final(self).pending(),
            r == Self::spec_next(old(self).pending(), ok, old(self).can_launch(), old(self).launched()),
            final(self).can_launch() == old(self).can_launch(),
            final(self).launched() == (old(self).launched() || r == Step::LaunchAgent),
            final(self).client_admitted() == (old(self).client_admitted() || (old(self).pending()
                == Step::VerifyClient && ok)),
            final(self).listener_admitted() == (r == Step::SendNonce || r == Step::Relay),
            final(self).nonce_sent() == (r == Step::Relay),
            // every step brings the end closer: a client is handled in at most 11 steps
            final(self).steps_left() < old(self).steps_left(),
            final(self).finished() <==> final(self).steps_left() == 0,
            // the nonce goes only to an admitted listener, for an admitted client
            r == Step::SendNonce ==> final(self).client_admitted() && final(self).listener_admitted(),
            // nothing reaches the client before the nonce went to an admitted listener
            r == Step::Relay ==> final(self).client_admitted() && final(self).listener_admitted()
                && final(self).nonce_sent(),
            // the agent is launched at most once, and only where gpgconf is known
            r == Step::LaunchAgent ==> !old(self).launched() && old(self).can_launch(),
            // a refused client ends the handling before the agent is touched
            old(self).pending() == Step::VerifyClient && !ok ==> r == Step::Close,
            // a failure never leads on to the relay
            !ok ==> r == Step::Close || r == Step::LaunchAgent,
            // a success never ends the handling early: the nonce, once sent,
            // leads to the relay, whether or not the agent could be launched
            ok ==> r != Step::Close && r != Step::LaunchAgent,
            old(self).pending() == Step::SendNonce && ok ==> r == Step::Relay,
            ok ==> final(self).launched() == old(self).launched(),
    {
        proof {
            use_type_invariant(&*self);
        }
        let can_launch = self.can_launch;
        let mut launched = self.launched;
        let mut client_admitted = self.client_admitted;
        let mut listener_admitted = self.listener_admitted;
        let mut nonce_sent = self.nonce_sent;
        let next = match self.step {
            Step::VerifyClient => if ok {
                client_admitted = true;
                Step::ReadSocketFile
            } else {
                Step::Close
            },
            Step::LaunchAgent => if ok {
                Step::ReadSocketFile
            } else {
                Step::Close
            },
            Step::Relay => Step::Relay,
            Step::Close => Step::Close,
            step => if ok {
                match step {
                    Step::ReadSocketFile => Step::ConnectAgent,
                    Step::ConnectAgent => Step::VerifyListener,
                    Step::VerifyListener => {
                        listener_admitted = true;
                        Step::SendNonce
                    },
                    _ => {
                        nonce_sent = true;
                        Step::Relay
                    },
                }
            } else {
                // the agent connection is given up
                listener_admitted = false;
                nonce_sent = false;
                let (n, l) = failed_attempt(can_launch, launched);
                launched = l;
                n
            },
        };
        *self = Session {
            step: next,
            can_launch,
            launched,
            client_admitted,
            listener_admitted,
            nonce_sent,
        };
        next
    }
}

/// Every step that succeeds brings the handling nearer to the relay: from any
/// step before the end, five successes in a row reach the relay, whether or
/// not gpgconf is known and whether or not the agent was launched.
pub proof fn lemma_successes_reach_relay(step: Step, can_launch: bool, launched: bool)
    requires
        step != Step::Close,
    ensures
        ({
            let s1 = Session::spec_next(step, true, can_launch, launched);
            let s2 = Session::spec_next(s1, true, can_launch, launched);
            let s3 = Session::spec_next(s2, true, can_launch, launched);
            let s4 = Session::spec_next(s3, true, can_launch, launched);
            let s5 = Session::spec_next(s4, true, can_launch, launched);
            &&& s1 != Step::Close && s2 != Step::Close && s3 != Step::Close && s4 != Step::Close
            &&& s5 == Step::Relay
        }),
{
}

/// Where a failed attempt to reach the agent leads, and whether the agent
/// counts as launched afterwards.
fn failed_attempt(can_launch: bool, launched: bool) -> (r: (Step, bool))
    ensures
        r.0 == Session::after_failed_attempt(can_launch, launched),
        r.1 == (launched || r.0 == Step::LaunchAgent),
{
    if can_launch && !launched {
        (Step::LaunchAgent, true)
    } else {
        (Step::Close, launched)
    }
}

} // verus!
