//! The state of one outgoing call, from the INVITE to its end.
use vstd::prelude::*;
use std::time::Instant;

verus! {

#[verifier::external_type_specification]
#[verifier::external_body]
pub struct ExInstant(std::time::Instant);

/// The current instant of the monotonic clock (`Instant::now`); nothing is
/// claimed of the value, which depends on the time of the call.
#[verifier::external_body]
fn instant_now() -> (t: Instant) {
    Instant::now()
}

/// Where a call stands.
#[derive(Debug, Clone, Copy, PartialEq, Eq, Structural)]
pub enum DialogState {
    /// INVITE sent, no answer yet.
    Calling,
    /// 100 Trying received.
    Trying,
    /// 180 Ringing received.
    Ringing,
    /// 200 OK received and acknowledged.
    Connected,
    /// BYE sent, waiting for its 200 OK.
    Terminating,
    /// The call ended normally.
    Completed,
    /// Refused with this status code (4xx, 5xx, 6xx).
    Failed(u16),
    /// No answer in time.
    TimedOut,
    /// Cancelled by us.
    Cancelled,
}

/// One call placed by the load generator.
#[derive(Debug)]
pub struct Dialog {
    pub call_id: String,
    pub from_tag: String,
    /// The callee's tag, known once the call is answered.
    pub to_tag: Option<String>,
    pub branch: String,
    pub cseq: u32,
    pub state: DialogState,
    pub invite_sent_at: Instant,
    /// When 180 Ringing arrived.
    pub ringing_at: Option<Instant>,
    /// When 200 OK arrived.
    pub answered_at: Option<Instant>,
    pub bye_sent_at: Option<Instant>,
    pub ended_at: Option<Instant>,
    /// The number called.
    pub callee: String,
    /// Local RTP port offered in the SDP.
    pub local_rtp_port: u16,
    /// The callee's Contact URI, once its 200 OK gave one (the target of
    /// the ACK and the BYE).
    pub remote_contact: Option<String>,
}

/// Whether a provisional or final answer can still move the call on.
pub open spec fn before_answer(s: DialogState) -> bool {
    s == DialogState::Calling || s == DialogState::Trying || s == DialogState::Ringing
}

/// An answered call has left the states before the answer (so a late
/// 200 OK does not answer it again).
pub open spec fn answered_stays(d: Dialog) -> bool {
    d.answered_at is Some ==> !before_answer(d.state)
}

/// The fields that no event changes.
pub open spec fn same_identity(a: Dialog, b: Dialog) -> bool {
    &&& a.call_id@ == b.call_id@
    &&& a.from_tag@ == b.from_tag@
    &&& a.branch@ == b.branch@
    &&& a.invite_sent_at == b.invite_sent_at
    &&& a.callee@ == b.callee@
    &&& a.local_rtp_port == b.local_rtp_port
    &&& tag_view(a.remote_contact) == tag_view(b.remote_contact)
}

/// The optional tag as plain characters.
pub open spec fn tag_view(t: Option<String>) -> Option<Seq<char>> {
    match t {
        Some(s) => Some(s@),
        None => None,
    }
}

/// The times and tag that an event leaves as they were.
pub open spec fn keeps(a: Dialog, b: Dialog) -> bool {
    &&& same_identity(a, b)
    &&& a.cseq == b.cseq
    &&& a.ringing_at == b.ringing_at
    &&& a.answered_at == b.answered_at
    &&& a.bye_sent_at == b.bye_sent_at
    &&& a.ended_at == b.ended_at
    &&& tag_view(a.to_tag) == tag_view(b.to_tag)
}

/// 100 Trying: `Calling` becomes `Trying`; nothing else changes.
pub open spec fn trying_step(a: Dialog, b: Dialog) -> bool {
    &&& keeps(a, b)
    &&& b.state == (if a.state == DialogState::Calling {
        DialogState::Trying
    } else {
        a.state
    })
}

/// 180 Ringing: a call not yet ringing or answered rings from now on.
pub open spec fn ringing_step(a: Dialog, b: Dialog) -> bool {
    if a.state == DialogState::Calling || a.state == DialogState::Trying {
        &&& keeps(a, Dialog { ringing_at: a.ringing_at, ..b })
        &&& b.state == DialogState::Ringing
        &&& b.ringing_at is Some
    } else {
        keeps(a, b) && b.state == a.state
    }
}

/// 200 OK to the INVITE with tag `tag`: a call not yet answered is
/// connected from now on and takes the tag.
pub open spec fn ok_step(a: Dialog, b: Dialog, tag: Seq<char>) -> bool {
    if before_answer(a.state) {
        &&& keeps(a, Dialog { answered_at: a.answered_at, to_tag: a.to_tag, ..b })
        &&& b.state == DialogState::Connected
        &&& tag_view(b.to_tag) == Some(tag)
        &&& b.answered_at is Some
    } else {
        keeps(a, b) && b.state == a.state
    }
}

/// BYE sent: `Terminating`, with the next CSeq.
pub open spec fn bye_sent_step(a: Dialog, b: Dialog) -> bool {
    &&& keeps(a, Dialog { cseq: a.cseq, bye_sent_at: a.bye_sent_at, ..b })
    &&& b.state == DialogState::Terminating
    &&& b.cseq == a.cseq + 1
    &&& b.bye_sent_at is Some
}

/// The call ends now in state `s`.
pub open spec fn end_step(a: Dialog, b: Dialog, s: DialogState) -> bool {
    &&& keeps(a, Dialog { ended_at: a.ended_at, ..b })
    &&& b.state == s
    &&& b.ended_at is Some
}

impl Dialog {
    /// A call whose INVITE goes out now: state `Calling`, CSeq 1.
    pub fn new(call_id: String, from_tag: String, branch: String, callee: String, local_rtp_port: u16) -> (d: Self)
        ensures
            d.call_id@ == call_id@,
            d.from_tag@ == from_tag@,
            d.branch@ == branch@,
            d.callee@ == callee@,
            d.local_rtp_port == local_rtp_port,
            d.to_tag is None,
            d.remote_contact is None,
            d.cseq == 1,
            d.state == DialogState::Calling,
            d.ringing_at is None,
            d.answered_at is None,
            d.bye_sent_at is None,
            d.ended_at is None,
            answered_stays(d),
    {
        let now = instant_now();
        Self::new_at(call_id, from_tag, branch, callee, local_rtp_port, now)
    }

    /// A call whose INVITE went out at `now`: state `Calling`, CSeq 1.
    pub fn new_at(
        call_id: String,
        from_tag: String,
        branch: String,
        callee: String,
        local_rtp_port: u16,
        now: Instant,
    ) -> (d: Self)
        ensures
            d.call_id@ == call_id@,
            d.from_tag@ == from_tag@,
            d.branch@ == branch@,
            d.callee@ == callee@,
            d.local_rtp_port == local_rtp_port,
            d.to_tag is None,
            d.remote_contact is None,
            d.cseq == 1,
            d.state == DialogState::Calling,
            d.ringing_at is None,
            d.answered_at is None,
            d.bye_sent_at is None,
            d.ended_at is None,
            answered_stays(d),
            d.invite_sent_at == now,
    {
        Dialog {
            call_id,
            from_tag,
            to_tag: None,
            branch,
            cseq: 1,
            state: DialogState::Calling,
            invite_sent_at: now,
            ringing_at: None,
            answered_at: None,
            bye_sent_at: None,
            ended_at: None,
            callee,
            local_rtp_port,
            remote_contact: None,
        }
    }

    /// 100 Trying received.
    pub fn on_trying(&mut self)
        ensures
            trying_step(*old(self), *final(self)),
            answered_stays(*old(self)) ==> answered_stays(*final(self)),
    {
        if self.state == DialogState::Calling {
            self.state = DialogState::Trying;
        }
    }

    /// 180 Ringing received (this ends the post-dial delay).
    pub fn on_ringing(&mut self)
        ensures
            ringing_step(*old(self), *final(self)),
            answered_stays(*old(self)) ==> answered_stays(*final(self)),
    {
        let now = instant_now();
        self.on_ringing_at(now);
    }

    /// 180 Ringing received at `now`.
    pub fn on_ringing_at(&mut self, now: Instant)
        ensures
            ringing_step(*old(self), *final(self)),
            answered_stays(*old(self)) ==> answered_stays(*final(self)),
            old(self).state == DialogState::Calling || old(self).state == DialogState::Trying
                ==> final(self).ringing_at == Some(now),
    {
        if self.state == DialogState::Calling || self.state == DialogState::Trying {
            self.state = DialogState::Ringing;
            self.ringing_at = Some(now);
        }
    }

    /// 200 OK to the INVITE, with the callee's tag.
    pub fn on_ok(&mut self, to_tag: String)
        ensures
            ok_step(*old(self), *final(self), to_tag@),
            answered_stays(*old(self)) ==> answered_stays(*final(self)),
            answered_stays(*old(self)) && old(self).answered_at is Some ==> final(self).answered_at
                == old(self).answered_at && tag_view(final(self).to_tag) == tag_view(
                old(self).to_tag,
            ),
    {
        let now = instant_now();
        self.on_ok_at(to_tag, now);
    }

    /// 200 OK to the INVITE, with the callee's tag, received at `now`.
    pub fn on_ok_at(&mut self, to_tag: String, now: Instant)
        ensures
            ok_step(*old(self), *final(self), to_tag@),
            answered_stays(*old(self)) ==> answered_stays(*final(self)),
            answered_stays(*old(self)) && old(self).answered_at is Some ==> final(self).answered_at
                == old(self).answered_at && tag_view(final(self).to_tag) == tag_view(
                old(self).to_tag,
            ),
            before_answer(old(self).state) ==> final(self).answered_at == Some(now),
    {
        if self.state == DialogState::Calling || self.state == DialogState::Trying || self.state
            == DialogState::Ringing {
            self.state = DialogState::Connected;
            self.to_tag = Some(to_tag);
            self.answered_at = Some(now);
        }
    }

    /// BYE sent now.
    pub fn on_bye_sent(&mut self)
        requires
            old(self).cseq < u32::MAX,
        ensures
            bye_sent_step(*old(self), *final(self)),
            answered_stays(*old(self)) ==> answered_stays(*final(self)),
    {
        let now = instant_now();
        self.on_bye_sent_at(now);
    }

    /// BYE sent at `now`.
    pub fn on_bye_sent_at(&mut self, now: Instant)
        requires
            old(self).cseq < u32::MAX,
        ensures
            bye_sent_step(*old(self), *final(self)),
            answered_stays(*old(self)) ==> answered_stays(*final(self)),
            final(self).bye_sent_at == Some(now),
    {
        self.state = DialogState::Terminating;
        self.bye_sent_at = Some(now);
        self.cseq = self.cseq + 1;
    }

    /// 200 OK to our BYE: the call completed now.
    pub fn on_bye_ok(&mut self)
        ensures
            end_step(*old(self), *final(self), DialogState::Completed),
            answered_stays(*old(self)) ==> answered_stays(*final(self)),
    {
        let now = instant_now();
        self.on_bye_ok_at(now);
    }

    /// 200 OK to our BYE: the call completed at `now`.
    pub fn on_bye_ok_at(&mut self, now: Instant)
        ensures
            end_step(*old(self), *final(self), DialogState::Completed),
            answered_stays(*old(self)) ==> answered_stays(*final(self)),
            final(self).ended_at == Some(now),
    {
        self.state = DialogState::Completed;
        self.ended_at = Some(now);
    }

    /// A failure response with status `code`: the call failed now.
    pub fn on_error(&mut self, code: u16)
        ensures
            end_step(*old(self), *final(self), DialogState::Failed(code)),
            answered_stays(*old(self)) ==> answered_stays(*final(self)),
    {
        let now = instant_now();
        self.on_error_at(code, now);
    }

    /// A failure response with status `code`: the call failed at `now`.
    pub fn on_error_at(&mut self, code: u16, now: Instant)
        ensures
            end_step(*old(self), *final(self), DialogState::Failed(code)),
            answered_stays(*old(self)) ==> answered_stays(*final(self)),
            final(self).ended_at == Some(now),
    {
        self.state = DialogState::Failed(code);
        self.ended_at = Some(now);
    }

    /// No answer in time: the call timed out now.
    pub fn on_timeout(&mut self)
        ensures
            end_step(*old(self), *final(self), DialogState::TimedOut),
            answered_stays(*old(self)) ==> answered_stays(*final(self)),
    {
        let now = instant_now();
        self.on_timeout_at(now);
    }

    /// No answer in time: the call timed out at `now`.
    pub fn on_timeout_at(&mut self, now: Instant)
        ensures
            end_step(*old(self), *final(self), DialogState::TimedOut),
            answered_stays(*old(self)) ==> answered_stays(*final(self)),
            final(self).ended_at == Some(now),
    {
        self.state = DialogState::TimedOut;
        self.ended_at = Some(now);
    }

    /// Whether the call was answered.
    pub fn is_answered(&self) -> (b: bool)
        ensures
            b == self.answered_at is Some,
    {
        self.answered_at.is_some()
    }
}

} // verus!
