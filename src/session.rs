//! One step of a render: the cancel check, then the item that the producer
//! handed over.
use vstd::prelude::*;
use crate::chunk::chunks_of;
use crate::render::{
    apply_plan, plan_view, strikes, sync_due, sync_plan, texts, ActionSpec, RemoteAction,
    RenderSession, Terminal, CANCELLED_NOTICE,
};

verus! {

/// An item of the primary stream: the session's whole text so far, or the
/// error that ends it.
pub enum Token {
    Data(String),
    Error(String),
}

impl RenderSession {
    /// Handles one item of the primary stream. The cancel signals drained
    /// since the last step are looked at first: one for this session
    /// cancels it, and the item is dropped. Otherwise text updates the
    /// session and an error ends it. Once terminal, nothing changes.
    pub fn on_token(&mut self, signals: &Vec<u64>, token: Token, now_ms: u64) -> (plan: Vec<
        RemoteAction,
    >)
        requires
            old(self).wf(),
        ensures
            final(self).wf(),
            final(self).same_settings(old(self)),
            !old(self).active() ==> plan@.len() == 0 && *final(self) == *old(self),
            old(self).active() && signals@.contains(old(self).session_id) ==> final(self).terminal
                == Terminal::Cancelled && final(self).chunks@ == old(self).chunks@ && plan_view(
                plan@,
            ) == strikes(old(self).remote(), old(self).remote().len()).push(
                ActionSpec::Notice { content: CANCELLED_NOTICE@ },
            ) && final(self).remote() == apply_plan(old(self).remote(), plan_view(plan@)),
            old(self).active() && !signals@.contains(old(self).session_id) ==> match token {
                Token::Data(text) => final(self).active() && texts(final(self).chunks@)
                    == chunks_of(text@, old(self).max_chunk_len as nat) && final(self).remote()
                    == apply_plan(old(self).remote(), plan_view(plan@)) && if sync_due(
                    old(self).last_sync_ms,
                    now_ms,
                    old(self).min_sync_interval_ms,
                ) {
                    plan_view(plan@) == sync_plan(
                        old(self).remote(),
                        texts(final(self).chunks@),
                        true,
                        old(self).button_id@,
                    ) && final(self).last_sync_ms == now_ms
                } else {
                    plan@.len() == 0 && final(self).last_sync_ms == old(self).last_sync_ms
                },
                Token::Error(message) => final(self).terminal == Terminal::Errored
                    && final(self).chunks@ == old(self).chunks@ && plan_view(plan@) == strikes(
                    old(self).remote(),
                    old(self).remote().len(),
                ).push(ActionSpec::Notice { content: message@ }) && final(self).remote()
                    == apply_plan(old(self).remote(), plan_view(plan@)),
            },
    {
        if self.terminal != Terminal::Active {
            return Vec::new();
        }
        let plan = self.poll_cancel(signals);
        if self.terminal != Terminal::Active {
            return plan;
        }
        match token {
            Token::Data(text) => self.update(text.as_str(), now_ms),
            Token::Error(message) => self.error(message.as_str()),
        }
    }
}

} // verus!
