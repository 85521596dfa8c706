//! One render session: a growing text buffer mirrored into a list of remote
//! chat messages.
//!
//! The session never talks to the chat platform itself. Each transition
//! returns the remote calls to issue, in order, as a plan of
//! [`RemoteAction`]s, and updates the session's record of the remote
//! messages as if the plan had been carried out.
use vstd::prelude::*;
use crate::cancel::{build_id, cancel_id};
use crate::chunk::{chunk_message, chunks_of};
use crate::text::{chars_of, push_char};

verus! {

/// What the session knows of one remote message.
pub struct MessageState {
    pub content: Seq<char>,
    pub cancel: bool,
}

/// One remote call, as a value.
pub enum ActionSpec {
    Edit { index: nat, content: Seq<char> },
    RemoveCancel { index: nat },
    Delete { index: nat },
    Reply { content: Seq<char> },
    AddCancel { index: nat, button_id: Seq<char> },
    StrikeThrough { index: nat, content: Seq<char> },
    Notice { content: Seq<char> },
}

/// The effect of one remote call on the list of remote messages.
pub open spec fn apply_action(m: Seq<MessageState>, a: ActionSpec) -> Seq<MessageState> {
    match a {
        ActionSpec::Edit { index, content } => if index < m.len() {
            m.update(index as int, MessageState { content, cancel: m[index as int].cancel })
        } else {
            m
        },
        ActionSpec::RemoveCancel { index } => if index < m.len() {
            m.update(index as int, MessageState { content: m[index as int].content, cancel: false })
        } else {
            m
        },
        ActionSpec::Delete { index } => if index < m.len() {
            m.remove(index as int)
        } else {
            m
        },
        ActionSpec::Reply { content } => m.push(MessageState { content, cancel: false }),
        ActionSpec::AddCancel { index, button_id } => if index < m.len() {
            m.update(index as int, MessageState { content: m[index as int].content, cancel: true })
        } else {
            m
        },
        ActionSpec::StrikeThrough { index, content } => if index < m.len() {
            m.update(index as int, MessageState { content, cancel: false })
        } else {
            m
        },
        ActionSpec::Notice { content } => m,
    }
}

/// The effect of a plan, carried out in order.
pub open spec fn apply_plan(m: Seq<MessageState>, p: Seq<ActionSpec>) -> Seq<MessageState>
    decreases p.len(),
{
    if p.len() == 0 {
        m
    } else {
        apply_action(apply_plan(m, p.drop_last()), p.last())
    }
}

/// The cancel affordance sits on the last message alone while the session
/// is active, and on no message otherwise.
pub open spec fn cancel_placed(m: Seq<MessageState>, active: bool) -> bool {
    forall|i: int| 0 <= i < m.len() ==> #[trigger] m[i].cancel == (active && i == m.len() - 1)
}

/// Edits of the first `n` messages whose content differs from their chunk.
pub open spec fn edits(m: Seq<MessageState>, c: Seq<Seq<char>>, n: nat) -> Seq<ActionSpec>
    decreases n,
{
    if n == 0 {
        Seq::empty()
    } else {
        let prev = edits(m, c, (n - 1) as nat);
        if m[n - 1].content != c[n - 1] {
            prev.push(ActionSpec::Edit { index: (n - 1) as nat, content: c[n - 1] })
        } else {
            prev
        }
    }
}

/// Deletion of the messages from index `lo` on, of `hi` messages, the last
/// one first.
pub open spec fn deletes(hi: nat, lo: nat) -> Seq<ActionSpec>
    decreases hi - lo,
{
    if hi <= lo {
        Seq::empty()
    } else {
        deletes(hi, lo + 1).push(ActionSpec::Delete { index: lo })
    }
}

/// Removal of the cancel affordance from those of the first `n` messages
/// that carry it.
pub open spec fn strips(m: Seq<MessageState>, n: nat) -> Seq<ActionSpec>
    decreases n,
{
    if n == 0 {
        Seq::empty()
    } else {
        let prev = strips(m, (n - 1) as nat);
        if m[n - 1].cancel {
            prev.push(ActionSpec::RemoveCancel { index: (n - 1) as nat })
        } else {
            prev
        }
    }
}

/// New messages for the chunks from index `lo` up to `hi`, each a reply to
/// the message before it.
pub open spec fn replies(c: Seq<Seq<char>>, lo: nat, hi: nat) -> Seq<ActionSpec>
    decreases hi,
{
    if hi <= lo {
        Seq::empty()
    } else {
        replies(c, lo, (hi - 1) as nat).push(ActionSpec::Reply { content: c[hi - 1] })
    }
}

/// The remote calls that bring the messages `m` in line with the chunks
/// `c`: edit the messages that have a chunk, then delete the excess ones or
/// append replies for the excess chunks (after taking the cancel affordance
/// off the current ones).
pub open spec fn reconcile_plan(m: Seq<MessageState>, c: Seq<Seq<char>>) -> Seq<ActionSpec> {
    let n: nat = if c.len() < m.len() { c.len() } else { m.len() };
    let grow = if c.len() < m.len() {
        deletes(m.len(), c.len())
    } else if c.len() > m.len() {
        strips(m, m.len()) + replies(c, m.len(), c.len())
    } else {
        Seq::empty()
    };
    edits(m, c, n) + grow
}

/// Whether the message that ends up last after reconciling still carries
/// the cancel affordance.
pub open spec fn last_keeps_cancel(m: Seq<MessageState>, c: Seq<Seq<char>>) -> bool {
    c.len() <= m.len() && c.len() > 0 && m[c.len() - 1].cancel
}

/// The remote calls of a sync: reconcile the messages with the chunks, and
/// while active put the cancel affordance on the last message if it lacks
/// it.
pub open spec fn sync_plan(
    m: Seq<MessageState>,
    c: Seq<Seq<char>>,
    active: bool,
    button_id: Seq<char>,
) -> Seq<ActionSpec> {
    if active && c.len() > 0 && !last_keeps_cancel(m, c) {
        reconcile_plan(m, c).push(ActionSpec::AddCancel { index: (c.len() - 1) as nat, button_id })
    } else {
        reconcile_plan(m, c)
    }
}

/// Carrying out `p` then `q` is carrying out `p + q`.
pub proof fn lemma_apply_concat(m: Seq<MessageState>, p: Seq<ActionSpec>, q: Seq<ActionSpec>)
    ensures
        apply_plan(m, p + q) == apply_plan(apply_plan(m, p), q),
    decreases q.len(),
{
    if q.len() == 0 {
        assert(p + q =~= p);
    } else {
        lemma_apply_concat(m, p, q.drop_last());
        assert((p + q).drop_last() =~= p + q.drop_last());
        assert((p + q).last() == q.last());
    }
}

proof fn lemma_apply_edits(m: Seq<MessageState>, c: Seq<Seq<char>>, n: nat)
    requires
        n <= m.len(),
        n <= c.len(),
    ensures
        apply_plan(m, edits(m, c, n)).len() == m.len(),
        forall|i: int|
            0 <= i < m.len() ==> (#[trigger] apply_plan(m, edits(m, c, n))[i]).cancel == m[i].cancel
                && apply_plan(m, edits(m, c, n))[i].content == if i < n {
                c[i]
            } else {
                m[i].content
            },
    decreases n,
{
    if n > 0 {
        let prev = edits(m, c, (n - 1) as nat);
        lemma_apply_edits(m, c, (n - 1) as nat);
        assert(prev.push(ActionSpec::Edit { index: (n - 1) as nat, content: c[n - 1] }).drop_last()
            =~= prev);
    }
}

proof fn lemma_edits_empty(m: Seq<MessageState>, c: Seq<Seq<char>>, n: nat)
    requires
        n <= m.len(),
        n <= c.len(),
        forall|i: int| 0 <= i < n ==> #[trigger] m[i].content == c[i],
    ensures
        edits(m, c, n) == Seq::<ActionSpec>::empty(),
    decreases n,
{
    if n > 0 {
        lemma_edits_empty(m, c, (n - 1) as nat);
    }
}

proof fn lemma_apply_deletes(m: Seq<MessageState>, lo: nat)
    requires
        lo <= m.len(),
    ensures
        apply_plan(m, deletes(m.len(), lo)) == m.subrange(0, lo as int),
    decreases m.len() - lo,
{
    if lo == m.len() {
        assert(m.subrange(0, lo as int) =~= m);
    } else {
        let prev = deletes(m.len(), lo + 1);
        lemma_apply_deletes(m, lo + 1);
        assert(prev.push(ActionSpec::Delete { index: lo }).drop_last() =~= prev);
        assert(m.subrange(0, lo as int + 1).remove(lo as int) =~= m.subrange(0, lo as int));
    }
}

proof fn lemma_apply_strips(m: Seq<MessageState>, s: Seq<MessageState>, n: nat)
    requires
        n <= m.len(),
        s.len() == m.len(),
        forall|i: int| 0 <= i < m.len() ==> #[trigger] s[i].cancel == m[i].cancel,
    ensures
        apply_plan(s, strips(m, n)).len() == s.len(),
        forall|i: int|
            0 <= i < s.len() ==> (#[trigger] apply_plan(s, strips(m, n))[i]).content == s[i].content
                && apply_plan(s, strips(m, n))[i].cancel == (i >= n && s[i].cancel),
    decreases n,
{
    if n > 0 {
        let prev = strips(m, (n - 1) as nat);
        lemma_apply_strips(m, s, (n - 1) as nat);
        assert(prev.push(ActionSpec::RemoveCancel { index: (n - 1) as nat }).drop_last() =~= prev);
    }
}

proof fn lemma_apply_replies(s: Seq<MessageState>, c: Seq<Seq<char>>, hi: nat)
    requires
        s.len() <= hi <= c.len(),
    ensures
        apply_plan(s, replies(c, s.len(), hi)).len() == hi,
        forall|i: int|
            0 <= i < hi ==> #[trigger] apply_plan(s, replies(c, s.len(), hi))[i] == if i < s.len() {
                s[i]
            } else {
                MessageState { content: c[i], cancel: false }
            },
    decreases hi,
{
    if hi > s.len() {
        let prev = replies(c, s.len(), (hi - 1) as nat);
        lemma_apply_replies(s, c, (hi - 1) as nat);
        assert(prev.push(ActionSpec::Reply { content: c[hi - 1] }).drop_last() =~= prev);
    }
}

proof fn lemma_reconcile_result(m: Seq<MessageState>, c: Seq<Seq<char>>, active: bool)
    requires
        m.len() > 0,
        c.len() > 0,
        cancel_placed(m, active),
    ensures
        apply_plan(m, reconcile_plan(m, c)).len() == c.len(),
        forall|i: int|
            0 <= i < c.len() ==> (#[trigger] apply_plan(m, reconcile_plan(m, c))[i]).content == c[i],
        forall|i: int|
            0 <= i < c.len() - 1 ==> !(#[trigger] apply_plan(m, reconcile_plan(m, c))[i]).cancel,
        apply_plan(m, reconcile_plan(m, c))[c.len() - 1].cancel == last_keeps_cancel(m, c),
{
    let n: nat = if c.len() < m.len() { c.len() } else { m.len() };
    let e = edits(m, c, n);
    let grow = if c.len() < m.len() {
        deletes(m.len(), c.len())
    } else if c.len() > m.len() {
        strips(m, m.len()) + replies(c, m.len(), c.len())
    } else {
        Seq::empty()
    };
    lemma_apply_concat(m, e, grow);
    lemma_apply_edits(m, c, n);
    let m1 = apply_plan(m, e);
    if c.len() < m.len() {
        lemma_apply_deletes(m1, c.len());
    } else if c.len() > m.len() {
        lemma_apply_concat(m1, strips(m, m.len()), replies(c, m.len(), c.len()));
        lemma_apply_strips(m, m1, m.len());
        lemma_apply_replies(apply_plan(m1, strips(m, m.len())), c, c.len());
    }
}

/// After a sync the messages mirror the chunks one for one, and the cancel
/// affordance is where it belongs.
pub proof fn lemma_sync_result(
    m: Seq<MessageState>,
    c: Seq<Seq<char>>,
    active: bool,
    button_id: Seq<char>,
)
    requires
        m.len() > 0,
        c.len() > 0,
        cancel_placed(m, active),
    ensures
        apply_plan(m, sync_plan(m, c, active, button_id)).len() == c.len(),
        forall|i: int|
            0 <= i < c.len() ==> (#[trigger] apply_plan(m, sync_plan(m, c, active, button_id))[i]).content
                == c[i],
        cancel_placed(apply_plan(m, sync_plan(m, c, active, button_id)), active),
{
    lemma_reconcile_result(m, c, active);
    let rp = reconcile_plan(m, c);
    let m2 = apply_plan(m, rp);
    let r = apply_plan(m, sync_plan(m, c, active, button_id));
    if active && !last_keeps_cancel(m, c) {
        let a = ActionSpec::AddCancel { index: (c.len() - 1) as nat, button_id };
        assert(rp.push(a).drop_last() =~= rp);
        assert(r == m2.update(
            c.len() - 1,
            MessageState { content: m2[c.len() - 1].content, cancel: true },
        ));
    } else {
        assert(r == m2);
    }
    assert forall|i: int| 0 <= i < r.len() implies #[trigger] r[i].cancel == (active && i == r.len()
        - 1) by {
        if i < c.len() - 1 {
            assert(!m2[i].cancel);
        }
    }
}

/// A second sync with unchanged chunks issues no remote call and changes
/// nothing.
pub proof fn lemma_sync_idempotent(
    m: Seq<MessageState>,
    c: Seq<Seq<char>>,
    active: bool,
    button_id: Seq<char>,
)
    requires
        m.len() > 0,
        c.len() > 0,
        cancel_placed(m, active),
    ensures
        sync_plan(apply_plan(m, sync_plan(m, c, active, button_id)), c, active, button_id)
            == Seq::<ActionSpec>::empty(),
{
    let r = apply_plan(m, sync_plan(m, c, active, button_id));
    lemma_sync_result(m, c, active, button_id);
    lemma_edits_empty(r, c, c.len());
    assert(Seq::<ActionSpec>::empty() + Seq::<ActionSpec>::empty() =~= Seq::<ActionSpec>::empty());
}

/// The state a session ends in.
#[derive(Clone, Copy, PartialEq, Eq, Debug, Structural)]
pub enum Terminal {
    Active,
    Finished,
    Errored,
    Cancelled,
}

/// The session's record of one remote message.
pub struct RemoteMessage {
    pub content: String,
    pub has_cancel: bool,
}

impl View for RemoteMessage {
    type V = MessageState;

    open spec fn view(&self) -> MessageState {
        MessageState { content: self.content@, cancel: self.has_cancel }
    }
}

/// One remote call for the transport to issue. Indices count the session's
/// messages in order, as they stand when the call is issued.
pub enum RemoteAction {
    /// Replace the content of a message.
    Edit { index: usize, content: String },
    /// Take the cancel affordance off a message.
    RemoveCancel { index: usize },
    /// Delete a message.
    Delete { index: usize },
    /// Send a new message as a reply to the current last one; it becomes
    /// the last message.
    Reply { content: String },
    /// Attach the cancel affordance, identified by `button_id`, to a message.
    AddCancel { index: usize, button_id: String },
    /// Replace the content of a message and take the cancel affordance off.
    StrikeThrough { index: usize, content: String },
    /// Send a final notice as a reply to the last message; it is not one
    /// of the session's messages.
    Notice { content: String },
}

impl View for RemoteAction {
    type V = ActionSpec;

    open spec fn view(&self) -> ActionSpec {
        match self {
            RemoteAction::Edit { index, content } => ActionSpec::Edit {
                index: *index as nat,
                content: content@,
            },
            RemoteAction::RemoveCancel { index } => ActionSpec::RemoveCancel { index: *index as nat },
            RemoteAction::Delete { index } => ActionSpec::Delete { index: *index as nat },
            RemoteAction::Reply { content } => ActionSpec::Reply { content: content@ },
            RemoteAction::AddCancel { index, button_id } => ActionSpec::AddCancel {
                index: *index as nat,
                button_id: button_id@,
            },
            RemoteAction::StrikeThrough { index, content } => ActionSpec::StrikeThrough {
                index: *index as nat,
                content: content@,
            },
            RemoteAction::Notice { content } => ActionSpec::Notice { content: content@ },
        }
    }
}

/// The states of a list of recorded messages.
pub open spec fn states(v: Seq<RemoteMessage>) -> Seq<MessageState> {
    v.map_values(|r: RemoteMessage| r@)
}

/// The calls of a plan, as values.
pub open spec fn plan_view(p: Seq<RemoteAction>) -> Seq<ActionSpec> {
    p.map_values(|a: RemoteAction| a@)
}

/// The texts of a list of strings.
pub open spec fn texts(v: Seq<String>) -> Seq<Seq<char>> {
    v.map_values(|s: String| s@)
}

proof fn lemma_apply_push(m: Seq<MessageState>, p: Seq<ActionSpec>, a: ActionSpec)
    ensures
        apply_plan(m, p.push(a)) == apply_action(apply_plan(m, p), a),
{
    assert(p.push(a).drop_last() =~= p);
}

fn copy_string(s: &String) -> (r: String)
    ensures
        r@ == s@,
{
    s.clone()
}

/// Carries out one call on the record of the messages.
fn apply_remote(msgs: &mut Vec<RemoteMessage>, a: &RemoteAction)
    ensures
        states(final(msgs)@) == apply_action(states(old(msgs)@), a@),
{
    let ghost m0 = states(msgs@);
    match a {
        RemoteAction::Edit { index, content } => {
            if *index < msgs.len() {
                let cancel = msgs[*index].has_cancel;
                msgs.set(*index, RemoteMessage { content: copy_string(content), has_cancel: cancel });
            }
        },
        RemoteAction::RemoveCancel { index } => {
            if *index < msgs.len() {
                let content = copy_string(&msgs[*index].content);
                msgs.set(*index, RemoteMessage { content, has_cancel: false });
            }
        },
        RemoteAction::Delete { index } => {
            if *index < msgs.len() {
                msgs.remove(*index);
            }
        },
        RemoteAction::Reply { content } => {
            msgs.push(RemoteMessage { content: copy_string(content), has_cancel: false });
        },
        RemoteAction::AddCancel { index, button_id } => {
            if *index < msgs.len() {
                let content = copy_string(&msgs[*index].content);
                msgs.set(*index, RemoteMessage { content, has_cancel: true });
            }
        },
        RemoteAction::StrikeThrough { index, content } => {
            if *index < msgs.len() {
                msgs.set(*index, RemoteMessage { content: copy_string(content), has_cancel: false });
            }
        },
        RemoteAction::Notice { content } => {},
    }
    assert(states(msgs@) =~= apply_action(m0, a@));
}

/// Records `a` as carried out and appends it to the plan.
fn issue(msgs: &mut Vec<RemoteMessage>, plan: &mut Vec<RemoteAction>, a: RemoteAction)
    ensures
        states(final(msgs)@) == apply_action(states(old(msgs)@), a@),
        plan_view(final(plan)@) == plan_view(old(plan)@).push(a@),
{
    apply_remote(msgs, &a);
    let ghost pv = plan_view(plan@);
    let ghost av = a@;
    plan.push(a);
    assert(plan_view(plan@) =~= pv.push(av));
}

/// Brings the record `msgs` in line with `chunks` and returns the calls
/// that do the same remotely (see [`sync_plan`]).
pub fn sync_records(
    msgs: &mut Vec<RemoteMessage>,
    chunks: &Vec<String>,
    active: bool,
    button_id: &String,
) -> (plan: Vec<RemoteAction>)
    requires
        old(msgs)@.len() > 0,
        chunks@.len() > 0,
        cancel_placed(states(old(msgs)@), active),
    ensures
        plan_view(plan@) == sync_plan(states(old(msgs)@), texts(chunks@), active, button_id@),
        states(final(msgs)@) == apply_plan(states(old(msgs)@), plan_view(plan@)),
{
    let ghost m0 = states(msgs@);
    let ghost c = texts(chunks@);
    let mut plan: Vec<RemoteAction> = Vec::new();
    let m_len = msgs.len();
    let c_len = chunks.len();
    let n = if c_len < m_len { c_len } else { m_len };
    assert(m0.len() == m_len && c.len() == c_len);
    let mut i: usize = 0;
    while i < n
        invariant
            n <= m_len,
            n <= c_len,
            m0.len() == m_len,
            c.len() == c_len,
            c == texts(chunks@),
            n == (if c_len < m_len { c_len } else { m_len }),
            i <= n,
            plan_view(plan@) == edits(m0, c, i as nat),
            states(msgs@) == apply_plan(m0, plan_view(plan@)),
        decreases n - i,
    {
        proof {
            lemma_apply_edits(m0, c, i as nat);
        }
        assert(states(msgs@)[i as int] == msgs@[i as int]@);
        if msgs[i].content != chunks[i] {
            let ghost pv = plan_view(plan@);
            let a = RemoteAction::Edit { index: i, content: copy_string(&chunks[i]) };
            issue(msgs, &mut plan, a);
            proof {
                lemma_apply_push(m0, pv, plan_view(plan@).last());
                assert(plan_view(plan@).drop_last() =~= pv);
            }
        }
        i += 1;
    }
    let ghost e = plan_view(plan@);
    proof {
        lemma_apply_edits(m0, c, n as nat);
    }
    if c_len < m_len {
        let mut k: usize = m_len;
        while k > c_len
            invariant
                c_len <= k <= m_len,
                m0.len() == m_len,
                c.len() == c_len,
                apply_plan(m0, e).len() == m_len,
                plan_view(plan@) == e + deletes(m_len as nat, k as nat),
                states(msgs@) == apply_plan(m0, plan_view(plan@)),
            decreases k,
        {
            proof {
                lemma_apply_concat(m0, e, deletes(m_len as nat, k as nat));
                lemma_apply_deletes(apply_plan(m0, e), k as nat);
            }
            let ghost pv = plan_view(plan@);
            issue(msgs, &mut plan, RemoteAction::Delete { index: k - 1 });
            proof {
                lemma_apply_push(m0, pv, ActionSpec::Delete { index: (k - 1) as nat });
                assert(plan_view(plan@) =~= e + deletes(m_len as nat, (k - 1) as nat));
            }
            k -= 1;
        }
    } else if c_len > m_len {
        let mut j: usize = 0;
        while j < m_len
            invariant
                j <= m_len,
                m0.len() == m_len,
                apply_plan(m0, e).len() == m_len,
                forall|t: int| 0 <= t < m_len ==> #[trigger] apply_plan(m0, e)[t].cancel == m0[t].cancel,
                plan_view(plan@) == e + strips(m0, j as nat),
                states(msgs@) == apply_plan(m0, plan_view(plan@)),
            decreases m_len - j,
        {
            proof {
                lemma_apply_concat(m0, e, strips(m0, j as nat));
                lemma_apply_strips(m0, apply_plan(m0, e), j as nat);
            }
            assert(states(msgs@)[j as int] == msgs@[j as int]@);
            if msgs[j].has_cancel {
                let ghost pv = plan_view(plan@);
                issue(msgs, &mut plan, RemoteAction::RemoveCancel { index: j });
                proof {
                    lemma_apply_push(m0, pv, ActionSpec::RemoveCancel { index: j as nat });
                    assert(plan_view(plan@) =~= e + strips(m0, (j + 1) as nat));
                }
            } else {
                assert(plan_view(plan@) =~= e + strips(m0, (j + 1) as nat));
            }
            j += 1;
        }
        let ghost es = plan_view(plan@);
        proof {
            lemma_apply_concat(m0, e, strips(m0, m_len as nat));
            lemma_apply_strips(m0, apply_plan(m0, e), m_len as nat);
        }
        let mut r: usize = m_len;
        while r < c_len
            invariant
                m_len <= r <= c_len,
                m0.len() == m_len,
                c.len() == c_len,
                c == texts(chunks@),
                apply_plan(m0, es).len() == m_len,
                es == e + strips(m0, m_len as nat),
                plan_view(plan@) == es + replies(c, m_len as nat, r as nat),
                states(msgs@) == apply_plan(m0, plan_view(plan@)),
            decreases c_len - r,
        {
            let ghost pv = plan_view(plan@);
            let a = RemoteAction::Reply { content: copy_string(&chunks[r]) };
            issue(msgs, &mut plan, a);
            proof {
                lemma_apply_push(m0, pv, plan_view(plan@).last());
                assert(plan_view(plan@).drop_last() =~= pv);
                assert(plan_view(plan@) =~= es + replies(c, m_len as nat, (r + 1) as nat));
            }
            r += 1;
        }
        assert(plan_view(plan@) =~= e + (strips(m0, m_len as nat) + replies(
            c,
            m_len as nat,
            c_len as nat,
        )));
    } else {
        assert(plan_view(plan@) =~= e + Seq::<ActionSpec>::empty());
    }
    assert(plan_view(plan@) == reconcile_plan(m0, c));
    proof {
        lemma_reconcile_result(m0, c, active);
    }
    let last = msgs.len() - 1;
    assert(states(msgs@)[last as int] == msgs@[last as int]@);
    if active && !msgs[last].has_cancel {
        let ghost pv = plan_view(plan@);
        issue(msgs, &mut plan, RemoteAction::AddCancel { index: last, button_id: copy_string(button_id) });
        proof {
            lemma_apply_push(m0, pv, plan_view(plan@).last());
            assert(plan_view(plan@).drop_last() =~= pv);
        }
    }
    plan
}

/// Struck-through text: `~~text~~`.
pub open spec fn struck(s: Seq<char>) -> Seq<char> {
    seq!['~', '~'] + s + seq!['~', '~']
}

/// Striking through the first `n` messages, which takes the cancel
/// affordance off them too.
pub open spec fn strikes(m: Seq<MessageState>, n: nat) -> Seq<ActionSpec>
    decreases n,
{
    if n == 0 {
        Seq::empty()
    } else {
        strikes(m, (n - 1) as nat).push(
            ActionSpec::StrikeThrough { index: (n - 1) as nat, content: struck(m[n - 1].content) },
        )
    }
}

proof fn lemma_apply_strikes(m: Seq<MessageState>, n: nat)
    requires
        n <= m.len(),
    ensures
        apply_plan(m, strikes(m, n)).len() == m.len(),
        forall|i: int|
            0 <= i < m.len() ==> #[trigger] apply_plan(m, strikes(m, n))[i] == if i < n {
                MessageState { content: struck(m[i].content), cancel: false }
            } else {
                m[i]
            },
    decreases n,
{
    if n > 0 {
        let prev = strikes(m, (n - 1) as nat);
        lemma_apply_strikes(m, (n - 1) as nat);
        lemma_apply_push(
            m,
            prev,
            ActionSpec::StrikeThrough { index: (n - 1) as nat, content: struck(m[n - 1].content) },
        );
    }
}

/// Whether a sync is due at `now`: more than `interval` has passed since
/// `last`.
pub open spec fn sync_due(last: u64, now: u64, interval: u64) -> bool {
    now > last && now - last > interval
}

/// The text of the notice that ends a cancelled session.
pub const CANCELLED_NOTICE: &'static str = "The generation was cancelled.";

/// One render session: the chunks of the current text and the session's
/// record of the remote messages that mirror them.
pub struct RenderSession {
    /// The id of the session's first message.
    pub session_id: u64,
    /// The id of the user who asked for the render; only they may cancel.
    pub owner_id: u64,
    /// The identifier of the session's cancel affordance.
    pub button_id: String,
    pub chunks: Vec<String>,
    pub messages: Vec<RemoteMessage>,
    pub terminal: Terminal,
    /// When the messages were last synced, in milliseconds.
    pub last_sync_ms: u64,
    /// The least time between two syncs while active, in milliseconds.
    pub min_sync_interval_ms: u64,
    pub max_chunk_len: usize,
}

impl RenderSession {
    pub open spec fn active(&self) -> bool {
        self.terminal == Terminal::Active
    }

    /// The remote messages, as the session records them.
    pub open spec fn remote(&self) -> Seq<MessageState> {
        states(self.messages@)
    }

    pub open spec fn wf(&self) -> bool {
        &&& self.messages@.len() > 0
        &&& self.chunks@.len() > 0
        &&& cancel_placed(self.remote(), self.active())
        &&& self.button_id@ == cancel_id(self.session_id, self.owner_id)
    }

    /// Everything but the records of the text and of the remote messages
    /// is as in `other`.
    pub open spec fn same_settings(&self, other: &RenderSession) -> bool {
        &&& self.session_id == other.session_id
        &&& self.owner_id == other.owner_id
        &&& self.button_id@ == other.button_id@
        &&& self.min_sync_interval_ms == other.min_sync_interval_ms
        &&& self.max_chunk_len == other.max_chunk_len
    }

    /// Starts a session whose first message, `placeholder`, was just
    /// created with id `session_id` on behalf of `owner_id`. The returned
    /// plan attaches the cancel affordance to that message.
    pub fn new(
        owner_id: u64,
        session_id: u64,
        placeholder: &str,
        min_sync_interval_ms: u64,
        max_chunk_len: usize,
        now_ms: u64,
    ) -> (r: (RenderSession, Vec<RemoteAction>))
        ensures
            r.0.wf(),
            r.0.active(),
            r.0.session_id == session_id,
            r.0.owner_id == owner_id,
            r.0.min_sync_interval_ms == min_sync_interval_ms,
            r.0.max_chunk_len == max_chunk_len,
            r.0.last_sync_ms == now_ms,
            texts(r.0.chunks@) == seq![placeholder@],
            plan_view(r.1@) == seq![
                ActionSpec::AddCancel { index: 0, button_id: cancel_id(session_id, owner_id) },
            ],
            r.0.remote() == apply_plan(
                seq![MessageState { content: placeholder@, cancel: false }],
                plan_view(r.1@),
            ),
    {
        let button_id = build_id(session_id, owner_id);
        let mut chunks: Vec<String> = Vec::new();
        chunks.push(placeholder.to_string());
        let mut messages: Vec<RemoteMessage> = Vec::new();
        messages.push(RemoteMessage { content: placeholder.to_string(), has_cancel: false });
        let ghost m0 = states(messages@);
        assert(m0 =~= seq![MessageState { content: placeholder@, cancel: false }]);
        let mut plan: Vec<RemoteAction> = Vec::new();
        issue(
            &mut messages,
            &mut plan,
            RemoteAction::AddCancel { index: 0, button_id: copy_string(&button_id) },
        );
        proof {
            lemma_apply_push(m0, Seq::empty(), plan_view(plan@)[0]);
            assert(plan_view(plan@) =~= Seq::<ActionSpec>::empty().push(plan_view(plan@)[0]));
            assert(apply_plan(m0, Seq::empty()) == m0);
        }
        let session = RenderSession {
            session_id,
            owner_id,
            button_id,
            chunks,
            messages,
            terminal: Terminal::Active,
            last_sync_ms: now_ms,
            min_sync_interval_ms,
            max_chunk_len,
        };
        assert(texts(session.chunks@) =~= seq![placeholder@]);
        assert(session.remote() =~= seq![MessageState { content: placeholder@, cancel: true }]);
        (session, plan)
    }

    /// Brings the remote messages in line with the chunks (see
    /// [`sync_plan`]) and returns the calls that do so.
    pub fn sync_messages_with_chunks(&mut self) -> (plan: Vec<RemoteAction>)
        requires
            old(self).wf(),
        ensures
            final(self).wf(),
            final(self).same_settings(old(self)),
            final(self).terminal == old(self).terminal,
            final(self).chunks@ == old(self).chunks@,
            final(self).last_sync_ms == old(self).last_sync_ms,
            plan_view(plan@) == sync_plan(
                old(self).remote(),
                texts(old(self).chunks@),
                old(self).active(),
                old(self).button_id@,
            ),
            final(self).remote() == apply_plan(old(self).remote(), plan_view(plan@)),
    {
        let active = self.terminal == Terminal::Active;
        let plan = sync_records(&mut self.messages, &self.chunks, active, &self.button_id);
        proof {
            lemma_sync_result(
                old(self).remote(),
                texts(old(self).chunks@),
                active,
                old(self).button_id@,
            );
        }
        plan
    }

    /// Takes `text` as the session's whole text. While active, the chunks
    /// are recomputed; the messages are synced only when a sync is due,
    /// which restarts the interval. Once terminal, nothing changes.
    pub fn update(&mut self, text: &str, now_ms: u64) -> (plan: Vec<RemoteAction>)
        requires
            old(self).wf(),
        ensures
            final(self).wf(),
            final(self).same_settings(old(self)),
            final(self).terminal == old(self).terminal,
            !old(self).active() ==> plan@.len() == 0 && final(self).chunks@ == old(self).chunks@
                && final(self).remote() == old(self).remote() && final(self).last_sync_ms
                == old(self).last_sync_ms,
            old(self).active() ==> texts(final(self).chunks@) == chunks_of(
                text@,
                old(self).max_chunk_len as nat,
            ),
            old(self).active() && sync_due(
                old(self).last_sync_ms,
                now_ms,
                old(self).min_sync_interval_ms,
            ) ==> plan_view(plan@) == sync_plan(
                old(self).remote(),
                texts(final(self).chunks@),
                true,
                old(self).button_id@,
            ) && final(self).remote() == apply_plan(old(self).remote(), plan_view(plan@))
                && final(self).last_sync_ms == now_ms,
            old(self).active() && !sync_due(
                old(self).last_sync_ms,
                now_ms,
                old(self).min_sync_interval_ms,
            ) ==> plan@.len() == 0 && final(self).remote() == old(self).remote()
                && final(self).last_sync_ms == old(self).last_sync_ms,
    {
        if self.terminal != Terminal::Active {
            return Vec::new();
        }
        let chunks = chunk_message(text, self.max_chunk_len);
        proof {
            assert(texts(chunks@) == chunks_of(text@, self.max_chunk_len as nat));
            assert(texts(chunks@).len() == chunks@.len());
        }
        self.chunks = chunks;
        if now_ms > self.last_sync_ms && now_ms - self.last_sync_ms > self.min_sync_interval_ms {
            let plan = self.sync_messages_with_chunks();
            self.last_sync_ms = now_ms;
            plan
        } else {
            Vec::new()
        }
    }

    /// Ends the session successfully: takes the cancel affordance off every
    /// message, then syncs once more whatever the interval. Once terminal,
    /// nothing changes.
    pub fn finish(&mut self) -> (plan: Vec<RemoteAction>)
        requires
            old(self).wf(),
        ensures
            final(self).wf(),
            final(self).same_settings(old(self)),
            final(self).chunks@ == old(self).chunks@,
            final(self).last_sync_ms == old(self).last_sync_ms,
            !old(self).active() ==> plan@.len() == 0 && *final(self) == *old(self),
            old(self).active() ==> final(self).terminal == Terminal::Finished && plan_view(plan@)
                == strips(old(self).remote(), old(self).remote().len()) + sync_plan(
                apply_plan(
                    old(self).remote(),
                    strips(old(self).remote(), old(self).remote().len()),
                ),
                texts(old(self).chunks@),
                false,
                old(self).button_id@,
            ) && final(self).remote() == apply_plan(old(self).remote(), plan_view(plan@)),
    {
        if self.terminal != Terminal::Active {
            return Vec::new();
        }
        let ghost m0 = self.remote();
        let mut plan: Vec<RemoteAction> = Vec::new();
        let n = self.messages.len();
        let mut j: usize = 0;
        while j < n
            invariant
                j <= n,
                m0.len() == n,
                m0 == old(self).remote(),
                self.same_settings(old(self)),
                self.chunks@ == old(self).chunks@,
                self.last_sync_ms == old(self).last_sync_ms,
                self.terminal == old(self).terminal,
                plan_view(plan@) == strips(m0, j as nat),
                states(self.messages@) == apply_plan(m0, plan_view(plan@)),
            decreases n - j,
        {
            proof {
                lemma_apply_strips(m0, m0, j as nat);
            }
            assert(states(self.messages@)[j as int] == self.messages@[j as int]@);
            if self.messages[j].has_cancel {
                let ghost pv = plan_view(plan@);
                issue(&mut self.messages, &mut plan, RemoteAction::RemoveCancel { index: j });
                proof {
                    lemma_apply_push(m0, pv, ActionSpec::RemoveCancel { index: j as nat });
                }
            }
            j += 1;
        }
        let ghost ps = plan_view(plan@);
        proof {
            lemma_apply_strips(m0, m0, n as nat);
        }
        self.terminal = Terminal::Finished;
        assert(cancel_placed(self.remote(), false));
        let rest = self.sync_messages_with_chunks();
        let ghost rv = plan_view(rest@);
        let mut rest = rest;
        plan.append(&mut rest);
        proof {
            assert(plan_view(plan@) =~= ps + rv);
            lemma_apply_concat(m0, ps, rv);
        }
        plan
    }

    fn end_with_notice(&mut self, notice: String, terminal: Terminal) -> (plan: Vec<RemoteAction>)
        requires
            old(self).wf(),
            terminal != Terminal::Active,
        ensures
            final(self).wf(),
            final(self).same_settings(old(self)),
            final(self).chunks@ == old(self).chunks@,
            final(self).last_sync_ms == old(self).last_sync_ms,
            !old(self).active() ==> plan@.len() == 0 && *final(self) == *old(self),
            old(self).active() ==> final(self).terminal == terminal && plan_view(plan@) == strikes(
                old(self).remote(),
                old(self).remote().len(),
            ).push(ActionSpec::Notice { content: notice@ }) && final(self).remote()
                == apply_plan(old(self).remote(), plan_view(plan@)),
    {
        if self.terminal != Terminal::Active {
            return Vec::new();
        }
        let ghost m0 = self.remote();
        let mut plan: Vec<RemoteAction> = Vec::new();
        let n = self.messages.len();
        let mut j: usize = 0;
        while j < n
            invariant
                j <= n,
                m0.len() == n,
                m0 == old(self).remote(),
                self.same_settings(old(self)),
                self.chunks@ == old(self).chunks@,
                self.last_sync_ms == old(self).last_sync_ms,
                self.terminal == old(self).terminal,
                plan_view(plan@) == strikes(m0, j as nat),
                states(self.messages@) == apply_plan(m0, plan_view(plan@)),
            decreases n - j,
        {
            proof {
                lemma_apply_strikes(m0, j as nat);
            }
            assert(states(self.messages@)[j as int] == self.messages@[j as int]@);
            let mut content = String::new();
            push_struck(&mut content, &self.messages[j].content);
            let ghost pv = plan_view(plan@);
            issue(&mut self.messages, &mut plan, RemoteAction::StrikeThrough { index: j, content });
            proof {
                lemma_apply_push(m0, pv, plan_view(plan@).last());
                assert(plan_view(plan@).drop_last() =~= pv);
            }
            j += 1;
        }
        proof {
            lemma_apply_strikes(m0, n as nat);
        }
        let ghost pv = plan_view(plan@);
        issue(&mut self.messages, &mut plan, RemoteAction::Notice { content: notice });
        proof {
            lemma_apply_push(m0, pv, plan_view(plan@).last());
        }
        self.terminal = terminal;
        assert(cancel_placed(self.remote(), false));
        plan
    }

    /// Ends the session with an error: strikes through every message, takes
    /// the cancel affordance off, and replies to the last message with
    /// `message`. Once terminal, nothing changes.
    pub fn error(&mut self, message: &str) -> (plan: Vec<RemoteAction>)
        requires
            old(self).wf(),
        ensures
            final(self).wf(),
            final(self).same_settings(old(self)),
            final(self).chunks@ == old(self).chunks@,
            final(self).last_sync_ms == old(self).last_sync_ms,
            !old(self).active() ==> plan@.len() == 0 && *final(self) == *old(self),
            old(self).active() ==> final(self).terminal == Terminal::Errored && plan_view(plan@)
                == strikes(old(self).remote(), old(self).remote().len()).push(
                ActionSpec::Notice { content: message@ },
            ) && final(self).remote() == apply_plan(old(self).remote(), plan_view(plan@)),
    {
        self.end_with_notice(message.to_string(), Terminal::Errored)
    }

    /// Ends the session as cancelled, as [`RenderSession::error`] does with
    /// the cancellation notice. Once terminal, nothing changes.
    pub fn cancelled(&mut self) -> (plan: Vec<RemoteAction>)
        requires
            old(self).wf(),
        ensures
            final(self).wf(),
            final(self).same_settings(old(self)),
            final(self).chunks@ == old(self).chunks@,
            final(self).last_sync_ms == old(self).last_sync_ms,
            !old(self).active() ==> plan@.len() == 0 && *final(self) == *old(self),
            old(self).active() ==> final(self).terminal == Terminal::Cancelled && plan_view(plan@)
                == strikes(old(self).remote(), old(self).remote().len()).push(
                ActionSpec::Notice { content: CANCELLED_NOTICE@ },
            ) && final(self).remote() == apply_plan(old(self).remote(), plan_view(plan@)),
    {
        self.end_with_notice(CANCELLED_NOTICE.to_string(), Terminal::Cancelled)
    }
}

impl RenderSession {
    /// Looks through the cancel signals drained since the last look: one
    /// for this session cancels it while it is active. Otherwise nothing
    /// changes.
    pub fn poll_cancel(&mut self, signals: &Vec<u64>) -> (plan: Vec<RemoteAction>)
        requires
            old(self).wf(),
        ensures
            final(self).wf(),
            final(self).same_settings(old(self)),
            final(self).chunks@ == old(self).chunks@,
            final(self).active() == (old(self).active() && !signals@.contains(old(self).session_id)),
            old(self).active() && signals@.contains(old(self).session_id) ==> final(self).terminal
                == Terminal::Cancelled && plan_view(plan@) == strikes(
                old(self).remote(),
                old(self).remote().len(),
            ).push(ActionSpec::Notice { content: CANCELLED_NOTICE@ }) && final(self).remote()
                == apply_plan(old(self).remote(), plan_view(plan@)),
            !(old(self).active() && signals@.contains(old(self).session_id)) ==> plan@.len() == 0
                && *final(self) == *old(self),
    {
        if self.terminal == Terminal::Active && contains_signal(signals, self.session_id) {
            self.cancelled()
        } else {
            Vec::new()
        }
    }
}

/// Whether `signals` holds `session_id`.
pub fn contains_signal(signals: &Vec<u64>, session_id: u64) -> (r: bool)
    ensures
        r == signals@.contains(session_id),
{
    let mut i: usize = 0;
    while i < signals.len()
        invariant
            i <= signals@.len(),
            forall|j: int| 0 <= j < i ==> signals@[j] != session_id,
        decreases signals@.len() - i,
    {
        if signals[i] == session_id {
            assert(signals@[i as int] == session_id);
            return true;
        }
        i += 1;
    }
    false
}

/// Whether a session that starts in `active` is still active after looking
/// through each batch of cancel signals in turn.
pub open spec fn active_after(active: bool, batches: Seq<Seq<u64>>, id: u64) -> bool
    decreases batches.len(),
{
    if batches.len() == 0 {
        active
    } else {
        active_after(active, batches.drop_last(), id) && !batches.last().contains(id)
    }
}

/// How many of those looks cancel the session.
pub open spec fn cancellations(active: bool, batches: Seq<Seq<u64>>, id: u64) -> nat
    decreases batches.len(),
{
    if batches.len() == 0 {
        0
    } else {
        cancellations(active, batches.drop_last(), id) + if active_after(
            active,
            batches.drop_last(),
            id,
        ) && batches.last().contains(id) {
            1nat
        } else {
            0nat
        }
    }
}

/// However many cancel signals for a session arrive, in however many
/// batches, an active session is cancelled exactly once if any arrives,
/// and never otherwise.
pub proof fn lemma_cancel_exactly_once(batches: Seq<Seq<u64>>, id: u64)
    ensures
        (exists|i: int| 0 <= i < batches.len() && #[trigger] batches[i].contains(id))
            ==> cancellations(true, batches, id) == 1 && !active_after(true, batches, id),
        !(exists|i: int| 0 <= i < batches.len() && #[trigger] batches[i].contains(id))
            ==> cancellations(true, batches, id) == 0 && active_after(true, batches, id),
    decreases batches.len(),
{
    if batches.len() > 0 {
        let prev = batches.drop_last();
        lemma_cancel_exactly_once(prev, id);
        lemma_inactive_stays(prev, id);
        if exists|i: int| 0 <= i < prev.len() && #[trigger] prev[i].contains(id) {
            let i = choose|i: int| 0 <= i < prev.len() && #[trigger] prev[i].contains(id);
            assert(batches[i] == prev[i]);
        } else if batches.last().contains(id) {
            assert(batches[batches.len() - 1].contains(id));
        } else {
            assert forall|i: int| 0 <= i < batches.len() implies !(#[trigger] batches[i].contains(
                id,
            )) by {
                if i < prev.len() {
                    assert(batches[i] == prev[i]);
                }
            }
        }
    }
}

proof fn lemma_inactive_stays(batches: Seq<Seq<u64>>, id: u64)
    ensures
        !active_after(false, batches, id),
        cancellations(false, batches, id) == 0,
    decreases batches.len(),
{
    if batches.len() > 0 {
        lemma_inactive_stays(batches.drop_last(), id);
    }
}

/// Appends `~~s~~` to `out`.
fn push_struck(out: &mut String, s: &String)
    ensures
        final(out)@ == old(out)@ + struck(s@),
{
    push_char(out, '~');
    push_char(out, '~');
    let cs = chars_of(s.as_str());
    let mut i: usize = 0;
    while i < cs.len()
        invariant
            i <= cs@.len(),
            cs@ == s@,
            out@ == old(out)@ + seq!['~', '~'] + cs@.subrange(0, i as int),
        decreases cs@.len() - i,
    {
        push_char(out, cs[i]);
        i += 1;
        assert(out@ =~= old(out)@ + seq!['~', '~'] + cs@.subrange(0, i as int));
    }
    push_char(out, '~');
    push_char(out, '~');
    assert(cs@.subrange(0, cs@.len() as int) =~= cs@);
    assert(out@ =~= old(out)@ + struck(s@));
}

/// While a session is active the cancel affordance is on its last message
/// and on no other; once it is terminal, it is on none.
pub proof fn lemma_cancel_placement(s: RenderSession)
    requires
        s.wf(),
    ensures
        s.active() ==> s.remote()[s.remote().len() - 1].cancel,
        forall|i: int|
            0 <= i < s.remote().len() && (i != s.remote().len() - 1 || !s.active()) ==> !(
            #[trigger] s.remote()[i]).cancel,
{
}

} // verus!
