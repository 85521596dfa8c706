//! The cancel affordance's identifier, and the registry through which
//! cancel requests reach the render sessions.
use vstd::prelude::*;
use crate::chunk::views;
use crate::text::{chars_of, push_char, same_chars};

verus! {

/// The decimal digit for `d`.
pub open spec fn digit_char(d: nat) -> char {
    if d == 0 {
        '0'
    } else if d == 1 {
        '1'
    } else if d == 2 {
        '2'
    } else if d == 3 {
        '3'
    } else if d == 4 {
        '4'
    } else if d == 5 {
        '5'
    } else if d == 6 {
        '6'
    } else if d == 7 {
        '7'
    } else if d == 8 {
        '8'
    } else {
        '9'
    }
}

/// Whether `c` is an ASCII decimal digit.
pub open spec fn is_digit(c: char) -> bool {
    '0' <= c && c <= '9'
}

/// The value of the decimal digit `c`.
pub open spec fn digit_value(c: char) -> int {
    c as int - '0' as int
}

/// The canonical decimal form of `n`.
pub open spec fn decimal(n: nat) -> Seq<char>
    decreases n,
{
    if n < 10 {
        seq![digit_char(n)]
    } else {
        decimal(n / 10).push(digit_char(n % 10))
    }
}

/// The value of a string of decimal digits.
pub open spec fn digits_value(s: Seq<char>) -> int
    decreases s.len(),
{
    if s.len() == 0 {
        0
    } else {
        digits_value(s.drop_last()) * 10 + digit_value(s.last())
    }
}

/// `s` read as a `u64`: one or more decimal digits whose value fits.
pub open spec fn parse_number(s: Seq<char>) -> Option<u64> {
    if s.len() > 0 && (forall|i: int| 0 <= i < s.len() ==> is_digit(#[trigger] s[i]))
        && digits_value(s) <= u64::MAX {
        Some(digits_value(s) as u64)
    } else {
        None
    }
}

/// The pieces of `s` between occurrences of `sep`; as many as there are
/// separators, plus one.
pub open spec fn split_on(s: Seq<char>, sep: char) -> Seq<Seq<char>>
    decreases s.len(),
{
    if s.len() == 0 {
        seq![Seq::empty()]
    } else {
        let prev = split_on(s.drop_last(), sep);
        if s.last() == sep {
            prev.push(Seq::empty())
        } else {
            prev.drop_last().push(prev.last().push(s.last()))
        }
    }
}

/// The literal that starts every cancel identifier.
pub open spec fn cancel_prefix() -> Seq<char> {
    seq!['c', 'a', 'n', 'c', 'e', 'l']
}

/// The identifier of the cancel affordance of a session:
/// `cancel#<session_id>#<requester_id>`.
pub open spec fn cancel_id(session_id: u64, requester_id: u64) -> Seq<char> {
    cancel_prefix() + seq!['#'] + decimal(session_id as nat) + seq!['#'] + decimal(
        requester_id as nat,
    )
}

/// What a cancel identifier decodes to: its session id and requester id,
/// when it is three `#`-separated pieces, the literal prefix and two
/// nonzero numbers (ids of the chat platform are never zero).
pub open spec fn parse_cancel_id(s: Seq<char>) -> Option<(u64, u64)> {
    let parts = split_on(s, '#');
    if parts.len() == 3 && parts[0] == cancel_prefix() && parse_number(parts[1]) is Some
        && parse_number(parts[2]) is Some && parse_number(parts[1])->0 != 0
        && parse_number(parts[2])->0 != 0 {
        Some((parse_number(parts[1])->0, parse_number(parts[2])->0))
    } else {
        None
    }
}

fn digit_to_char(d: u64) -> (c: char)
    requires
        d < 10,
    ensures
        c == digit_char(d as nat),
{
    if d == 0 {
        '0'
    } else if d == 1 {
        '1'
    } else if d == 2 {
        '2'
    } else if d == 3 {
        '3'
    } else if d == 4 {
        '4'
    } else if d == 5 {
        '5'
    } else if d == 6 {
        '6'
    } else if d == 7 {
        '7'
    } else if d == 8 {
        '8'
    } else {
        '9'
    }
}

/// Appends the decimal form of `n` to `out`.
pub fn push_decimal(out: &mut String, n: u64)
    ensures
        final(out)@ == old(out)@ + decimal(n as nat),
    decreases n,
{
    if n >= 10 {
        push_decimal(out, n / 10);
    }
    push_char(out, digit_to_char(n % 10));
    proof {
        if n < 10 {
            assert(old(out)@ + decimal(n as nat) =~= old(out)@.push(digit_char(n as nat)));
        } else {
            assert(old(out)@ + decimal(n as nat) =~= old(out)@ + decimal((n / 10) as nat) + seq![
                digit_char((n % 10) as nat),
            ]);
        }
    }
}

fn push_str_chars(out: &mut String, cs: &[char])
    ensures
        final(out)@ == old(out)@ + cs@,
{
    let mut i: usize = 0;
    while i < cs.len()
        invariant
            i <= cs@.len(),
            out@ == old(out)@ + cs@.subrange(0, i as int),
        decreases cs@.len() - i,
    {
        push_char(out, cs[i]);
        i += 1;
        assert(out@ =~= old(out)@ + cs@.subrange(0, i as int));
    }
    assert(cs@.subrange(0, cs@.len() as int) =~= cs@);
}

fn prefix_chars() -> (r: Vec<char>)
    ensures
        r@ == cancel_prefix(),
{
    let r = vec!['c', 'a', 'n', 'c', 'e', 'l'];
    assert(r@ =~= cancel_prefix());
    r
}

/// Builds the identifier of a session's cancel affordance from the session
/// id (the id of its first message) and the requester's id.
pub fn build_id(first_id: u64, user_id: u64) -> (r: String)
    ensures
        r@ == cancel_id(first_id, user_id),
{
    let mut out = String::new();
    let prefix = prefix_chars();
    push_str_chars(&mut out, prefix.as_slice());
    push_char(&mut out, '#');
    push_decimal(&mut out, first_id);
    push_char(&mut out, '#');
    push_decimal(&mut out, user_id);
    assert(out@ =~= cancel_id(first_id, user_id));
    out
}

fn split_chars(cs: &Vec<char>, sep: char) -> (r: Vec<Vec<char>>)
    ensures
        views(r@) == split_on(cs@, sep),
{
    let mut out: Vec<Vec<char>> = Vec::new();
    out.push(Vec::new());
    assert(views(out@) =~= split_on(cs@.subrange(0, 0), sep));
    let mut i: usize = 0;
    while i < cs.len()
        invariant
            i <= cs@.len(),
            views(out@) == split_on(cs@.subrange(0, i as int), sep),
            out@.len() > 0,
        decreases cs@.len() - i,
    {
        let c = cs[i];
        let ghost before = cs@.subrange(0, i as int);
        let ghost after = cs@.subrange(0, i as int + 1);
        assert(after.drop_last() =~= before);
        if c == sep {
            out.push(Vec::new());
            assert(views(out@) =~= split_on(after, sep));
        } else {
            let mut last = out.pop().unwrap();
            last.push(c);
            out.push(last);
            assert(views(out@) =~= split_on(after, sep));
        }
        i += 1;
    }
    assert(cs@.subrange(0, cs@.len() as int) =~= cs@);
    out
}

proof fn lemma_digits_prefix(s: Seq<char>, j: int)
    requires
        0 <= j <= s.len(),
        forall|i: int| 0 <= i < s.len() ==> is_digit(#[trigger] s[i]),
    ensures
        0 <= digits_value(s.subrange(0, j)) <= digits_value(s),
    decreases s.len(),
{
    if j == s.len() {
        assert(s.subrange(0, j) =~= s);
        if s.len() > 0 {
            lemma_digits_prefix(s.drop_last(), 0);
            assert(s.drop_last().subrange(0, 0) =~= Seq::<char>::empty());
        }
    } else {
        lemma_digits_prefix(s.drop_last(), j);
        assert(s.drop_last().subrange(0, j) =~= s.subrange(0, j));
        lemma_digits_prefix(s.drop_last(), 0);
        assert(s.drop_last().subrange(0, 0) =~= Seq::<char>::empty());
    }
}

fn parse_number_chars(s: &Vec<char>) -> (r: Option<u64>)
    ensures
        r == parse_number(s@),
{
    if s.len() == 0 {
        return None;
    }
    let mut acc: u64 = 0;
    let mut i: usize = 0;
    while i < s.len()
        invariant
            i <= s@.len(),
            s@.len() > 0,
            acc == digits_value(s@.subrange(0, i as int)),
            forall|j: int| 0 <= j < i ==> is_digit(#[trigger] s@[j]),
        decreases s@.len() - i,
    {
        let c = s[i];
        let ghost after = s@.subrange(0, i as int + 1);
        assert(after.drop_last() =~= s@.subrange(0, i as int));
        if !('0' <= c && c <= '9') {
            return None;
        }
        let d = (c as u32 - '0' as u32) as u64;
        assert(d == digit_value(c));
        let next = match acc.checked_mul(10) {
            Some(m) => m.checked_add(d),
            None => None,
        };
        match next {
            Some(v) => {
                acc = v;
            },
            None => {
                proof {
                    if forall|j: int| 0 <= j < s@.len() ==> is_digit(#[trigger] s@[j]) {
                        lemma_digits_prefix(s@, i as int + 1);
                    }
                }
                return None;
            },
        }
        i += 1;
    }
    assert(s@.subrange(0, s@.len() as int) =~= s@);
    Some(acc)
}

/// Decodes a cancel identifier into the session id and the requester id.
pub fn parse_id(id: &str) -> (r: Option<(u64, u64)>)
    ensures
        r == parse_cancel_id(id@),
{
    let cs = chars_of(id);
    let parts = split_chars(&cs, '#');
    let ghost pv = views(parts@);
    assert(pv.len() == parts@.len());
    if parts.len() != 3 {
        return None;
    }
    assert(pv[0] == parts@[0]@ && pv[1] == parts@[1]@ && pv[2] == parts@[2]@);
    let prefix = prefix_chars();
    if !same_chars(&parts[0], &prefix) {
        return None;
    }
    let session = parse_number_chars(&parts[1]);
    let requester = parse_number_chars(&parts[2]);
    match (session, requester) {
        (Some(s), Some(u)) => {
            if s != 0 && u != 0 {
                Some((s, u))
            } else {
                None
            }
        },
        _ => None,
    }
}

/// The session that a press of the cancel affordance `custom_id` by
/// `user_id` may cancel: the one it names, if it names `user_id` as the
/// requester.
pub open spec fn authorized_session(custom_id: Seq<char>, user_id: u64) -> Option<u64> {
    match parse_cancel_id(custom_id) {
        Some((session_id, requester_id)) => if requester_id == user_id {
            Some(session_id)
        } else {
            None
        },
        None => None,
    }
}

/// A press of a session's cancel affordance cancels that session when the
/// requester presses it, and nothing when anyone else does.
pub proof fn lemma_only_requester_cancels(session_id: u64, requester_id: u64, user_id: u64)
    requires
        session_id != 0,
        requester_id != 0,
    ensures
        authorized_session(cancel_id(session_id, requester_id), user_id) == if requester_id
            == user_id {
            Some(session_id)
        } else {
            None
        },
{
    lemma_cancel_id_round_trip(session_id, requester_id);
}

/// Whether a press of the cancel affordance `custom_id` by `user_id` may
/// cancel a session, and which: the requester encoded in the identifier
/// must be the user who pressed it.
pub fn authorize_cancel(custom_id: &str, user_id: u64) -> (r: Option<u64>)
    ensures
        r == authorized_session(custom_id@, user_id),
{
    match parse_id(custom_id) {
        Some((session_id, requester_id)) => {
            if requester_id == user_id {
                Some(session_id)
            } else {
                None
            }
        },
        None => None,
    }
}

proof fn lemma_digit(d: nat)
    requires
        d < 10,
    ensures
        is_digit(digit_char(d)),
        digit_value(digit_char(d)) == d,
{
    if d == 0 {
    } else if d == 1 {
    } else if d == 2 {
    } else if d == 3 {
    } else if d == 4 {
    } else if d == 5 {
    } else if d == 6 {
    } else if d == 7 {
    } else if d == 8 {
    } else {
    }
}

proof fn lemma_split_nonempty(s: Seq<char>, sep: char)
    ensures
        split_on(s, sep).len() > 0,
    decreases s.len(),
{
    if s.len() > 0 {
        lemma_split_nonempty(s.drop_last(), sep);
    }
}

proof fn lemma_decimal(n: nat)
    ensures
        decimal(n).len() > 0,
        forall|i: int| 0 <= i < decimal(n).len() ==> is_digit(#[trigger] decimal(n)[i]),
        digits_value(decimal(n)) == n,
    decreases n,
{
    if n < 10 {
        lemma_digit(n);
        let d = decimal(n);
        assert(d.drop_last() =~= Seq::<char>::empty());
        assert(digits_value(Seq::<char>::empty()) == 0);
        assert(digits_value(d) == digits_value(d.drop_last()) * 10 + digit_value(d.last()));
    } else {
        let prev = decimal(n / 10);
        lemma_digit(n % 10);
        lemma_decimal(n / 10);
        let d = decimal(n);
        assert(d.drop_last() =~= prev);
        assert(d.last() == digit_char(n % 10));
        assert(digits_value(d) == digits_value(prev) * 10 + digit_value(digit_char(n % 10)));
        assert((n / 10) * 10 + n % 10 == n) by (nonlinear_arith);
        assert forall|i: int| 0 <= i < decimal(n).len() implies is_digit(#[trigger] decimal(n)[i]) by {
            if i < prev.len() {
                assert(decimal(n)[i] == prev[i]);
            }
        }
    }
}

proof fn lemma_split_append(x: Seq<char>, y: Seq<char>, sep: char)
    requires
        forall|i: int| 0 <= i < y.len() ==> #[trigger] y[i] != sep,
    ensures
        split_on(x + y, sep) == split_on(x, sep).drop_last().push(split_on(x, sep).last() + y),
    decreases y.len(),
{
    lemma_split_nonempty(x, sep);
    if y.len() == 0 {
        assert(x + y =~= x);
        assert(split_on(x, sep).last() + y =~= split_on(x, sep).last());
        assert(split_on(x, sep).drop_last().push(split_on(x, sep).last()) =~= split_on(x, sep));
    } else {
        let y1 = y.drop_last();
        assert forall|i: int| 0 <= i < y1.len() implies #[trigger] y1[i] != sep by {
            assert(y1[i] == y[i]);
        }
        assert(y[y.len() - 1] != sep);
        lemma_split_append(x, y1, sep);
        assert((x + y).drop_last() =~= x + y1);
        assert((x + y).last() == y.last());
        assert(split_on(x, sep).last() + y1 + seq![y.last()] =~= split_on(x, sep).last() + y);
        let p = split_on(x + y1, sep);
        let c = y.last();
        assert(p.drop_last() =~= split_on(x, sep).drop_last());
        assert(p.last() == split_on(x, sep).last() + y1);
        assert(split_on(x + y, sep) == p.drop_last().push(p.last().push(c)));
        assert(p.last().push(c) =~= split_on(x, sep).last() + y);
    }
}

proof fn lemma_split_sep(x: Seq<char>, sep: char)
    ensures
        split_on(x.push(sep), sep) == split_on(x, sep).push(Seq::empty()),
{
    assert(x.push(sep).drop_last() =~= x);
}

/// A cancel identifier decodes to the session id and the requester id it
/// was built from.
pub proof fn lemma_cancel_id_round_trip(session_id: u64, requester_id: u64)
    requires
        session_id != 0,
        requester_id != 0,
    ensures
        parse_cancel_id(cancel_id(session_id, requester_id)) == Some((session_id, requester_id)),
{
    let p = cancel_prefix();
    let d1 = decimal(session_id as nat);
    let d2 = decimal(requester_id as nat);
    lemma_decimal(session_id as nat);
    lemma_decimal(requester_id as nat);
    let e = Seq::<char>::empty();
    assert forall|i: int| 0 <= i < p.len() implies #[trigger] p[i] != '#' by {}
    assert forall|i: int| 0 <= i < d1.len() implies #[trigger] d1[i] != '#' by {
        assert(is_digit(d1[i]));
    }
    assert forall|i: int| 0 <= i < d2.len() implies #[trigger] d2[i] != '#' by {
        assert(is_digit(d2[i]));
    }
    lemma_split_append(e, p, '#');
    assert(e + p =~= p);
    assert(split_on(p, '#') =~= seq![p]);
    lemma_split_sep(p, '#');
    let a = p.push('#');
    lemma_split_append(a, d1, '#');
    let b = a + d1;
    assert(split_on(b, '#') =~= seq![p, d1]);
    lemma_split_sep(b, '#');
    let c = b.push('#');
    lemma_split_append(c, d2, '#');
    assert(split_on(c + d2, '#') =~= seq![p, d1, d2]);
    assert(c + d2 =~= cancel_id(session_id, requester_id));
}

#[verifier::external_type_specification]
#[verifier::external_body]
#[verifier::reject_recursive_types(T)]
pub struct ExSender<T>(flume::Sender<T>);

#[verifier::external_type_specification]
#[verifier::external_body]
#[verifier::reject_recursive_types(T)]
pub struct ExReceiver<T>(flume::Receiver<T>);

/// Relies on `flume::unbounded`: a new channel without a bound.
#[verifier::external_body]
fn unbounded_channel() -> (flume::Sender<u64>, flume::Receiver<u64>) {
    flume::unbounded()
}

/// Relies on `flume::Sender::send`: queues `id` on the channel; it fails
/// only when no receiver is left.
#[verifier::external_body]
fn send_id(sender: &flume::Sender<u64>, id: u64) -> bool {
    sender.send(id).is_ok()
}

/// Relies on `flume::Receiver::drain`: takes every message queued at the
/// time of the call, without waiting.
#[verifier::external_body]
fn drain_ids(receiver: &flume::Receiver<u64>) -> Vec<u64> {
    receiver.drain().collect()
}

/// The process-wide channel of cancel signals, each carrying the id of the
/// session to cancel.
pub struct CancellationRegistry {
    sender: flume::Sender<u64>,
    receiver: flume::Receiver<u64>,
}

impl CancellationRegistry {
    pub fn new() -> Self {
        let (sender, receiver) = unbounded_channel();
        CancellationRegistry { sender, receiver }
    }

    /// Queues a cancel signal for `session_id`.
    pub fn signal(&self, session_id: u64) {
        let _ = send_id(&self.sender, session_id);
    }

    /// Takes every queued signal, without waiting.
    pub fn drain(&self) -> Vec<u64> {
        drain_ids(&self.receiver)
    }

    /// Takes every queued signal and tells whether one was for
    /// `session_id`; the others are dropped.
    pub fn try_take(&self, session_id: u64) -> bool {
        let signals = drain_ids(&self.receiver);
        crate::render::contains_signal(&signals, session_id)
    }

    /// Signals the session that a press of the cancel affordance
    /// `custom_id` by `user_id` may cancel, and returns its id; a press by
    /// anyone but the requester signals nothing.
    pub fn request_cancel(&self, custom_id: &str, user_id: u64) -> (r: Option<u64>)
        ensures
            r == authorized_session(custom_id@, user_id),
    {
        let r = authorize_cancel(custom_id, user_id);
        if let Some(session_id) = r {
            self.signal(session_id);
        }
        r
    }
}

} // verus!
