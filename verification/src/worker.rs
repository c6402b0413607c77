//! What the background worker decides: which entity a command addresses, the messages
//! a send or resubmit puts on the wire, the paging of a peek, and the status and error
//! lines it reports. The worker itself (AMQP and HTTP I/O) runs outside the library.

use vstd::prelude::*;
use crate::mgmt::Entity;
use crate::mgmt::{
    HttpMethod, ListPager, MgmtClient, MgmtError, Request, create_body_spec, entity_query_spec,
    is_request_for, pairs_view, queues_resource, url_spec, subscriptions_resource_spec, topics_resource,
    update_body_spec,
};
use crate::num::{decimal, parse_u64, parse_u64_spec, push_decimal};
use crate::connection::opt_view;
use crate::strmap::StrMap;
use crate::text::{chars_of, contains_chars, contains_seq, trim, trim_chars};

verus! {

/// A queue or a subscription: something messages are read from.
#[derive(Clone, Debug, PartialEq, Eq, Hash)]
pub enum Target {
    Queue(String),
    Subscription { topic: String, name: String },
}

impl Target {
    /// The key of a target: the queue name, or `topic/name`.
    pub open spec fn key_spec(&self) -> Seq<char> {
        match self {
            Target::Queue(q) => q@,
            Target::Subscription { topic, name } => topic@ + "/"@ + name@,
        }
    }

    /// Where a resubmitted message goes: the queue, or the subscription's topic.
    pub open spec fn destination_spec(&self) -> Seq<char> {
        match self {
            Target::Queue(q) => q@,
            Target::Subscription { topic, .. } => topic@,
        }
    }

    /// The key of a target: the queue name, or `topic/name`.
    pub fn key(&self) -> (r: String)
        ensures
            r@ == self.key_spec(),
            self matches Target::Queue(q) ==> r@ == q@,
            self matches Target::Subscription { topic, name } ==> r@ == topic@ + "/"@ + name@,
    {
        match self {
            Target::Queue(q) => q.clone(),
            Target::Subscription { topic, name } => {
                let mut r = topic.clone();
                r.append("/");
                r.append(name.as_str());
                r
            },
        }
    }

    /// Where a resubmitted message gets sent.
    pub fn send_destination(&self) -> (r: &str)
        ensures
            r@ == self.destination_spec(),
            self matches Target::Queue(q) ==> r@ == q@,
            self matches Target::Subscription { topic, .. } ==> r@ == topic@,
    {
        match self {
            Target::Queue(q) => q.as_str(),
            Target::Subscription { topic, .. } => topic.as_str(),
        }
    }
}

/// The send form: one message, to be sent `count` times.
#[derive(Clone, Debug)]
pub struct OutMessage {
    pub body: String,
    pub subject: String,
    pub content_type: String,
    pub message_id: String,
    pub correlation_id: String,
    pub session_id: String,
    pub ttl_secs: String,
    pub props: Vec<(String, String)>,
    pub count: u32,
}

impl Default for OutMessage {
    fn default() -> (m: OutMessage)
        ensures
            m.body@.len() == 0 && m.subject@.len() == 0 && m.content_type@.len() == 0
                && m.message_id@.len() == 0 && m.correlation_id@.len() == 0
                && m.session_id@.len() == 0 && m.ttl_secs@.len() == 0 && m.props@.len() == 0
                && m.count == 0,
    {
        OutMessage {
            body: String::new(),
            subject: String::new(),
            content_type: String::new(),
            message_id: String::new(),
            correlation_id: String::new(),
            session_id: String::new(),
            ttl_secs: String::new(),
            props: Vec::new(),
            count: 0,
        }
    }
}

/// A received or peeked message, as the explorer shows it.
#[derive(Clone, Debug, Default)]
pub struct MsgView {
    pub seq: i64,
    pub id: String,
    pub subject: String,
    pub content_type: String,
    pub session: String,
    pub correlation: String,
    pub enqueued: String,
    pub expires: String,
    pub delivery_count: u32,
    pub size: usize,
    pub body: String,
    pub props: Vec<(String, String)>,
    pub dl_reason: String,
    pub dl_description: String,
}

/// A request from the explorer to the worker.
pub enum Cmd {
    Connect(String),
    Refresh,
    Peek { target: Target, dlq: bool, max: u32 },
    Send { destination: String, msg: OutMessage },
    Receive { target: Target, dlq: bool, max: u32 },
    Purge { target: Target, dlq: bool },
    Resubmit { target: Target, msgs: Vec<MsgView> },
    CreateQueue(String),
    CreateTopic(String),
    CreateSubscription { topic: String, name: String },
    /// path: queue | topic | topic/Subscriptions/sub
    DeleteEntity(String),
    UpdateEntity { path: String, tag: String, fields: Vec<(String, String)> },
}

/// A report from the worker to the explorer.
pub enum Evt {
    Connected(String),
    Entities { queues: Vec<Entity>, topics: Vec<Entity>, subs: StrMap<Vec<Entity>> },
    Messages { key: String, dlq: bool, msgs: Vec<MsgView> },
    Status(String),
    Error(String),
    Busy(bool),
}

/// A message to put on the wire; `None` leaves a property unset.
#[derive(Clone, Debug)]
pub struct MessagePlan {
    pub body: String,
    pub subject: Option<String>,
    pub content_type: Option<String>,
    pub message_id: Option<String>,
    pub correlation_id: Option<String>,
    pub session_id: Option<String>,
    pub ttl_secs: Option<u64>,
    /// Application properties, set (possibly to an empty map) when `Some`.
    pub props: Option<Vec<(String, String)>>,
}

/// A string property that is set when it is not empty.
pub open spec fn set_if_nonempty(s: Seq<char>) -> Option<Seq<char>> {
    if s.len() == 0 {
        None
    } else {
        Some(s)
    }
}

/// How many copies a send form sends: `count`, but at least one.
pub open spec fn copies(m: OutMessage) -> nat {
    if m.count == 0 {
        1
    } else {
        m.count as nat
    }
}

/// The message id of copy `i` of `n`: the id itself for a single message, `id-i` for copies.
pub open spec fn copy_id(id: Seq<char>, n: nat, i: nat) -> Option<Seq<char>> {
    if id.len() == 0 {
        None
    } else if n > 1 {
        Some(id + "-"@ + decimal(i))
    } else {
        Some(id)
    }
}

/// The time to live a form asks for: its trimmed text read as `u64`, when that is positive.
pub open spec fn ttl_of(text: Seq<char>) -> Option<u64> {
    match parse_u64_spec(trim(text)) {
        Some(v) => if v > 0 {
            Some(v)
        } else {
            None
        },
        None => None,
    }
}

/// The properties of a form that get sent: those with a non-empty key, in order.
pub open spec fn keyed_props(p: Seq<(Seq<char>, Seq<char>)>) -> Seq<(Seq<char>, Seq<char>)>
    decreases p.len(),
{
    if p.len() == 0 {
        Seq::empty()
    } else if p.last().0.len() == 0 {
        keyed_props(p.drop_last())
    } else {
        keyed_props(p.drop_last()).push(p.last())
    }
}

/// The value of an optional list of pairs.
pub open spec fn oprops(o: Option<Vec<(String, String)>>) -> Option<Seq<(Seq<char>, Seq<char>)>> {
    match o {
        Some(v) => Some(pairs_view(v@)),
        None => None,
    }
}

/// Copy `i` of the messages a send form puts on the wire.
pub open spec fn is_send_copy(p: MessagePlan, m: OutMessage, i: nat) -> bool {
    &&& p.body@ == m.body@
    &&& opt_view(p.subject) == set_if_nonempty(m.subject@)
    &&& opt_view(p.content_type) == set_if_nonempty(m.content_type@)
    &&& opt_view(p.message_id) == copy_id(m.message_id@, copies(m), i)
    &&& opt_view(p.correlation_id) == set_if_nonempty(m.correlation_id@)
    &&& opt_view(p.session_id) == set_if_nonempty(m.session_id@)
    &&& p.ttl_secs == ttl_of(m.ttl_secs@)
    &&& oprops(p.props) == if m.props@.len() == 0 {
        None
    } else {
        Some(keyed_props(pairs_view(m.props@)))
    }
}

fn nonempty_copy(s: &String) -> (r: Option<String>)
    ensures
        opt_view(r) == set_if_nonempty(s@),
{
    if s.as_str().unicode_len() == 0 {
        None
    } else {
        Some(s.clone())
    }
}

fn copy_opt(o: &Option<String>) -> (r: Option<String>)
    ensures
        r == *o,
{
    match o {
        Some(s) => Some(s.clone()),
        None => None,
    }
}

/// A copy of a list of string pairs.
pub fn copy_pairs(p: &Vec<(String, String)>) -> (r: Vec<(String, String)>)
    ensures
        pairs_view(r@) == pairs_view(p@),
{
    let mut r: Vec<(String, String)> = Vec::new();
    let mut i: usize = 0;
    while i < p.len()
        invariant
            i <= p.len(),
            pairs_view(r@) == pairs_view(p@.take(i as int)),
        decreases p.len() - i,
    {
        let ghost before = r@;
        let a = p[i].0.clone();
        let b = p[i].1.clone();
        r.push((a, b));
        assert(r@ == before.push((a, b)));
        assert(p@.take(i + 1) =~= p@.take(i as int).push(p@[i as int]));
        assert(pairs_view(r@) =~= pairs_view(before).push((a@, b@)));
        assert(pairs_view(p@.take(i + 1)) =~= pairs_view(p@.take(i as int)).push(
            (p@[i as int].0@, p@[i as int].1@),
        ));
        i = i + 1;
    }
    assert(p@.take(p.len() as int) =~= p@);
    r
}

fn copy_opt_pairs(o: &Option<Vec<(String, String)>>) -> (r: Option<Vec<(String, String)>>)
    ensures
        oprops(r) == oprops(*o),
{
    match o {
        Some(v) => Some(copy_pairs(v)),
        None => None,
    }
}

fn keyed_props_of(p: &Vec<(String, String)>) -> (r: Vec<(String, String)>)
    ensures
        pairs_view(r@) == keyed_props(pairs_view(p@)),
{
    let ghost pv = pairs_view(p@);
    let mut r: Vec<(String, String)> = Vec::new();
    let mut i: usize = 0;
    while i < p.len()
        invariant
            i <= p.len(),
            pv == pairs_view(p@),
            pairs_view(r@) == keyed_props(pv.take(i as int)),
        decreases p.len() - i,
    {
        assert(pv.take(i + 1).drop_last() =~= pv.take(i as int));
        assert(pv.take(i + 1).last() == (p@[i as int].0@, p@[i as int].1@));
        if p[i].0.as_str().unicode_len() != 0 {
            let ghost before = pairs_view(r@);
            r.push((p[i].0.clone(), p[i].1.clone()));
            assert(pairs_view(r@) =~= before.push((p@[i as int].0@, p@[i as int].1@)));
        }
        i = i + 1;
    }
    assert(pv.take(p.len() as int) =~= pv);
    r
}

fn ttl_exec(text: &String) -> (r: Option<u64>)
    ensures
        r == ttl_of(text@),
{
    let t = trim_chars(&chars_of(text.as_str()));
    match parse_u64(&t) {
        Some(v) => if v > 0 {
            Some(v)
        } else {
            None
        },
        None => None,
    }
}

/// The properties sent for a form: exactly its properties with a non-empty key.
pub proof fn lemma_keyed_props(p: Seq<(Seq<char>, Seq<char>)>)
    ensures
        keyed_props(p).len() <= p.len(),
        forall|j: int| 0 <= j < keyed_props(p).len() ==> (#[trigger] keyed_props(p)[j]).0.len() > 0
            && p.contains(keyed_props(p)[j]),
        forall|i: int| 0 <= i < p.len() && (#[trigger] p[i]).0.len() > 0 ==> keyed_props(p).contains(p[i]),
    decreases p.len(),
{
    if p.len() > 0 {
        let w = p.drop_last();
        lemma_keyed_props(w);
        let n = p.len() - 1;
        assert(p.last() == p[n]);
        assert forall|j: int| 0 <= j < keyed_props(p).len() implies (#[trigger] keyed_props(p)[j]).0.len() > 0
            && p.contains(keyed_props(p)[j]) by {
            if j < keyed_props(w).len() {
                assert(keyed_props(p)[j] == keyed_props(w)[j]);
                let k = choose|k: int| 0 <= k < w.len() && w[k] == keyed_props(w)[j];
                assert(p[k] == w[k]);
            } else {
                assert(keyed_props(p)[j] == p[n]);
            }
        }
        assert forall|i: int| 0 <= i < p.len() && (#[trigger] p[i]).0.len() > 0 implies keyed_props(p).contains(p[i]) by {
            if i < n {
                assert(w[i] == p[i]);
                let k = choose|k: int| 0 <= k < keyed_props(w).len() && keyed_props(w)[k] == w[i];
                assert(keyed_props(p)[k] == keyed_props(w)[k]);
            } else {
                assert(keyed_props(p)[keyed_props(p).len() - 1] == p[n]);
            }
        }
    }
}

/// What copy `i` of a send carries: the form's body; its subject, content type,
/// correlation id and session id where they are not empty (unset where they are); its
/// message id, numbered `id-i` when more than one copy is sent; a time to live only when
/// one is given and positive; and its properties with a non-empty key, when it has any.
pub proof fn lemma_send_copy(p: MessagePlan, m: OutMessage, i: nat)
    requires
        is_send_copy(p, m, i),
    ensures
        p.body@ == m.body@,
        m.subject@.len() == 0 ==> p.subject is None,
        m.subject@.len() > 0 ==> opt_view(p.subject) == Some(m.subject@),
        m.content_type@.len() == 0 ==> p.content_type is None,
        m.content_type@.len() > 0 ==> opt_view(p.content_type) == Some(m.content_type@),
        m.correlation_id@.len() == 0 ==> p.correlation_id is None,
        m.correlation_id@.len() > 0 ==> opt_view(p.correlation_id) == Some(m.correlation_id@),
        m.session_id@.len() == 0 ==> p.session_id is None,
        m.session_id@.len() > 0 ==> opt_view(p.session_id) == Some(m.session_id@),
        m.message_id@.len() == 0 ==> p.message_id is None,
        m.message_id@.len() > 0 && m.count <= 1 ==> opt_view(p.message_id) == Some(m.message_id@),
        m.message_id@.len() > 0 && m.count > 1 ==> opt_view(p.message_id) == Some(
            m.message_id@ + "-"@ + decimal(i),
        ),
        p.ttl_secs matches Some(t) ==> t > 0 && parse_u64_spec(trim(m.ttl_secs@)) == Some(t),
        p.ttl_secs is None ==> !(parse_u64_spec(trim(m.ttl_secs@)) matches Some(t) && t > 0),
        m.props@.len() == 0 ==> p.props is None,
        m.props@.len() > 0 ==> (p.props matches Some(ps) && forall|j: int|
            0 <= j < ps@.len() ==> (#[trigger] ps@[j]).0@.len() > 0 && pairs_view(m.props@).contains(
                (ps@[j].0@, ps@[j].1@),
            )),
{
    if m.props@.len() > 0 {
        lemma_keyed_props(pairs_view(m.props@));
        let ps = p.props->0;
        assert forall|j: int| 0 <= j < ps@.len() implies (#[trigger] ps@[j]).0@.len() > 0
            && pairs_view(m.props@).contains((ps@[j].0@, ps@[j].1@)) by {
            assert(pairs_view(ps@)[j] == (ps@[j].0@, ps@[j].1@));
            assert(keyed_props(pairs_view(m.props@))[j] == pairs_view(ps@)[j]);
        }
    }
}

/// What the resubmitted copy of a dead-lettered message carries: its body; its subject,
/// content type, correlation id and session id where they are not empty; no message id
/// and no time to live; and all its properties, when it has any.
pub proof fn lemma_resubmit_copy(p: MessagePlan, v: MsgView)
    requires
        is_resubmit_of(p, v),
    ensures
        p.body@ == v.body@,
        v.subject@.len() == 0 ==> p.subject is None,
        v.subject@.len() > 0 ==> opt_view(p.subject) == Some(v.subject@),
        v.content_type@.len() == 0 ==> p.content_type is None,
        v.content_type@.len() > 0 ==> opt_view(p.content_type) == Some(v.content_type@),
        v.correlation@.len() == 0 ==> p.correlation_id is None,
        v.correlation@.len() > 0 ==> opt_view(p.correlation_id) == Some(v.correlation@),
        v.session@.len() == 0 ==> p.session_id is None,
        v.session@.len() > 0 ==> opt_view(p.session_id) == Some(v.session@),
        p.message_id is None,
        p.ttl_secs is None,
        v.props@.len() == 0 ==> p.props is None,
        v.props@.len() > 0 ==> (p.props matches Some(ps) && ps@.len() == v.props@.len() && forall|j: int|
            0 <= j < ps@.len() ==> (#[trigger] ps@[j]).0@ == v.props@[j].0@ && ps@[j].1@ == v.props@[j].1@),
{
    if v.props@.len() > 0 {
        let ps = p.props->0;
        assert(pairs_view(ps@) == pairs_view(v.props@));
        assert(pairs_view(ps@).len() == ps@.len());
        assert(pairs_view(v.props@).len() == v.props@.len());
        assert forall|j: int| 0 <= j < ps@.len() implies (#[trigger] ps@[j]).0@ == v.props@[j].0@
            && ps@[j].1@ == v.props@[j].1@ by {
            assert(pairs_view(ps@)[j] == (ps@[j].0@, ps@[j].1@));
            assert(pairs_view(v.props@)[j] == (v.props@[j].0@, v.props@[j].1@));
        }
    }
}

/// The messages a send form puts on the wire, in order: `count` copies (at least one),
/// each with the form's non-empty properties, the copies numbered in their message ids.
pub fn send_plan(m: &OutMessage) -> (r: Vec<MessagePlan>)
    ensures
        r@.len() == copies(*m),
        forall|i: int| 0 <= i < r@.len() ==> is_send_copy(#[trigger] r@[i], *m, i as nat),
        r@.len() == (if m.count == 0 {
            1
        } else {
            m.count as int
        }),
        forall|i: int|
            0 <= i < r@.len() ==> (#[trigger] r@[i]).body@ == m.body@ && (m.subject@.len() > 0
                ==> opt_view(r@[i].subject) == Some(m.subject@)) && (m.subject@.len() == 0
                ==> r@[i].subject is None) && (m.content_type@.len() > 0 ==> opt_view(
                r@[i].content_type,
            ) == Some(m.content_type@)) && (m.content_type@.len() == 0
                ==> r@[i].content_type is None) && (m.correlation_id@.len() > 0 ==> opt_view(
                r@[i].correlation_id,
            ) == Some(m.correlation_id@)) && (m.correlation_id@.len() == 0
                ==> r@[i].correlation_id is None) && (m.session_id@.len() > 0 ==> opt_view(
                r@[i].session_id,
            ) == Some(m.session_id@)) && (m.session_id@.len() == 0 ==> r@[i].session_id is None)
                && (m.message_id@.len() == 0 ==> r@[i].message_id is None),
{
    let n: u32 = if m.count == 0 {
        1
    } else {
        m.count
    };
    let subject = nonempty_copy(&m.subject);
    let content_type = nonempty_copy(&m.content_type);
    let correlation_id = nonempty_copy(&m.correlation_id);
    let session_id = nonempty_copy(&m.session_id);
    let ttl_secs = ttl_exec(&m.ttl_secs);
    let props: Option<Vec<(String, String)>> = if m.props.len() == 0 {
        None
    } else {
        Some(keyed_props_of(&m.props))
    };
    let mut r: Vec<MessagePlan> = Vec::new();
    let mut i: u32 = 0;
    while i < n
        invariant
            i <= n,
            n as nat == copies(*m),
            r@.len() == i,
            opt_view(subject) == set_if_nonempty(m.subject@),
            opt_view(content_type) == set_if_nonempty(m.content_type@),
            opt_view(correlation_id) == set_if_nonempty(m.correlation_id@),
            opt_view(session_id) == set_if_nonempty(m.session_id@),
            ttl_secs == ttl_of(m.ttl_secs@),
            oprops(props) == if m.props@.len() == 0 {
                None
            } else {
                Some(keyed_props(pairs_view(m.props@)))
            },
            forall|j: int| 0 <= j < i ==> is_send_copy(#[trigger] r@[j], *m, j as nat),
        decreases n - i,
    {
        let message_id = if m.message_id.as_str().unicode_len() == 0 {
            None
        } else if n > 1 {
            let mut id = m.message_id.clone();
            id.append("-");
            push_decimal(&mut id, i as u64);
            proof {
                reveal_strlit("-");
            }
            assert(id@ =~= m.message_id@ + "-"@ + decimal(i as nat));
            Some(id)
        } else {
            Some(m.message_id.clone())
        };
        let p = MessagePlan {
            body: m.body.clone(),
            subject: copy_opt(&subject),
            content_type: copy_opt(&content_type),
            message_id,
            correlation_id: copy_opt(&correlation_id),
            session_id: copy_opt(&session_id),
            ttl_secs,
            props: copy_opt_pairs(&props),
        };
        assert(is_send_copy(p, *m, i as nat));
        r.push(p);
        i = i + 1;
    }
    proof {
        assert forall|i: int| 0 <= i < r@.len() implies (#[trigger] r@[i]).body@ == m.body@ && (m.subject@.len() > 0
            ==> opt_view(r@[i].subject) == Some(m.subject@)) && (m.subject@.len() == 0
            ==> r@[i].subject is None) && (m.content_type@.len() > 0 ==> opt_view(
            r@[i].content_type,
        ) == Some(m.content_type@)) && (m.content_type@.len() == 0
            ==> r@[i].content_type is None) && (m.correlation_id@.len() > 0 ==> opt_view(
            r@[i].correlation_id,
        ) == Some(m.correlation_id@)) && (m.correlation_id@.len() == 0
            ==> r@[i].correlation_id is None) && (m.session_id@.len() > 0 ==> opt_view(
            r@[i].session_id,
        ) == Some(m.session_id@)) && (m.session_id@.len() == 0 ==> r@[i].session_id is None)
            && (m.message_id@.len() == 0 ==> r@[i].message_id is None) by {
            lemma_send_copy(r@[i], *m, i as nat);
        }
    }
    r
}


/// The copies of one send carry different message ids: when the form names an id and
/// asks for more than one copy, copy `i` is `id-i`.
pub proof fn lemma_send_ids_distinct(plans: Seq<MessagePlan>, m: OutMessage, i: int, j: int)
    requires
        plans.len() == copies(m),
        forall|k: int| 0 <= k < plans.len() ==> is_send_copy(#[trigger] plans[k], m, k as nat),
        m.message_id@.len() > 0,
        0 <= i < j < plans.len(),
    ensures
        opt_view(plans[i].message_id) != opt_view(plans[j].message_id),
{
    assert(is_send_copy(plans[i], m, i as nat));
    assert(is_send_copy(plans[j], m, j as nat));
    let id = m.message_id@;
    let a = id + "-"@ + decimal(i as nat);
    let b = id + "-"@ + decimal(j as nat);
    if a == b {
        reveal_strlit("-");
        assert(a.skip(id.len() + 1int) =~= decimal(i as nat));
        assert(b.skip(id.len() + 1int) =~= decimal(j as nat));
        crate::num::lemma_decimal_injective(i as nat, j as nat);
    }
}

/// The message a dead-lettered message is resubmitted as.
pub open spec fn is_resubmit_of(p: MessagePlan, v: MsgView) -> bool {
    &&& p.body@ == v.body@
    &&& opt_view(p.subject) == set_if_nonempty(v.subject@)
    &&& opt_view(p.content_type) == set_if_nonempty(v.content_type@)
    &&& p.message_id is None
    &&& opt_view(p.correlation_id) == set_if_nonempty(v.correlation@)
    &&& opt_view(p.session_id) == set_if_nonempty(v.session@)
    &&& p.ttl_secs is None
    &&& oprops(p.props) == if v.props@.len() == 0 {
        None
    } else {
        Some(pairs_view(v.props@))
    }
}

/// The copies that resubmitting `msgs` sends, one per message, in order.
pub fn resubmit_plan(msgs: &Vec<MsgView>) -> (r: Vec<MessagePlan>)
    ensures
        r@.len() == msgs@.len(),
        forall|i: int| 0 <= i < r@.len() ==> is_resubmit_of(#[trigger] r@[i], msgs@[i]),
        forall|i: int|
            0 <= i < r@.len() ==> (#[trigger] r@[i]).body@ == msgs@[i].body@ && (msgs@[i].subject@.len()
                > 0 ==> opt_view(r@[i].subject) == Some(msgs@[i].subject@)) && (
            msgs@[i].content_type@.len() > 0 ==> opt_view(r@[i].content_type) == Some(
                msgs@[i].content_type@,
            )) && (msgs@[i].correlation@.len() > 0 ==> opt_view(r@[i].correlation_id) == Some(
                msgs@[i].correlation@,
            )) && (msgs@[i].session@.len() > 0 ==> opt_view(r@[i].session_id) == Some(
                msgs@[i].session@,
            )) && r@[i].message_id is None && r@[i].ttl_secs is None,
{
    let mut r: Vec<MessagePlan> = Vec::new();
    let mut i: usize = 0;
    while i < msgs.len()
        invariant
            i <= msgs.len(),
            r@.len() == i,
            forall|j: int| 0 <= j < i ==> is_resubmit_of(#[trigger] r@[j], msgs@[j]),
        decreases msgs.len() - i,
    {
        let v = &msgs[i];
        let p = MessagePlan {
            body: v.body.clone(),
            subject: nonempty_copy(&v.subject),
            content_type: nonempty_copy(&v.content_type),
            message_id: None,
            correlation_id: nonempty_copy(&v.correlation),
            session_id: nonempty_copy(&v.session),
            ttl_secs: None,
            props: if v.props.len() == 0 {
                None
            } else {
                Some(copy_pairs(&v.props))
            },
        };
        assert(is_resubmit_of(p, msgs@[i as int]));
        r.push(p);
        i = i + 1;
    }
    proof {
        assert forall|i: int| 0 <= i < r@.len() implies (#[trigger] r@[i]).body@ == msgs@[i].body@ && (msgs@[i].subject@.len()
            > 0 ==> opt_view(r@[i].subject) == Some(msgs@[i].subject@)) && (
        msgs@[i].content_type@.len() > 0 ==> opt_view(r@[i].content_type) == Some(
            msgs@[i].content_type@,
        )) && (msgs@[i].correlation@.len() > 0 ==> opt_view(r@[i].correlation_id) == Some(
            msgs@[i].correlation@,
        )) && (msgs@[i].session@.len() > 0 ==> opt_view(r@[i].session_id) == Some(
            msgs@[i].session@,
        )) && r@[i].message_id is None && r@[i].ttl_secs is None by {
            lemma_resubmit_copy(r@[i], msgs@[i]);
        }
    }
    r
}

/// A peek in progress: up to `max` messages, read in batches of at most 32, each batch
/// starting after the last sequence number seen.
pub struct PeekCursor {
    pub max: u32,
    pub got: u32,
    pub from: Option<i64>,
    pub finished: bool,
}

/// The size of the next batch: what is still wanted, at most 32.
pub open spec fn batch_size(max: u32, got: u32) -> u32 {
    if max - got < 32 {
        (max - got) as u32
    } else {
        32
    }
}

impl PeekCursor {
    /// A peek of up to `max` messages from the start of the entity.
    pub fn new(max: u32) -> (c: PeekCursor)
        ensures
            c.max == max && c.got == 0 && c.from is None && !c.finished,
    {
        PeekCursor { max, got: 0, from: None, finished: false }
    }

    /// The next batch to ask for, `(count, from sequence number)`, or `None` when done.
    pub fn next_batch(&self) -> (r: Option<(u32, Option<i64>)>)
        ensures
            (self.finished || self.got >= self.max) ==> r is None,
            !(self.finished || self.got >= self.max) ==> r == Some(
                (batch_size(self.max, self.got), self.from),
            ),
            r matches Some((n, from)) ==> 0 < n <= 32 && n <= self.max - self.got && (n == 32 || n
                == self.max - self.got) && from == self.from,
    {
        if self.finished || self.got >= self.max {
            None
        } else {
            let left = self.max - self.got;
            Some((if left < 32 { left } else { 32 }, self.from))
        }
    }

    /// Takes in a batch of `n` messages, the last of which has sequence number `last_seq`:
    /// an empty batch ends the peek; else the next batch starts after `last_seq`.
    pub fn on_batch(&mut self, n: usize, last_seq: i64)
        ensures
            final(self).max == old(self).max,
            n == 0 ==> final(self).finished && final(self).got == old(self).got && final(self).from
                == old(self).from,
            n > 0 ==> final(self).finished == old(self).finished,
            n > 0 ==> final(self).got == (if old(self).got + n > u32::MAX {
                u32::MAX as int
            } else {
                old(self).got + n
            }),
            n > 0 ==> final(self).from == Some(
                if last_seq == i64::MAX {
                    i64::MIN
                } else {
                    (last_seq + 1) as i64
                },
            ),
    {
        if n == 0 {
            self.finished = true;
        } else {
            let add: u32 = if n > u32::MAX as usize {
                u32::MAX
            } else {
                n as u32
            };
            self.got = if self.got > u32::MAX - add {
                u32::MAX
            } else {
                self.got + add
            };
            self.from = Some(
                if last_seq == i64::MAX {
                    i64::MIN
                } else {
                    last_seq + 1
                },
            );
        }
    }
}

/// The status line after a peek.
pub open spec fn peeked_status(n: nat) -> Seq<char> {
    "Peeked "@ + decimal(n) + " message(s)"@
}

/// `" (DLQ)"` for the dead-letter queue, nothing otherwise.
pub open spec fn dlq_suffix(dlq: bool) -> Seq<char> {
    if dlq {
        " (DLQ)"@
    } else {
        Seq::empty()
    }
}

/// The status line after a send.
pub open spec fn sent_status(n: nat, destination: Seq<char>) -> Seq<char> {
    "Sent "@ + decimal(n) + " message(s) to "@ + destination
}

/// The status line after a receive-and-delete.
pub open spec fn received_status(n: nat, key: Seq<char>, dlq: bool) -> Seq<char> {
    "Received & deleted "@ + decimal(n) + " message(s) from "@ + key + dlq_suffix(dlq)
}

/// The progress line of a purge.
pub open spec fn purging_status(total: nat) -> Seq<char> {
    "Purging\u{2026} "@ + decimal(total) + " deleted"@
}

/// The status line after a purge.
pub open spec fn purged_status(total: nat, key: Seq<char>, dlq: bool) -> Seq<char> {
    "Purged "@ + decimal(total) + " message(s) from "@ + key + dlq_suffix(dlq)
}

/// The status line after a resubmit.
pub open spec fn resubmitted_status(n: nat, destination: Seq<char>) -> Seq<char> {
    "Resubmitted "@ + decimal(n) + " message(s) to "@ + destination
}

/// The status line after a listing of the namespace.
pub open spec fn loaded_status(queues: nat, topics: nat) -> Seq<char> {
    "Loaded "@ + decimal(queues) + " queue(s), "@ + decimal(topics) + " topic(s)"@
}

fn push_dlq(s: &mut String, dlq: bool)
    ensures
        final(s)@ == old(s)@ + dlq_suffix(dlq),
{
    if dlq {
        s.append(" (DLQ)");
    } else {
        assert(final(s)@ =~= old(s)@ + dlq_suffix(dlq));
    }
}

/// `Peeked {n} message(s)`.
pub fn peeked(n: usize) -> (r: String)
    ensures
        r@ == peeked_status(n as nat),
{
    let mut r = String::from_str("Peeked ");
    push_decimal(&mut r, n as u64);
    r.append(" message(s)");
    r
}

/// `Sent {n} message(s) to {destination}`.
pub fn sent(n: u32, destination: &str) -> (r: String)
    ensures
        r@ == sent_status(n as nat, destination@),
{
    let mut r = String::from_str("Sent ");
    push_decimal(&mut r, n as u64);
    r.append(" message(s) to ");
    r.append(destination);
    r
}

/// `Received & deleted {n} message(s) from {key}` and ` (DLQ)` for the dead-letter queue.
pub fn received(n: usize, key: &str, dlq: bool) -> (r: String)
    ensures
        r@ == received_status(n as nat, key@, dlq),
{
    let mut r = String::from_str("Received & deleted ");
    push_decimal(&mut r, n as u64);
    r.append(" message(s) from ");
    r.append(key);
    push_dlq(&mut r, dlq);
    r
}

/// `Purging… {total} deleted`.
pub fn purging(total: usize) -> (r: String)
    ensures
        r@ == purging_status(total as nat),
{
    let mut r = String::from_str("Purging\u{2026} ");
    push_decimal(&mut r, total as u64);
    r.append(" deleted");
    r
}

/// `Purged {total} message(s) from {key}` and ` (DLQ)` for the dead-letter queue.
pub fn purged(total: usize, key: &str, dlq: bool) -> (r: String)
    ensures
        r@ == purged_status(total as nat, key@, dlq),
{
    let mut r = String::from_str("Purged ");
    push_decimal(&mut r, total as u64);
    r.append(" message(s) from ");
    r.append(key);
    push_dlq(&mut r, dlq);
    r
}

/// `Resubmitted {n} message(s) to {destination}`.
pub fn resubmitted(n: usize, destination: &str) -> (r: String)
    ensures
        r@ == resubmitted_status(n as nat, destination@),
{
    let mut r = String::from_str("Resubmitted ");
    push_decimal(&mut r, n as u64);
    r.append(" message(s) to ");
    r.append(destination);
    r
}

/// `Loaded {queues} queue(s), {topics} topic(s)`.
pub fn loaded(queues: usize, topics: usize) -> (r: String)
    ensures
        r@ == loaded_status(queues as nat, topics as nat),
{
    let mut r = String::from_str("Loaded ");
    push_decimal(&mut r, queues as u64);
    r.append(" queue(s), ");
    push_decimal(&mut r, topics as u64);
    r.append(" topic(s)");
    r
}

/// The management path of a subscription.
pub open spec fn subscription_path_spec(topic: Seq<char>, name: Seq<char>) -> Seq<char> {
    topic + "/Subscriptions/"@ + name
}

/// The management path of the subscription `name` of `topic`.
pub fn subscription_path(topic: &str, name: &str) -> (r: String)
    ensures
        r@ == subscription_path_spec(topic@, name@),
{
    let mut r = String::from_str(topic);
    r.append("/Subscriptions/");
    r.append(name);
    r
}

/// `topic/name`, as subscriptions are named in status lines.
pub fn topic_slash_name(topic: &str, name: &str) -> (r: String)
    ensures
        r@ == topic@ + "/"@ + name@,
{
    let mut r = String::from_str(topic);
    r.append("/");
    r.append(name);
    r
}

/// The request a command that manages entities makes, with its status line; `None` for
/// the commands that do not manage entities.
pub open spec fn mgmt_step_spec(cmd: Cmd) -> Option<(HttpMethod, Seq<char>, Option<Seq<char>>, bool, Seq<char>)> {
    match cmd {
        Cmd::CreateQueue(name) => Some(
            (
                HttpMethod::Put,
                entity_query_spec(name@),
                Some(create_body_spec("QueueDescription"@)),
                false,
                "Created queue "@ + name@,
            ),
        ),
        Cmd::CreateTopic(name) => Some(
            (
                HttpMethod::Put,
                entity_query_spec(name@),
                Some(create_body_spec("TopicDescription"@)),
                false,
                "Created topic "@ + name@,
            ),
        ),
        Cmd::CreateSubscription { topic, name } => Some(
            (
                HttpMethod::Put,
                entity_query_spec(subscription_path_spec(topic@, name@)),
                Some(create_body_spec("SubscriptionDescription"@)),
                false,
                "Created subscription "@ + topic@ + "/"@ + name@,
            ),
        ),
        Cmd::DeleteEntity(path) => Some(
            (HttpMethod::Delete, entity_query_spec(path@), None, false, "Deleted "@ + path@),
        ),
        Cmd::UpdateEntity { path, tag, fields } => Some(
            (
                HttpMethod::Put,
                entity_query_spec(path@),
                Some(update_body_spec(tag@, pairs_view(fields@))),
                true,
                "Updated "@ + path@,
            ),
        ),
        _ => None,
    }
}

/// Of the commands, only a delete deletes, only an update sends `If-Match` (it replaces
/// an existing entity), and only a delete sends no body; the commands that do not manage
/// entities make no management request.
pub proof fn lemma_mgmt_step_kinds(cmd: Cmd)
    ensures
        mgmt_step_spec(cmd) matches Some((m, pq, b, im, st)) ==> (m == HttpMethod::Delete) == (
        cmd is DeleteEntity) && (m == HttpMethod::Put) == !(cmd is DeleteEntity) && im == (
        cmd is UpdateEntity) && (b is None) == (cmd is DeleteEntity),
        mgmt_step_spec(cmd) is None <==> !(cmd is CreateQueue || cmd is CreateTopic
            || cmd is CreateSubscription || cmd is DeleteEntity || cmd is UpdateEntity),
{
}

fn prefixed(prefix: &str, what: &str) -> (r: String)
    ensures
        r@ == prefix@ + what@,
{
    let mut r = String::from_str(prefix);
    r.append(what);
    r
}

/// The management request of a command that creates, updates or deletes an entity, and
/// the status line reported once it succeeded, the request signed at `now`; after it the
/// worker reloads the tree.
pub fn mgmt_step(client: &MgmtClient, cmd: &Cmd, now: u64) -> (r: Option<(Request, String)>)
    ensures
        match mgmt_step_spec(*cmd) {
            Some((method, path_and_query, body, if_match, status)) => r matches Some((req, st))
                && is_request_for(req, *client, method, path_and_query, body, if_match, now) && st@
                == status,
            None => r is None,
        },
        cmd matches Cmd::UpdateEntity { path, tag, fields } ==> (r matches Some((req, st))
            && req.method == HttpMethod::Put && req.if_match && req.url@ == url_spec(
            client.namespace@,
            entity_query_spec(path@),
        ) && opt_view(req.body) == Some(update_body_spec(tag@, pairs_view(fields@))) && st@
            == "Updated "@ + path@),
        cmd matches Cmd::DeleteEntity(path) ==> (r matches Some((req, st)) && req.method
            == HttpMethod::Delete && !req.if_match && req.body is None && req.url@ == url_spec(
            client.namespace@,
            entity_query_spec(path@),
        ) && st@ == "Deleted "@ + path@),
        cmd matches Cmd::CreateQueue(name) ==> (r matches Some((req, st)) && req.method
            == HttpMethod::Put && !req.if_match && opt_view(req.body) == Some(
            create_body_spec("QueueDescription"@),
        ) && req.url@ == url_spec(client.namespace@, entity_query_spec(name@)) && st@
            == "Created queue "@ + name@),
        cmd matches Cmd::CreateTopic(name) ==> (r matches Some((req, st)) && req.method
            == HttpMethod::Put && !req.if_match && opt_view(req.body) == Some(
            create_body_spec("TopicDescription"@),
        ) && req.url@ == url_spec(client.namespace@, entity_query_spec(name@)) && st@
            == "Created topic "@ + name@),
        cmd matches Cmd::CreateSubscription { topic, name } ==> (r matches Some((req, st))
            && req.method == HttpMethod::Put && !req.if_match && opt_view(req.body) == Some(
            create_body_spec("SubscriptionDescription"@),
        ) && req.url@ == url_spec(
            client.namespace@,
            entity_query_spec(subscription_path_spec(topic@, name@)),
        ) && st@ == "Created subscription "@ + topic@ + "/"@ + name@),
        (cmd is Connect || cmd is Refresh || cmd is Peek || cmd is Send || cmd is Receive
            || cmd is Purge || cmd is Resubmit) ==> r is None,
{
    match cmd {
        Cmd::CreateQueue(name) => Some(
            (client.create(name.as_str(), "QueueDescription", now), prefixed("Created queue ", name.as_str())),
        ),
        Cmd::CreateTopic(name) => Some(
            (client.create(name.as_str(), "TopicDescription", now), prefixed("Created topic ", name.as_str())),
        ),
        Cmd::CreateSubscription { topic, name } => {
            let path = subscription_path(topic.as_str(), name.as_str());
            let what = topic_slash_name(topic.as_str(), name.as_str());
            let status = prefixed("Created subscription ", what.as_str());
            assert(status@ =~= "Created subscription "@ + topic@ + "/"@ + name@);
            Some((client.create(path.as_str(), "SubscriptionDescription", now), status))
        },
        Cmd::DeleteEntity(path) => Some(
            (client.delete(path.as_str(), now), prefixed("Deleted ", path.as_str())),
        ),
        Cmd::UpdateEntity { path, tag, fields } => Some(
            (
                client.update_entity(path.as_str(), tag.as_str(), fields.as_slice(), now),
                prefixed("Updated ", path.as_str()),
            ),
        ),
        _ => None,
    }
}

/// The status line when a connection string is scoped to one entity.
pub open spec fn scoped_status_spec(path: Seq<char>) -> Seq<char> {
    "Connection string is scoped to '"@ + path
        + "' \u{2014} showing only that entity. Use a namespace-level Manage key to browse everything."@
}

/// The status line when a connection string is scoped to the entity `path`.
pub fn scoped_status(path: &str) -> (r: String)
    ensures
        r@ == scoped_status_spec(path@),
{
    let mut r = String::from_str("Connection string is scoped to '");
    r.append(path);
    r.append(
        "' \u{2014} showing only that entity. Use a namespace-level Manage key to browse everything.",
    );
    r
}

/// The one entity shown for a scoped connection: what the service described, or, where
/// it could not (e.g. a key without management rights), an entity known by name only.
pub fn scoped_entity(path: &str, fetched: Result<Entity, MgmtError>) -> (r: Entity)
    ensures
        match fetched {
            Ok(e) => r@ == e@,
            Err(_) => r@ == crate::mgmt::named_entity(path@),
        },
        fetched is Err ==> r.name@ == path@ && r.active == 0 && r.dead_letter == 0 && r.scheduled
            == 0 && r.total == 0 && r.size_bytes == 0 && r.props@.len() == 0,
{
    match fetched {
        Ok(e) => e,
        Err(_) => Entity::named(String::from_str(path)),
    }
}

/// The names of a list of entities.
pub open spec fn names_of(v: Seq<Entity>) -> Seq<Seq<char>> {
    v.map_values(|e: Entity| e.name@)
}

/// Each topic name mapped to the subscription list at the same place, the lists entered
/// in order (a later topic of the same name replaces an earlier one).
pub open spec fn subs_map(names: Seq<Seq<char>>, lists: Seq<Vec<Entity>>) -> Map<Seq<char>, Vec<Entity>>
    decreases names.len(),
{
    if names.len() == 0 || lists.len() != names.len() {
        Map::empty()
    } else {
        subs_map(names.drop_last(), lists.drop_last()).insert(names.last(), lists.last())
    }
}

/// The report of a listing of the namespace: the status line, and the tree with each
/// topic mapped to its subscriptions. `subs` holds one list per topic, in the topics' order.
pub fn listing_report(queues: Vec<Entity>, topics: Vec<Entity>, subs: Vec<Vec<Entity>>) -> (r: (
    String,
    Evt,
))
    requires
        subs@.len() == topics@.len(),
    ensures
        r.0@ == loaded_status(queues@.len(), topics@.len()),
        r.1 matches Evt::Entities { queues: q, topics: t, subs: m } && q == queues && t == topics
            && m@ == subs_map(names_of(topics@), subs@),
{
    let status = loaded(queues.len(), topics.len());
    let ghost names = names_of(topics@);
    let ghost lists = subs@;
    let mut map: StrMap<Vec<Entity>> = StrMap::new();
    let mut rest = subs;
    let mut k: usize = 0;
    while k < topics.len()
        invariant
            k <= topics.len(),
            topics@.len() == lists.len(),
            names == names_of(topics@),
            rest@ == lists.skip(k as int),
            map@ == subs_map(names.take(k as int), lists.take(k as int)),
        decreases topics.len() - k,
    {
        let list = rest.remove(0);
        assert(list == lists[k as int]);
        assert(rest@ =~= lists.skip(k + 1));
        assert(names.take(k + 1).drop_last() =~= names.take(k as int));
        assert(lists.take(k + 1).drop_last() =~= lists.take(k as int));
        assert(names.take(k + 1).last() == topics@[k as int].name@);
        map.insert(topics[k].name.clone(), list);
        k = k + 1;
    }
    assert(names.take(topics.len() as int) =~= names);
    assert(lists.take(topics.len() as int) =~= lists);
    (status, Evt::Entities { queues, topics, subs: map })
}

/// After a listing, each topic's name gives the subscription list listed for it (for the
/// last topic of that name, the one whose list was entered last).
pub proof fn lemma_subs_map_lookup(names: Seq<Seq<char>>, lists: Seq<Vec<Entity>>, i: int)
    requires
        names.len() == lists.len(),
        0 <= i < names.len(),
        forall|j: int| i < j < names.len() ==> #[trigger] names[j] != names[i],
    ensures
        subs_map(names, lists).contains_key(names[i]),
        subs_map(names, lists)[names[i]] == lists[i],
    decreases names.len(),
{
    if i < names.len() - 1 {
        assert forall|j: int| i < j < names.drop_last().len() implies #[trigger] names.drop_last()[j]
            != names.drop_last()[i] by {
            assert(names.drop_last()[j] == names[j]);
        }
        lemma_subs_map_lookup(names.drop_last(), lists.drop_last(), i);
        assert(names.last() == names[names.len() - 1]);
    }
}

/// The report for a connection string scoped to the entity `path`: the status line, and
/// a tree of that one entity, as fetched or known by name only.
pub fn scoped_report(path: &str, fetched: Result<Entity, MgmtError>) -> (r: (String, Evt))
    ensures
        r.0@ == scoped_status_spec(path@),
        r.1 matches Evt::Entities { queues: q, topics: t, subs: m } && q@.len() == 1 && t@.len()
            == 0 && m@ == Map::<Seq<char>, Vec<Entity>>::empty() && match fetched {
            Ok(e) => q@[0]@ == e@,
            Err(_) => q@[0]@ == crate::mgmt::named_entity(path@),
        },
{
    let ent = scoped_entity(path, fetched);
    let status = scoped_status(path);
    (status, Evt::Entities { queues: vec![ent], topics: Vec::new(), subs: StrMap::new() })
}

/// One batch of a purge taken in: `None` when the batch was empty and the purge is done,
/// else the new running total (held at `usize::MAX`) and the progress line for it.
pub fn purge_step(total: usize, n: usize) -> (r: Option<(usize, String)>)
    ensures
        n == 0 ==> r is None,
        n > 0 ==> (r matches Some((t, line)) && t == (if total + n > usize::MAX {
            usize::MAX as int
        } else {
            total + n
        }) && line@ == purging_status(t as nat)),
{
    if n == 0 {
        None
    } else {
        let t = if total > usize::MAX - n {
            usize::MAX
        } else {
            total + n
        };
        Some((t, purging(t)))
    }
}

/// A listing of the whole namespace in progress: the queues, the topics, then the
/// subscriptions of each topic in the topics' order.
pub struct Listing {
    pub queues: Option<Vec<Entity>>,
    pub topics: Option<Vec<Entity>>,
    pub subs: Vec<Vec<Entity>>,
}

/// How a reload of the tree goes: the one entity a scoped connection string names, or a
/// listing of the whole namespace.
pub enum Refresh {
    Scoped(String),
    Full(Listing),
}

/// The way a reload starts for the client: scoped to its entity path, or a fresh listing.
pub fn refresh_start(client: &MgmtClient) -> (r: Refresh)
    ensures
        match client.entity_path {
            Some(p) => r matches Refresh::Scoped(q) && q@ == p@,
            None => r matches Refresh::Full(l) && l.queues is None && l.topics is None
                && l.subs@.len() == 0,
        },
{
    match &client.entity_path {
        Some(p) => Refresh::Scoped(p.clone()),
        None => Refresh::Full(Listing { queues: None, topics: None, subs: Vec::new() }),
    }
}

impl Listing {
    /// The resource to list next: the queues, then the topics, then the subscriptions of
    /// the first topic without its list; `None` once every list is in.
    pub open spec fn next_resource(&self) -> Option<Seq<char>> {
        match self.queues {
            None => Some(queues_resource()),
            Some(_) => match self.topics {
                None => Some(topics_resource()),
                Some(t) => if self.subs@.len() < t@.len() {
                    Some(subscriptions_resource_spec(t@[self.subs@.len() as int].name@))
                } else {
                    None
                },
            },
        }
    }

    /// The listing to run next, from its first page.
    pub fn next_pager(&self, client: &MgmtClient) -> (r: Option<ListPager>)
        ensures
            match self.next_resource() {
                Some(res) => r matches Some(p) && p.resource@ == res && p.entities@.len() == 0,
                None => r is None,
            },
    {
        match &self.queues {
            None => Some(client.list_queues()),
            Some(_) => match &self.topics {
                None => Some(client.list_topics()),
                Some(t) => if self.subs.len() < t.len() {
                    Some(client.list_subscriptions(t[self.subs.len()].name.as_str()))
                } else {
                    None
                },
            },
        }
    }

    /// Takes in the entities of the listing `next_pager` asked for.
    pub fn on_listed(&mut self, entities: Vec<Entity>)
        ensures
            match (old(self).queues, old(self).topics) {
                (None, _) => *final(self) == (Listing { queues: Some(entities), ..*old(self) }),
                (Some(_), None) => *final(self) == (Listing { topics: Some(entities), ..*old(self) }),
                (Some(_), Some(t)) => if old(self).subs@.len() < t@.len() {
                    final(self).queues == old(self).queues && final(self).topics == old(self).topics
                        && final(self).subs@ == old(self).subs@.push(entities)
                } else {
                    *final(self) == *old(self)
                },
            },
    {
        if self.queues.is_none() {
            self.queues = Some(entities);
        } else if self.topics.is_none() {
            self.topics = Some(entities);
        } else {
            let n = match &self.topics {
                Some(t) => t.len(),
                None => 0,
            };
            if self.subs.len() < n {
                self.subs.push(entities);
            }
        }
    }

    /// The report once every list is in: the status line and the tree; `None` before.
    pub fn report(self) -> (r: Option<(String, Evt)>)
        ensures
            match (self.queues, self.topics) {
                (Some(q), Some(t)) => if self.subs@.len() == t@.len() {
                    r matches Some((status, evt)) && status@ == loaded_status(q@.len(), t@.len())
                        && (evt matches Evt::Entities { queues: q2, topics: t2, subs: m } && q2
                        == q && t2 == t && m@ == subs_map(names_of(t@), self.subs@))
                } else {
                    r is None
                },
                _ => r is None,
            },
    {
        match (self.queues, self.topics) {
            (Some(q), Some(t)) => if self.subs.len() == t.len() {
                Some(listing_report(q, t, self.subs))
            } else {
                None
            },
            _ => None,
        }
    }
}

/// What the explorer is told instead of an error about a missing claim.
pub open spec fn friendly_error_spec(msg: Seq<char>) -> Seq<char> {
    if contains_seq(msg, "'Listen' claim"@) {
        "This access key only has Send rights \u{2014} peeking/receiving needs the 'Listen' claim. Use a key with Listen or Manage rights (e.g. RootManageSharedAccessKey)."@
    } else if contains_seq(msg, "'Send' claim"@) {
        "This access key cannot send \u{2014} it lacks the 'Send' claim."@
    } else {
        msg
    }
}

/// The error line shown for a failed command: an explanation for a key that lacks the
/// `Listen` or `Send` claim, the message itself otherwise.
pub fn friendly_error(msg: String) -> (r: String)
    ensures
        r@ == friendly_error_spec(msg@),
        !contains_seq(msg@, "'Listen' claim"@) && !contains_seq(msg@, "'Send' claim"@) ==> r@
            == msg@,
        contains_seq(msg@, "'Listen' claim"@) ==> r@
            == "This access key only has Send rights \u{2014} peeking/receiving needs the 'Listen' claim. Use a key with Listen or Manage rights (e.g. RootManageSharedAccessKey)."@,
        !contains_seq(msg@, "'Listen' claim"@) && contains_seq(msg@, "'Send' claim"@) ==> r@
            == "This access key cannot send \u{2014} it lacks the 'Send' claim."@,
{
    let v = chars_of(msg.as_str());
    if contains_chars(&v, &chars_of("'Listen' claim")) {
        String::from_str(
            "This access key only has Send rights \u{2014} peeking/receiving needs the 'Listen' claim. Use a key with Listen or Manage rights (e.g. RootManageSharedAccessKey).",
        )
    } else if contains_chars(&v, &chars_of("'Send' claim")) {
        String::from_str("This access key cannot send \u{2014} it lacks the 'Send' claim.")
    } else {
        msg
    }
}

} // verus!
