//! The explorer's state: the connection, the namespace tree, the selection, the loaded
//! messages and the operation log, and how each report of the worker changes them.

use vstd::prelude::*;
use crate::mgmt::Entity;
use crate::strmap::StrMap;
use crate::text::str_eq;
use crate::worker::{Cmd, Evt, MsgView, OutMessage, Target};

verus! {

/// What the tree has selected.
#[derive(Clone, Debug, PartialEq, Eq)]
pub enum Sel {
    Nothing,
    Queue(String),
    Topic(String),
    Sub { topic: String, name: String },
}

/// The tabs of the central panel.
#[derive(Clone, Copy, Debug, PartialEq, Eq, Structural)]
pub enum Tab {
    Overview,
    Messages,
    DeadLetter,
    Send,
}

/// What is kept between runs: recent connection strings (newest first) and the theme.
#[derive(Clone, Debug, Default)]
pub struct Config {
    pub connections: Vec<String>,
    pub dark: bool,
}

/// How many recent connection strings are kept.
pub open spec fn recent_cap() -> nat {
    10
}

/// The state of the explorer window.
pub struct Explorer {
    pub conn_str: String,
    pub config: Config,
    pub connected_ns: Option<String>,
    /// Commands the worker is busy with.
    pub busy: i32,
    pub status: String,
    pub status_is_error: bool,
    pub queues: Vec<Entity>,
    pub topics: Vec<Entity>,
    pub subs: StrMap<Vec<Entity>>,
    pub filter: String,
    pub sel: Sel,
    pub tab: Tab,
    /// Messages loaded per target key, from the entity itself.
    pub messages: StrMap<Vec<MsgView>>,
    /// Messages loaded per target key, from its dead-letter queue.
    pub dlq_messages: StrMap<Vec<MsgView>>,
    pub selected_row: Option<usize>,
    pub peek_max: u32,
    pub out: OutMessage,
    /// The settings editor: (selection path, editable field values).
    pub edit: Option<(String, Vec<(String, String)>)>,
    /// The operation log: (time, message, is_error).
    pub log: Vec<(String, String, bool)>,
    pub show_log: bool,
    /// The new-entity dialog: (kind, topic, name).
    pub new_entity: Option<(String, String, String)>,
    /// A destructive command waiting for confirmation, with its question.
    pub confirm: Option<(String, Cmd)>,
    pub show_about: bool,
    pub show_connect: bool,
}

/// `s` with every copy of `x` left out, order kept.
pub open spec fn without(s: Seq<Seq<char>>, x: Seq<char>) -> Seq<Seq<char>>
    decreases s.len(),
{
    if s.len() == 0 {
        Seq::empty()
    } else if s.last() == x {
        without(s.drop_last(), x)
    } else {
        without(s.drop_last(), x).push(s.last())
    }
}

/// The recent list after connecting with `cs`: `cs` first, then the others in their
/// order, at most `recent_cap` in all.
pub open spec fn remembered(recent: Seq<Seq<char>>, cs: Seq<char>) -> Seq<Seq<char>> {
    let all = seq![cs] + without(recent, cs);
    if all.len() <= recent_cap() {
        all
    } else {
        all.take(recent_cap() as int)
    }
}

/// The values of a list of strings.
pub open spec fn strings_view(v: Seq<String>) -> Seq<Seq<char>> {
    v.map_values(|s: String| s@)
}

/// No string occurs twice.
pub open spec fn no_duplicates(s: Seq<Seq<char>>) -> bool {
    forall|i: int, j: int| 0 <= i < j < s.len() ==> s[i] != s[j]
}

/// Leaving out `x` leaves no `x`, keeps only strings of `s`, keeps `s` free of
/// duplicates, and never lengthens it.
pub proof fn lemma_without(s: Seq<Seq<char>>, x: Seq<char>)
    ensures
        forall|i: int| 0 <= i < without(s, x).len() ==> #[trigger] without(s, x)[i] != x,
        forall|i: int| 0 <= i < without(s, x).len() ==> s.contains(#[trigger] without(s, x)[i]),
        no_duplicates(s) ==> no_duplicates(without(s, x)),
        without(s, x).len() <= s.len(),
    decreases s.len(),
{
    if s.len() > 0 {
        lemma_without(s.drop_last(), x);
        let w = without(s.drop_last(), x);
        assert forall|i: int| 0 <= i < without(s, x).len() implies s.contains(#[trigger] without(s, x)[i]) by {
            if i < w.len() {
                let k = choose|k: int| 0 <= k < s.drop_last().len() && s.drop_last()[k] == w[i];
                assert(s[k] == w[i]);
            } else {
                assert(s[s.len() - 1] == s.last());
            }
        }
        if no_duplicates(s) {
            assert(no_duplicates(s.drop_last()));
            if s.last() != x {
                assert forall|i: int| 0 <= i < w.len() implies w[i] != s.last() by {
                    let k = choose|k: int| 0 <= k < s.drop_last().len() && s.drop_last()[k] == w[i];
                    assert(s[k] == w[i]);
                }
            }
        }
    }
}

/// The recent list after connecting with `cs`. Keeps the list free of duplicates.
pub fn remember_connection(recent: &Vec<String>, cs: &String) -> (r: Vec<String>)
    ensures
        strings_view(r@) == remembered(strings_view(recent@), cs@),
        r@.len() >= 1 && r@[0]@ == cs@,
        r@.len() <= recent_cap(),
        no_duplicates(strings_view(recent@)) ==> no_duplicates(strings_view(r@)),
{
    let ghost rv = strings_view(recent@);
    let mut kept: Vec<String> = Vec::new();
    let mut i: usize = 0;
    while i < recent.len()
        invariant
            i <= recent.len(),
            rv == strings_view(recent@),
            strings_view(kept@) == without(rv.take(i as int), cs@),
        decreases recent.len() - i,
    {
        assert(rv.take(i + 1).drop_last() =~= rv.take(i as int));
        assert(rv.take(i + 1).last() == recent@[i as int]@);
        if !str_eq(recent[i].as_str(), cs.as_str()) {
            let ghost before = strings_view(kept@);
            kept.push(recent[i].clone());
            assert(strings_view(kept@) =~= before.push(recent@[i as int]@));
        }
        i = i + 1;
    }
    assert(rv.take(recent.len() as int) =~= rv);
    let mut r: Vec<String> = Vec::new();
    r.push(cs.clone());
    let mut j: usize = 0;
    while j < kept.len() && r.len() < 10
        invariant
            j <= kept.len(),
            r@.len() == j + 1,
            r@.len() <= 10,
            strings_view(r@) == seq![cs@] + strings_view(kept@).take(j as int),
        decreases kept.len() - j,
    {
        let ghost before = strings_view(r@);
        r.push(kept[j].clone());
        assert(strings_view(kept@).take(j + 1) =~= strings_view(kept@).take(j as int).push(kept@[j as int]@));
        assert(strings_view(r@) =~= before.push(kept@[j as int]@));
        j = j + 1;
    }
    proof {
        let all = seq![cs@] + without(rv, cs@);
        let w = without(rv, cs@);
        if j == kept.len() {
            assert(strings_view(kept@).take(j as int) =~= w);
            assert(strings_view(r@) =~= all);
        } else {
            assert(strings_view(r@) =~= all.take(10));
        }
        lemma_remembered(rv, cs@);
        assert(strings_view(r@)[0] == r@[0]@);
    }
    r
}


/// Entity `i` is the first one named `name`.
pub open spec fn first_named(v: Seq<Entity>, name: Seq<char>, i: int) -> bool {
    &&& 0 <= i < v.len()
    &&& v[i].name@ == name
    &&& forall|j: int| 0 <= j < i ==> (#[trigger] v[j].name)@ != name
}

/// The first entity named `name`, as `iter().find` picks it.
pub fn find_named<'a>(v: &'a Vec<Entity>, name: &str) -> (r: Option<&'a Entity>)
    ensures
        match r {
            Some(e) => exists|i: int| first_named(v@, name@, i) && v@[i] == *e,
            None => forall|i: int| 0 <= i < v@.len() ==> (#[trigger] v@[i].name)@ != name@,
        },
{
    let mut i: usize = 0;
    while i < v.len()
        invariant
            i <= v.len(),
            forall|j: int| 0 <= j < i ==> (#[trigger] v@[j].name)@ != name@,
        decreases v.len() - i,
    {
        if str_eq(v[i].name.as_str(), name) {
            assert(first_named(v@, name@, i as int));
            return Some(&v[i]);
        }
        i = i + 1;
    }
    None
}

proof fn lemma_first_named_unique(v: Seq<Entity>, name: Seq<char>, i: int, j: int)
    requires
        first_named(v, name, i),
        first_named(v, name, j),
    ensures
        i == j,
{
    if i < j {
        assert(v[i].name@ == name);
    } else if j < i {
        assert(v[j].name@ == name);
    }
}

/// What a recent connection is listed as: its host, from the first `Endpoint=sb://` part,
/// without trailing `/`; `connection` when there is none.
pub open spec fn connection_label_spec(c: Seq<char>) -> Seq<char> {
    crate::text::strip_suffix_char(
        match first_endpoint(crate::text::split(c, ';'), 0) {
            Some(host) => host,
            None => "connection"@,
        },
        '/',
    )
}

/// The rest of the first part, from `k` on, that starts with `Endpoint=sb://`.
pub open spec fn first_endpoint(parts: Seq<Seq<char>>, k: int) -> Option<Seq<char>>
    decreases parts.len() - k,
{
    if k < 0 || k >= parts.len() {
        None
    } else if parts[k].len() >= 14 && parts[k].take(14) == "Endpoint=sb://"@ {
        Some(parts[k].skip(14))
    } else {
        first_endpoint(parts, k + 1)
    }
}

fn first_endpoint_exec(parts: &Vec<Vec<char>>, prefix: &Vec<char>) -> (r: Option<Vec<char>>)
    requires
        prefix@ == "Endpoint=sb://"@,
        prefix@.len() == 14,
    ensures
        match r {
            Some(h) => first_endpoint(crate::text::views(parts@), 0) == Some(h@),
            None => first_endpoint(crate::text::views(parts@), 0) is None,
        },
{
    let ghost ps = crate::text::views(parts@);
    let mut k: usize = 0;
    while k < parts.len()
        invariant
            k <= parts.len(),
            crate::text::views(parts@) == ps,
            prefix@ == "Endpoint=sb://"@,
            prefix@.len() == 14,
            first_endpoint(ps, 0) == first_endpoint(ps, k as int),
        decreases parts.len() - k,
    {
        assert(ps[k as int] == parts@[k as int]@);
        if crate::text::matches_at(&parts[k], 0, &prefix) {
            assert(parts@[k as int]@.subrange(0, 14) =~= parts@[k as int]@.take(14));
            let rest = crate::text::sub_chars(&parts[k], 14, parts[k].len());
            assert(rest@ =~= ps[k as int].skip(14));
            return Some(rest);
        }
        assert(parts@[k as int]@.len() >= 14 ==> parts@[k as int]@.subrange(0, 14) =~= parts@[k as int]@.take(14));
        k = k + 1;
    }
    None
}

/// What a recent connection string is listed as in the connect dialog.
pub fn connection_label(c: &str) -> (r: String)
    ensures
        r@ == connection_label_spec(c@),
{
    let chars = crate::text::chars_of(c);
    let parts = crate::text::split_chars(&chars, ';');
    let prefix = crate::text::chars_of("Endpoint=sb://");
    proof {
        reveal_strlit("Endpoint=sb://");
    }
    let host = match first_endpoint_exec(&parts, &prefix) {
        Some(h) => h,
        None => crate::text::chars_of("connection"),
    };
    let label = crate::text::strip_suffix_char_chars(&host, '/');
    crate::text::string_of(&label)
}


/// The status line before any connection.
pub open spec fn initial_status() -> Seq<char> {
    "Not connected. Paste a connection string and hit Connect."@
}

/// The Busy counter after one report: one more for `true`, one less for `false`
/// (wrapping at the ends of `i32`).
pub open spec fn busy_after(busy: i32, b: bool) -> i32 {
    if b {
        if busy == i32::MAX {
            i32::MIN
        } else {
            (busy + 1) as i32
        }
    } else {
        if busy == i32::MIN {
            i32::MAX
        } else {
            (busy - 1) as i32
        }
    }
}

/// Messages reported for a target are what is read back for it: after the report, the
/// target's key (in the entity or its dead-letter queue, as reported) gives exactly those
/// messages, and every other key gives what it gave before.
pub proof fn lemma_messages_read_back(
    before: Explorer,
    after: Explorer,
    key: String,
    dlq: bool,
    msgs: Vec<MsgView>,
    time: String,
    save: bool,
    other: Seq<char>,
)
    requires
        applies(before, after, Evt::Messages { key, dlq, msgs }, time, save),
        other != key@,
    ensures
        dlq ==> after.dlq_messages@.contains_key(key@) && after.dlq_messages@[key@] == msgs,
        !dlq ==> after.messages@.contains_key(key@) && after.messages@[key@] == msgs,
        after.messages@.contains_key(other) == before.messages@.contains_key(other),
        after.dlq_messages@.contains_key(other) == before.dlq_messages@.contains_key(other),
        before.messages@.contains_key(other) ==> after.messages@[other] == before.messages@[other],
        before.dlq_messages@.contains_key(other) ==> after.dlq_messages@[other] == before.dlq_messages@[other],
{
}

/// The recent list after a connection starts with that connection, holds at most
/// `recent_cap` strings, and holds none twice when the list before held none twice.
pub proof fn lemma_remembered(recent: Seq<Seq<char>>, cs: Seq<char>)
    ensures
        remembered(recent, cs).len() >= 1,
        remembered(recent, cs)[0] == cs,
        remembered(recent, cs).len() <= recent_cap(),
        no_duplicates(recent) ==> no_duplicates(remembered(recent, cs)),
{
    let w = without(recent, cs);
    let all = seq![cs] + w;
    lemma_without(recent, cs);
    let r = remembered(recent, cs);
    assert(r[0] == all[0]);
    if no_duplicates(recent) {
        assert forall|a: int, b: int| 0 <= a < b < r.len() implies r[a] != r[b] by {
            assert(r[a] == all[a]);
            assert(r[b] == all[b]);
            assert(all[b] == w[b - 1]);
            if a > 0 {
                assert(all[a] == w[a - 1]);
            }
        }
    }
}

/// After a connection is reported, the saved history starts with the connection string
/// that was connected, holds at most `recent_cap` strings, and still holds none twice.
pub proof fn lemma_connected_history(
    before: Explorer,
    after: Explorer,
    ns: String,
    time: String,
    save: bool,
)
    requires
        applies(before, after, Evt::Connected(ns), time, save),
    ensures
        save,
        after.config.connections@.len() >= 1,
        after.config.connections@[0]@ == before.conn_str@,
        after.config.connections@.len() <= recent_cap(),
        no_duplicates(strings_view(before.config.connections@)) ==> no_duplicates(
            strings_view(after.config.connections@),
        ),
{
    lemma_remembered(strings_view(before.config.connections@), before.conn_str@);
    assert(strings_view(after.config.connections@)[0] == after.config.connections@[0]@);
}

/// Connecting twice in a row with the same string leaves the recent list as connecting once.
pub proof fn lemma_remember_idempotent(recent: Seq<Seq<char>>, cs: Seq<char>)
    ensures
        remembered(remembered(recent, cs), cs) == remembered(recent, cs),
{
    let w = without(recent, cs);
    let once = remembered(recent, cs);
    lemma_without(recent, cs);
    let w1 = if w.len() + 1 <= recent_cap() { w } else { w.take(recent_cap() - 1) };
    assert(once =~= seq![cs] + w1);
    lemma_without_absent(w1, cs);
    assert forall|i: int| 0 <= i < w1.len() implies #[trigger] w1[i] != cs by {
        assert(w1[i] == w[i]);
    }
    assert(without(once, cs) =~= w1) by {
        lemma_without_absent(w1, cs);
        lemma_without_prepend(w1, cs);
    }
    assert(remembered(once, cs) =~= once);
}

proof fn lemma_without_absent(s: Seq<Seq<char>>, x: Seq<char>)
    requires
        forall|i: int| 0 <= i < s.len() ==> #[trigger] s[i] != x,
    ensures
        without(s, x) == s,
    decreases s.len(),
{
    if s.len() > 0 {
        assert forall|i: int| 0 <= i < s.drop_last().len() implies #[trigger] s.drop_last()[i] != x by {
            assert(s.drop_last()[i] == s[i]);
        }
        lemma_without_absent(s.drop_last(), x);
        assert(s.drop_last().push(s.last()) =~= s);
    }
}

proof fn lemma_without_prepend(s: Seq<Seq<char>>, x: Seq<char>)
    ensures
        without(seq![x] + s, x) == without(s, x),
    decreases s.len(),
{
    let t = seq![x] + s;
    assert(t.len() == s.len() + 1);
    if s.len() == 0 {
        assert(t.last() == x);
        assert(t.drop_last() =~= Seq::<Seq<char>>::empty());
        assert(without(t.drop_last(), x) =~= Seq::<Seq<char>>::empty());
    } else {
        assert(t.last() == s.last());
        assert(t.drop_last() =~= seq![x] + s.drop_last());
        lemma_without_prepend(s.drop_last(), x);
    }
}

/// Every report that starts work is matched by one that ends it: the counter comes back.
pub proof fn lemma_busy_balanced(busy: i32)
    ensures
        busy_after(busy_after(busy, true), false) == busy,
        busy_after(busy_after(busy, false), true) == busy,
{
}

/// How one report of the worker, logged at `time`, changes the explorer from `before` to
/// `after`; `save` tells whether the recent connections changed.
pub open spec fn applies(before: Explorer, after: Explorer, evt: Evt, time: String, save: bool) -> bool {
    match evt {
        Evt::Connected(ns) => {
            &&& after == Explorer {
                connected_ns: Some(ns),
                config: Config { connections: after.config.connections, ..before.config },
                ..before
            }
            &&& strings_view(after.config.connections@) == remembered(
                strings_view(before.config.connections@),
                before.conn_str@,
            )
            &&& save
        },
        Evt::Entities { queues, topics, subs } => {
            &&& after == Explorer { queues, topics, subs, edit: None, ..before }
            &&& !save
        },
        Evt::Messages { key, dlq, msgs } => {
            &&& (if dlq {
                &&& after == Explorer {
                    dlq_messages: after.dlq_messages,
                    selected_row: None,
                    ..before
                }
                &&& after.dlq_messages@ == before.dlq_messages@.insert(key@, msgs)
            } else {
                &&& after == Explorer { messages: after.messages, selected_row: None, ..before }
                &&& after.messages@ == before.messages@.insert(key@, msgs)
            })
            &&& !save
        },
        Evt::Status(st) => {
            &&& after == Explorer { log: after.log, status: st, status_is_error: false, ..before }
            &&& after.log@ == before.log@.push((time, st, false))
            &&& !save
        },
        Evt::Error(e) => {
            &&& after == Explorer { log: after.log, status: e, status_is_error: true, ..before }
            &&& after.log@ == before.log@.push((time, e, true))
            &&& !save
        },
        Evt::Busy(b) => {
            &&& after == Explorer { busy: busy_after(before.busy, b), ..before }
            &&& !save
        },
    }
}

/// Whether a report asks for the configuration to be saved: a new connection does.
pub open spec fn saves(evt: Evt) -> bool {
    evt is Connected
}

/// `states` is a run of the explorer through a batch of reports: `states[i + 1]` is
/// `states[i]` after report `i`, logged at `times[i]`.
pub open spec fn is_run(states: Seq<Explorer>, evts: Seq<Evt>, times: Seq<String>) -> bool {
    &&& states.len() == evts.len() + 1
    &&& times.len() == evts.len()
    &&& forall|i: int|
        0 <= i < evts.len() ==> #[trigger] applies(
            states[i],
            states[i + 1],
            evts[i],
            times[i],
            saves(evts[i]),
        )
}

/// How a batch of reports, the `i`th logged at `times[i]`, changes the explorer from
/// `before` to `after`: one report after the other, in order.
pub open spec fn applies_all(before: Explorer, after: Explorer, evts: Seq<Evt>, times: Seq<String>) -> bool {
    exists|states: Seq<Explorer>|
        #[trigger] is_run(states, evts, times) && states[0] == before && states.last() == after
}

/// Whether a batch holds a report that asks for the configuration to be saved.
pub open spec fn has_connected(evts: Seq<Evt>) -> bool
    decreases evts.len(),
{
    evts.len() > 0 && (saves(evts.last()) || has_connected(evts.drop_last()))
}

/// Taking in one batch and then another is taking in the two as one batch.
pub proof fn lemma_applies_all_concat(
    before: Explorer,
    mid: Explorer,
    after: Explorer,
    e1: Seq<Evt>,
    t1: Seq<String>,
    e2: Seq<Evt>,
    t2: Seq<String>,
)
    requires
        applies_all(before, mid, e1, t1),
        applies_all(mid, after, e2, t2),
    ensures
        applies_all(before, after, e1 + e2, t1 + t2),
{
    let s1 = choose|s: Seq<Explorer>| #[trigger] is_run(s, e1, t1) && s[0] == before && s.last() == mid;
    let s2 = choose|s: Seq<Explorer>| #[trigger] is_run(s, e2, t2) && s[0] == mid && s.last() == after;
    let n1 = e1.len() as int;
    let st = s1 + s2.skip(1);
    let e = e1 + e2;
    let t = t1 + t2;
    assert forall|i: int| 0 <= i < e.len() implies #[trigger] applies(
        st[i],
        st[i + 1],
        e[i],
        t[i],
        saves(e[i]),
    ) by {
        if i < n1 {
            assert(applies(s1[i], s1[i + 1], e1[i], t1[i], saves(e1[i])));
        } else {
            let j = i - n1;
            assert(applies(s2[j], s2[j + 1], e2[j], t2[j], saves(e2[j])));
            assert(st[i] == s2[j]);
            assert(st[i + 1] == s2[j + 1]);
        }
    }
    assert(is_run(st, e, t));
    assert(st.last() == s2.last());
}

/// A batch taken in as one is taken in as its first part and then the rest.
pub proof fn lemma_applies_all_split(
    before: Explorer,
    after: Explorer,
    e1: Seq<Evt>,
    e2: Seq<Evt>,
    times: Seq<String>,
)
    requires
        applies_all(before, after, e1 + e2, times),
    ensures
        exists|mid: Explorer|
            #![trigger applies_all(before, mid, e1, times.take(e1.len() as int))]
            applies_all(before, mid, e1, times.take(e1.len() as int)) && applies_all(
                mid,
                after,
                e2,
                times.skip(e1.len() as int),
            ),
{
    let e = e1 + e2;
    let st = choose|s: Seq<Explorer>| #[trigger] is_run(s, e, times) && s[0] == before && s.last() == after;
    let n1 = e1.len() as int;
    let s1 = st.take(n1 + 1);
    let s2 = st.skip(n1);
    let t1 = times.take(n1);
    let t2 = times.skip(n1);
    assert forall|i: int| 0 <= i < e1.len() implies #[trigger] applies(
        s1[i],
        s1[i + 1],
        e1[i],
        t1[i],
        saves(e1[i]),
    ) by {
        assert(applies(st[i], st[i + 1], e[i], times[i], saves(e[i])));
    }
    assert forall|i: int| 0 <= i < e2.len() implies #[trigger] applies(
        s2[i],
        s2[i + 1],
        e2[i],
        t2[i],
        saves(e2[i]),
    ) by {
        assert(applies(st[i + n1], st[i + n1 + 1], e[i + n1], times[i + n1], saves(e[i + n1])));
    }
    assert(is_run(s1, e1, t1));
    assert(is_run(s2, e2, t2));
    assert(applies_all(before, st[n1], e1, t1));
    assert(applies_all(st[n1], after, e2, t2));
}

/// `x` wrapped into the range of `i32`, as wrapping arithmetic does.
pub open spec fn wrap_i32(x: int) -> int {
    (x - i32::MIN) % 0x1_0000_0000 + i32::MIN
}

/// The number of `Busy(true)` reports of a batch less the number of `Busy(false)` ones.
pub open spec fn busy_delta(evts: Seq<Evt>) -> int
    decreases evts.len(),
{
    if evts.len() == 0 {
        0
    } else {
        busy_delta(evts.drop_last()) + match evts.last() {
            Evt::Busy(b) => if b {
                1int
            } else {
                -1int
            },
            _ => 0int,
        }
    }
}

proof fn lemma_wrap_step(x: int, d: int)
    ensures
        wrap_i32(wrap_i32(x) + d) == wrap_i32(x + d),
{
    let m = 0x1_0000_0000int;
    vstd::arithmetic::div_mod::lemma_add_mod_noop_right(d, x - i32::MIN, m);
    assert(wrap_i32(x) + d - i32::MIN == d + (x - i32::MIN) % m);
    assert(x + d - i32::MIN == d + (x - i32::MIN));
}

proof fn lemma_wrap_in_range(b: i32)
    ensures
        wrap_i32(b as int) == b,
{
    vstd::arithmetic::div_mod::lemma_small_mod((b - i32::MIN) as nat, 0x1_0000_0000nat);
}

proof fn lemma_busy_after_wraps(b: i32, up: bool)
    ensures
        busy_after(b, up) == wrap_i32(b + if up {
            1int
        } else {
            -1int
        }),
{
    if up && b == i32::MAX {
        vstd::arithmetic::div_mod::lemma_mod_self_0(0x1_0000_0000int);
    } else if !up && b == i32::MIN {
        vstd::arithmetic::div_mod::lemma_small_mod(0xffff_ffffnat, 0x1_0000_0000nat);
    } else {
        lemma_wrap_in_range(busy_after(b, up));
    }
}

proof fn lemma_busy_run(states: Seq<Explorer>, evts: Seq<Evt>, times: Seq<String>, k: int)
    requires
        is_run(states, evts, times),
        0 <= k <= evts.len(),
    ensures
        states[k].busy == wrap_i32(states[0].busy + busy_delta(evts.take(k))),
    decreases k,
{
    if k == 0 {
        assert(evts.take(0) =~= Seq::<Evt>::empty());
        lemma_wrap_in_range(states[0].busy);
    } else {
        lemma_busy_run(states, evts, times, k - 1);
        let i = k - 1;
        assert(applies(states[i], states[i + 1], evts[i], times[i], saves(evts[i])));
        assert(evts.take(k).drop_last() =~= evts.take(i));
        assert(evts.take(k).last() == evts[i]);
        let d0 = busy_delta(evts.take(i));
        match evts[i] {
            Evt::Busy(b) => {
                lemma_busy_after_wraps(states[i].busy, b);
                lemma_wrap_step(states[0].busy + d0, if b { 1int } else { -1int });
            },
            _ => {
                lemma_wrap_step(states[0].busy + d0, 0);
                lemma_wrap_in_range(states[i].busy);
            },
        }
    }
}

/// After a batch the busy counter has moved by the `Busy(true)` reports less the
/// `Busy(false)` ones (wrapping at the ends of `i32`).
pub proof fn lemma_busy_after_all(before: Explorer, after: Explorer, evts: Seq<Evt>, times: Seq<String>)
    requires
        applies_all(before, after, evts, times),
    ensures
        after.busy == wrap_i32(before.busy + busy_delta(evts)),
{
    let st = choose|s: Seq<Explorer>| #[trigger] is_run(s, evts, times) && s[0] == before && s.last() == after;
    lemma_busy_run(st, evts, times, evts.len() as int);
    assert(evts.take(evts.len() as int) =~= evts);
}

/// The status line and error flag of the last `Status` or `Error` report of a batch.
pub open spec fn last_status(evts: Seq<Evt>) -> Option<(String, bool)>
    decreases evts.len(),
{
    if evts.len() == 0 {
        None
    } else {
        match evts.last() {
            Evt::Status(st) => Some((st, false)),
            Evt::Error(e) => Some((e, true)),
            _ => last_status(evts.drop_last()),
        }
    }
}

proof fn lemma_status_run(states: Seq<Explorer>, evts: Seq<Evt>, times: Seq<String>, k: int)
    requires
        is_run(states, evts, times),
        0 <= k <= evts.len(),
    ensures
        match last_status(evts.take(k)) {
            Some((st, err)) => states[k].status == st && states[k].status_is_error == err,
            None => states[k].status == states[0].status && states[k].status_is_error
                == states[0].status_is_error,
        },
    decreases k,
{
    if k == 0 {
        assert(evts.take(0) =~= Seq::<Evt>::empty());
    } else {
        lemma_status_run(states, evts, times, k - 1);
        let i = k - 1;
        assert(applies(states[i], states[i + 1], evts[i], times[i], saves(evts[i])));
        assert(evts.take(k).drop_last() =~= evts.take(i));
        assert(evts.take(k).last() == evts[i]);
    }
}

/// After a batch the status line is that of its last `Status` or `Error` report, or the
/// one before where it has none.
pub proof fn lemma_status_after_all(before: Explorer, after: Explorer, evts: Seq<Evt>, times: Seq<String>)
    requires
        applies_all(before, after, evts, times),
    ensures
        match last_status(evts) {
            Some((st, err)) => after.status == st && after.status_is_error == err,
            None => after.status == before.status && after.status_is_error == before.status_is_error,
        },
{
    let st = choose|s: Seq<Explorer>| #[trigger] is_run(s, evts, times) && s[0] == before && s.last() == after;
    lemma_status_run(st, evts, times, evts.len() as int);
    assert(evts.take(evts.len() as int) =~= evts);
}

impl Explorer {
    /// The explorer as it opens: the newest recent connection in the form, the connect
    /// dialog shown, nothing loaded.
    pub fn new(config: Config) -> (e: Explorer)
        ensures
            e.conn_str@ == (if config.connections@.len() > 0 {
                config.connections@[0]@
            } else {
                Seq::<char>::empty()
            }),
            e.config == config,
            e.connected_ns is None,
            e.busy == 0,
            e.status@ == initial_status(),
            !e.status_is_error,
            e.queues@.len() == 0 && e.topics@.len() == 0,
            e.subs@ == Map::<Seq<char>, Vec<Entity>>::empty(),
            e.messages@ == Map::<Seq<char>, Vec<MsgView>>::empty(),
            e.dlq_messages@ == Map::<Seq<char>, Vec<MsgView>>::empty(),
            e.filter@.len() == 0,
            e.sel == Sel::Nothing,
            e.tab == Tab::Overview,
            e.selected_row is None,
            e.peek_max == 32,
            e.out.count == 1,
            e.out.content_type@ == "application/json"@,
            e.out.body@.len() == 0 && e.out.subject@.len() == 0 && e.out.message_id@.len() == 0
                && e.out.correlation_id@.len() == 0 && e.out.session_id@.len() == 0
                && e.out.ttl_secs@.len() == 0 && e.out.props@.len() == 0,
            e.edit is None,
            e.log@.len() == 0,
            !e.show_log,
            e.new_entity is None,
            e.confirm is None,
            !e.show_about,
            e.show_connect,
    {
        let conn_str = if config.connections.len() > 0 {
            config.connections[0].clone()
        } else {
            String::new()
        };
        let mut out = OutMessage::default();
        out.count = 1;
        out.content_type = String::from_str("application/json");
        Explorer {
            conn_str,
            config,
            connected_ns: None,
            busy: 0,
            status: String::from_str("Not connected. Paste a connection string and hit Connect."),
            status_is_error: false,
            queues: Vec::new(),
            topics: Vec::new(),
            subs: StrMap::new(),
            filter: String::new(),
            sel: Sel::Nothing,
            tab: Tab::Overview,
            messages: StrMap::new(),
            dlq_messages: StrMap::new(),
            selected_row: None,
            peek_max: 32,
            out,
            edit: None,
            log: Vec::new(),
            show_log: false,
            new_entity: None,
            confirm: None,
            show_about: false,
            show_connect: true,
        }
    }

    /// Forgets the namespace: no tree, no messages, no selection.
    pub fn disconnect(&mut self)
        ensures
            *final(self) == (Explorer {
                connected_ns: None,
                queues: final(self).queues,
                topics: final(self).topics,
                subs: final(self).subs,
                messages: final(self).messages,
                dlq_messages: final(self).dlq_messages,
                sel: Sel::Nothing,
                edit: None,
                status: final(self).status,
                status_is_error: false,
                ..*old(self)
            }),
            final(self).queues@.len() == 0 && final(self).topics@.len() == 0,
            final(self).subs@ == Map::<Seq<char>, Vec<Entity>>::empty(),
            final(self).messages@ == Map::<Seq<char>, Vec<MsgView>>::empty(),
            final(self).dlq_messages@ == Map::<Seq<char>, Vec<MsgView>>::empty(),
            final(self).status@ == "Disconnected."@,
    {
        self.connected_ns = None;
        self.queues.clear();
        self.topics.clear();
        self.subs.clear();
        self.messages.clear();
        self.dlq_messages.clear();
        self.sel = Sel::Nothing;
        self.edit = None;
        self.status = String::from_str("Disconnected.");
        self.status_is_error = false;
    }

    /// The target of the selection, for a queue or a subscription.
    pub open spec fn target_spec(&self) -> Option<Target> {
        match self.sel {
            Sel::Queue(q) => Some(Target::Queue(q)),
            Sel::Sub { topic, name } => Some(Target::Subscription { topic, name }),
            _ => None,
        }
    }

    /// The target of a selected subscription is that subscription: its messages are found
    /// under the key `topic/name`, and resubmitted copies go to its topic; the target of a
    /// selected queue is the queue, under its own name.
    pub proof fn lemma_target_of_selection(&self)
        ensures
            self.sel matches Sel::Sub { topic, name } ==> (self.target_spec() matches Some(t)
                && t.key_spec() == topic@ + "/"@ + name@ && t.destination_spec() == topic@),
            self.sel matches Sel::Queue(q) ==> (self.target_spec() matches Some(t) && t.key_spec()
                == q@ && t.destination_spec() == q@),
            (self.sel is Nothing || self.sel is Topic) ==> self.target_spec() is None,
    {
    }

    /// The target of the selection, for a queue or a subscription.
    pub fn target(&self) -> (r: Option<Target>)
        ensures
            match (r, self.target_spec()) {
                (Some(Target::Queue(a)), Some(Target::Queue(b))) => a@ == b@,
                (
                    Some(Target::Subscription { topic: a, name: n }),
                    Some(Target::Subscription { topic: b, name: m }),
                ) => a@ == b@ && n@ == m@,
                (None, None) => true,
                _ => false,
            },
            match self.sel {
                Sel::Queue(q) => r matches Some(Target::Queue(a)) && a@ == q@,
                Sel::Sub { topic, name } => r matches Some(Target::Subscription { topic: a, name: n })
                    && a@ == topic@ && n@ == name@,
                _ => r is None,
            },
    {
        match &self.sel {
            Sel::Queue(q) => Some(Target::Queue(q.clone())),
            Sel::Sub { topic, name } => Some(
                Target::Subscription { topic: topic.clone(), name: name.clone() },
            ),
            _ => None,
        }
    }

    /// The entity the selection names: the first queue, topic, or subscription of the
    /// selected topic with that name.
    pub fn selected_entity(&self) -> (r: Option<&Entity>)
        ensures
            match self.sel {
                Sel::Queue(q) => match r {
                    Some(e) => exists|i: int| first_named(self.queues@, q@, i) && self.queues@[i] == *e,
                    None => forall|i: int| 0 <= i < self.queues@.len() ==> (#[trigger] self.queues@[i].name)@ != q@,
                },
                Sel::Topic(t) => match r {
                    Some(e) => exists|i: int| first_named(self.topics@, t@, i) && self.topics@[i] == *e,
                    None => forall|i: int| 0 <= i < self.topics@.len() ==> (#[trigger] self.topics@[i].name)@ != t@,
                },
                Sel::Sub { topic, name } => match r {
                    Some(e) => self.subs@.contains_key(topic@) && exists|i: int|
                        first_named(self.subs@[topic@]@, name@, i) && self.subs@[topic@]@[i] == *e,
                    None => !self.subs@.contains_key(topic@) || forall|i: int|
                        0 <= i < self.subs@[topic@]@.len() ==> (#[trigger] self.subs@[topic@]@[i].name)@ != name@,
                },
                Sel::Nothing => r is None,
            },
    {
        match &self.sel {
            Sel::Queue(q) => find_named(&self.queues, q.as_str()),
            Sel::Topic(t) => find_named(&self.topics, t.as_str()),
            Sel::Sub { topic, name } => match self.subs.get(topic.as_str()) {
                Some(list) => find_named(list, name.as_str()),
                None => None,
            },
            Sel::Nothing => None,
        }
    }

    /// The entity the selection names, if it is loaded.
    pub open spec fn selected_entity_spec(&self) -> Option<Entity> {
        match self.sel {
            Sel::Queue(q) => if exists|i: int| first_named(self.queues@, q@, i) {
                Some(self.queues@[choose|i: int| first_named(self.queues@, q@, i)])
            } else {
                None
            },
            Sel::Topic(t) => if exists|i: int| first_named(self.topics@, t@, i) {
                Some(self.topics@[choose|i: int| first_named(self.topics@, t@, i)])
            } else {
                None
            },
            Sel::Sub { topic, name } => if self.subs@.contains_key(topic@) && exists|i: int|
                first_named(self.subs@[topic@]@, name@, i) {
                Some(self.subs@[topic@]@[choose|i: int| first_named(self.subs@[topic@]@, name@, i)])
            } else {
                None
            },
            Sel::Nothing => None,
        }
    }

    /// The entity `selected_entity` finds is the one the selection names.
    pub proof fn lemma_selected_entity_unique(&self, e: Entity)
        requires
            match self.sel {
                Sel::Queue(q) => exists|i: int| first_named(self.queues@, q@, i) && self.queues@[i] == e,
                Sel::Topic(t) => exists|i: int| first_named(self.topics@, t@, i) && self.topics@[i] == e,
                Sel::Sub { topic, name } => self.subs@.contains_key(topic@) && exists|i: int|
                    first_named(self.subs@[topic@]@, name@, i) && self.subs@[topic@]@[i] == e,
                Sel::Nothing => false,
            },
        ensures
            self.selected_entity_spec() == Some(e),
    {
        match self.sel {
            Sel::Queue(q) => {
                let i = choose|i: int| first_named(self.queues@, q@, i) && self.queues@[i] == e;
                let c = choose|i: int| first_named(self.queues@, q@, i);
                lemma_first_named_unique(self.queues@, q@, i, c);
            },
            Sel::Topic(t) => {
                let i = choose|i: int| first_named(self.topics@, t@, i) && self.topics@[i] == e;
                let c = choose|i: int| first_named(self.topics@, t@, i);
                lemma_first_named_unique(self.topics@, t@, i, c);
            },
            Sel::Sub { topic, name } => {
                let v = self.subs@[topic@]@;
                let i = choose|i: int| first_named(v, name@, i) && v[i] == e;
                let c = choose|i: int| first_named(v, name@, i);
                lemma_first_named_unique(v, name@, i, c);
            },
            Sel::Nothing => {},
        }
    }

    /// When no entity carries the selected name, the selection names none.
    pub proof fn lemma_selected_entity_none(&self)
        requires
            match self.sel {
                Sel::Queue(q) => forall|i: int| 0 <= i < self.queues@.len() ==> (#[trigger] self.queues@[i].name)@ != q@,
                Sel::Topic(t) => forall|i: int| 0 <= i < self.topics@.len() ==> (#[trigger] self.topics@[i].name)@ != t@,
                Sel::Sub { topic, name } => !self.subs@.contains_key(topic@) || forall|i: int|
                    0 <= i < self.subs@[topic@]@.len() ==> (#[trigger] self.subs@[topic@]@[i].name)@ != name@,
                Sel::Nothing => true,
            },
        ensures
            self.selected_entity_spec() is None,
    {
    }

    /// The messages loaded for a target key, from the entity or from its dead-letter queue.
    pub fn messages_for(&self, key: &str, dlq: bool) -> (r: Option<&Vec<MsgView>>)
        ensures
            ({
                let m = if dlq {
                    self.dlq_messages@
                } else {
                    self.messages@
                };
                match r {
                    Some(v) => m.contains_key(key@) && m[key@] == *v,
                    None => !m.contains_key(key@),
                }
            }),
    {
        if dlq {
            self.dlq_messages.get(key)
        } else {
            self.messages.get(key)
        }
    }

    /// Takes in one report of the worker, logged at `time`; returns whether the recent
    /// connections changed (and so the configuration should be saved).
    pub fn apply_event_at(&mut self, evt: Evt, time: String) -> (save: bool)
        ensures
            applies(*old(self), *final(self), evt, time, save),
            save == (evt is Connected),
            evt matches Evt::Connected(ns) ==> final(self).connected_ns == Some(ns)
                && final(self).config.connections@.len() >= 1
                && final(self).config.connections@[0]@ == old(self).conn_str@,
            evt matches Evt::Entities { queues, topics, subs } ==> final(self).queues == queues
                && final(self).topics == topics && final(self).subs == subs && final(self).edit is None,
            evt matches Evt::Messages { key, dlq, msgs } ==> final(self).selected_row is None && (dlq
                ==> final(self).dlq_messages@ == old(self).dlq_messages@.insert(key@, msgs)
                && final(self).messages == old(self).messages) && (!dlq ==> final(self).messages@
                == old(self).messages@.insert(key@, msgs) && final(self).dlq_messages
                == old(self).dlq_messages),
            evt matches Evt::Status(st) ==> final(self).status == st && !final(self).status_is_error
                && final(self).log@ == old(self).log@.push((time, st, false)),
            evt matches Evt::Error(e) ==> final(self).status == e && final(self).status_is_error
                && final(self).log@ == old(self).log@.push((time, e, true)),
            evt matches Evt::Busy(b) ==> (b && old(self).busy < i32::MAX ==> final(self).busy
                == old(self).busy + 1) && (!b && old(self).busy > i32::MIN ==> final(self).busy
                == old(self).busy - 1) && final(self).status == old(self).status,
    {
        match evt {
            Evt::Connected(ns) => {
                self.connected_ns = Some(ns);
                self.config.connections = remember_connection(&self.config.connections, &self.conn_str);
                true
            },
            Evt::Entities { queues, topics, subs } => {
                self.queues = queues;
                self.topics = topics;
                self.subs = subs;
                self.edit = None;
                false
            },
            Evt::Messages { key, dlq, msgs } => {
                if dlq {
                    self.dlq_messages.insert(key, msgs);
                } else {
                    self.messages.insert(key, msgs);
                }
                self.selected_row = None;
                false
            },
            Evt::Status(st) => {
                self.log.push((time, st.clone(), false));
                self.status = st;
                self.status_is_error = false;
                false
            },
            Evt::Error(e) => {
                self.log.push((time, e.clone(), true));
                self.status = e;
                self.status_is_error = true;
                false
            },
            Evt::Busy(b) => {
                self.busy = if b {
                    self.busy.wrapping_add(1)
                } else {
                    self.busy.wrapping_sub(1)
                };
                false
            },
        }
    }

    /// Takes in a batch of reports in order, each with the time it is logged at; returns
    /// whether one of them asks for the configuration to be saved.
    pub fn apply_events(&mut self, batch: Vec<(Evt, String)>) -> (save: bool)
        ensures
            applies_all(*old(self), *final(self), batch_events(batch@), batch_times(batch@)),
            save == has_connected(batch_events(batch@)),
    {
        let ghost all = batch_events(batch@);
        let ghost alltimes = batch_times(batch@);
        let n = batch.len();
        let ghost mut states: Seq<Explorer> = seq![*self];
        let mut rest = batch;
        let mut save = false;
        let mut k: usize = 0;
        while rest.len() > 0
            invariant
                k <= all.len(),
                all.len() == n,
                alltimes.len() == n,
                batch_events(rest@) == all.skip(k as int),
                batch_times(rest@) == alltimes.skip(k as int),
                is_run(states, all.take(k as int), alltimes.take(k as int)),
                states[0] == *old(self),
                states.last() == *self,
                save == has_connected(all.take(k as int)),
            decreases rest@.len(),
        {
            let ghost r0 = rest@;
            let (e, time) = rest.remove(0);
            assert(batch_events(r0)[0] == e);
            assert(batch_times(r0)[0] == time);
            assert(batch_events(rest@) =~= batch_events(r0).skip(1));
            assert(batch_times(rest@) =~= batch_times(r0).skip(1));
            assert(all.skip(k as int).skip(1) =~= all.skip(k + 1));
            assert(alltimes.skip(k as int).skip(1) =~= alltimes.skip(k + 1));
            let ghost t = time;
            let s = self.apply_event_at(e, time);
            save = save || s;
            proof {
                let e1 = all.take(k + 1);
                let t1 = alltimes.take(k + 1);
                assert(e1.drop_last() =~= all.take(k as int));
                assert(e1.last() == all[k as int]);
                assert(t1[k as int] == t);
                let old_states = states;
                states = states.push(*self);
                assert forall|i: int| 0 <= i < e1.len() implies #[trigger] applies(
                    states[i],
                    states[i + 1],
                    e1[i],
                    t1[i],
                    saves(e1[i]),
                ) by {
                    if i < k {
                        assert(applies(
                            old_states[i],
                            old_states[i + 1],
                            all.take(k as int)[i],
                            alltimes.take(k as int)[i],
                            saves(all.take(k as int)[i]),
                        ));
                    }
                }
            }
            k = k + 1;
        }
        proof {
            assert(all.take(k as int) =~= all);
            assert(alltimes.take(k as int) =~= alltimes);
            assert(is_run(states, all, alltimes));
        }
        save
    }
}

/// The reports of a batch, in order.
pub open spec fn batch_events(b: Seq<(Evt, String)>) -> Seq<Evt> {
    b.map_values(|p: (Evt, String)| p.0)
}

/// The log times of a batch, in order.
pub open spec fn batch_times(b: Seq<(Evt, String)>) -> Seq<String> {
    b.map_values(|p: (Evt, String)| p.1)
}

/// Whether a report is written to the log, and so needs the time of day.
pub fn is_logged(evt: &Evt) -> (r: bool)
    ensures
        r == (*evt is Status || *evt is Error),
{
    match evt {
        Evt::Status(_) | Evt::Error(_) => true,
        _ => false,
    }
}

} // verus!
