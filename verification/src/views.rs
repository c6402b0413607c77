//! What the explorer's panels show, computed from its state: the filtered tree, the
//! selection's titles and paths, the settings editor, the dialogs' texts and commands.

use vstd::prelude::*;
use crate::explorer::{Explorer, Sel, Tab};
use crate::mgmt::{Entity, pairs_view, strs_view};
use crate::num::{
    as_f64, as_f64_exec, decimal, decimal_int, push_decimal, push_decimal_i64, push_decimal_u128,
    round_half_even,
};
use crate::text::{
    chars_of, contains_chars, contains_seq, lowercase, str_eq, string_of, to_lowercase, trim,
    trim_chars,
};
use crate::worker::{
    Cmd, MsgView, OutMessage, copy_pairs, dlq_suffix, subscription_path, subscription_path_spec,
};
use crate::connection::opt_view;

verus! {

/// Whether a name passes the tree filter `f` (already lower-cased): `f` is empty or
/// occurs in the lower-cased name.
pub open spec fn passes(name: Seq<char>, f: Seq<char>) -> bool {
    f.len() == 0 || contains_seq(lowercase(name), f)
}

fn passes_exec(name: &str, f: &Vec<char>) -> (r: bool)
    ensures
        r == passes(name@, f@),
{
    if f.len() == 0 {
        return true;
    }
    let lower = to_lowercase(name);
    contains_chars(&chars_of(lower.as_str()), f)
}

/// A row of the tree: name, active count, dead-letter count.
pub open spec fn row_of(e: Entity) -> (Seq<char>, i64, i64) {
    (e.name@, e.active, e.dead_letter)
}

/// The values of a list of tree rows.
pub open spec fn rows_view(v: Seq<(String, i64, i64)>) -> Seq<(Seq<char>, i64, i64)> {
    v.map_values(|r: (String, i64, i64)| (r.0@, r.1, r.2))
}

/// The rows of the entities that pass the filter, in order.
pub open spec fn filtered_rows(v: Seq<Entity>, f: Seq<char>) -> Seq<(Seq<char>, i64, i64)>
    decreases v.len(),
{
    if v.len() == 0 {
        Seq::empty()
    } else if passes(v.last().name@, f) {
        filtered_rows(v.drop_last(), f).push(row_of(v.last()))
    } else {
        filtered_rows(v.drop_last(), f)
    }
}

/// The rows of all the entities, in order.
pub open spec fn all_rows(v: Seq<Entity>) -> Seq<(Seq<char>, i64, i64)> {
    v.map_values(|e: Entity| row_of(e))
}

fn rows_passing(v: &Vec<Entity>, f: &Vec<char>) -> (r: Vec<(String, i64, i64)>)
    ensures
        rows_view(r@) == filtered_rows(v@, f@),
{
    let mut r: Vec<(String, i64, i64)> = Vec::new();
    let mut i: usize = 0;
    while i < v.len()
        invariant
            i <= v.len(),
            rows_view(r@) == filtered_rows(v@.take(i as int), f@),
        decreases v.len() - i,
    {
        assert(v@.take(i + 1).drop_last() =~= v@.take(i as int));
        assert(v@.take(i + 1).last() == v@[i as int]);
        if passes_exec(v[i].name.as_str(), f) {
            let ghost before = rows_view(r@);
            r.push((v[i].name.clone(), v[i].active, v[i].dead_letter));
            assert(rows_view(r@) =~= before.push(row_of(v@[i as int])));
        }
        i = i + 1;
    }
    assert(v@.take(v.len() as int) =~= v@);
    r
}

/// Whether some subscription of the list passes the filter.
pub open spec fn any_passes(v: Seq<Entity>, f: Seq<char>) -> bool {
    exists|i: int| 0 <= i < v.len() && passes(#[trigger] v[i].name@, f)
}

fn any_passes_exec(v: &Vec<Entity>, f: &Vec<char>) -> (r: bool)
    ensures
        r == any_passes(v@, f@),
{
    let mut i: usize = 0;
    while i < v.len()
        invariant
            i <= v.len(),
            forall|j: int| 0 <= j < i ==> !passes(#[trigger] v@[j].name@, f@),
        decreases v.len() - i,
    {
        if passes_exec(v[i].name.as_str(), f) {
            return true;
        }
        i = i + 1;
    }
    false
}

/// A topic is shown when it, or one of its subscriptions, passes the filter.
pub open spec fn topic_shown(t: Entity, subs: Map<Seq<char>, Vec<Entity>>, f: Seq<char>) -> bool {
    passes(t.name@, f) || (subs.contains_key(t.name@) && any_passes(subs[t.name@]@, f))
}

/// The names of the topics shown, in order.
pub open spec fn shown_topics(v: Seq<Entity>, subs: Map<Seq<char>, Vec<Entity>>, f: Seq<char>) -> Seq<Seq<char>>
    decreases v.len(),
{
    if v.len() == 0 {
        Seq::empty()
    } else if topic_shown(v.last(), subs, f) {
        shown_topics(v.drop_last(), subs, f).push(v.last().name@)
    } else {
        shown_topics(v.drop_last(), subs, f)
    }
}

/// A tree row shows an entity's name, its active count and its dead-letter count, in
/// that order: the rows of a list of entities are those of each entity, in order.
pub proof fn lemma_rows_show_counts(v: Seq<Entity>)
    ensures
        all_rows(v).len() == v.len(),
        forall|i: int|
            0 <= i < v.len() ==> #[trigger] all_rows(v)[i] == (v[i].name@, v[i].active, v[i].dead_letter),
{
}

/// Every row the filter shows is the name, active count and dead-letter count of an
/// entity whose name passes the filter.
pub proof fn lemma_filtered_rows_are_entities(v: Seq<Entity>, f: Seq<char>)
    ensures
        filtered_rows(v, f).len() <= v.len(),
        forall|j: int|
            0 <= j < filtered_rows(v, f).len() ==> exists|i: int|
                0 <= i < v.len() && #[trigger] filtered_rows(v, f)[j] == (
                    v[i].name@,
                    v[i].active,
                    v[i].dead_letter,
                ) && passes(v[i].name@, f),
    decreases v.len(),
{
    if v.len() > 0 {
        let w = v.drop_last();
        lemma_filtered_rows_are_entities(w, f);
        let n = v.len() - 1;
        assert(v.last() == v[n]);
        assert forall|j: int| 0 <= j < filtered_rows(v, f).len() implies exists|i: int|
            0 <= i < v.len() && #[trigger] filtered_rows(v, f)[j] == (
                v[i].name@,
                v[i].active,
                v[i].dead_letter,
            ) && passes(v[i].name@, f) by {
            if j < filtered_rows(w, f).len() {
                let i = choose|i: int|
                    0 <= i < w.len() && #[trigger] filtered_rows(w, f)[j] == (
                        w[i].name@,
                        w[i].active,
                        w[i].dead_letter,
                    ) && passes(w[i].name@, f);
                assert(w[i] == v[i]);
                assert(filtered_rows(v, f)[j] == filtered_rows(w, f)[j]);
            } else {
                assert(filtered_rows(v, f)[j] == (v[n].name@, v[n].active, v[n].dead_letter));
            }
        }
    }
}

/// With no filter every entity is shown, each with its own counts.
pub proof fn lemma_empty_filter_keeps_all(v: Seq<Entity>, f: Seq<char>)
    requires
        f.len() == 0,
    ensures
        filtered_rows(v, f) == all_rows(v),
    decreases v.len(),
{
    if v.len() > 0 {
        lemma_empty_filter_keeps_all(v.drop_last(), f);
        assert(all_rows(v) =~= all_rows(v.drop_last()).push(row_of(v.last())));
    } else {
        assert(all_rows(v) =~= Seq::<(Seq<char>, i64, i64)>::empty());
    }
}

/// With no filter every topic is shown, in order.
pub proof fn lemma_empty_filter_shows_all_topics(
    v: Seq<Entity>,
    subs: Map<Seq<char>, Vec<Entity>>,
    f: Seq<char>,
)
    requires
        f.len() == 0,
    ensures
        shown_topics(v, subs, f).len() == v.len(),
        forall|i: int| 0 <= i < v.len() ==> #[trigger] shown_topics(v, subs, f)[i] == v[i].name@,
    decreases v.len(),
{
    if v.len() > 0 {
        let w = v.drop_last();
        lemma_empty_filter_shows_all_topics(w, subs, f);
        assert forall|i: int| 0 <= i < v.len() implies #[trigger] shown_topics(v, subs, f)[i]
            == v[i].name@ by {
            if i < w.len() {
                assert(w[i] == v[i]);
            }
        }
    }
}

/// A topic is shown exactly when its own name, or the name of one of its
/// subscriptions, passes the filter: each shown name is such a topic's, and each
/// such topic's name is shown.
pub proof fn lemma_shown_topics_members(
    v: Seq<Entity>,
    subs: Map<Seq<char>, Vec<Entity>>,
    f: Seq<char>,
)
    ensures
        shown_topics(v, subs, f).len() <= v.len(),
        forall|j: int|
            0 <= j < shown_topics(v, subs, f).len() ==> exists|i: int|
                0 <= i < v.len() && #[trigger] shown_topics(v, subs, f)[j] == v[i].name@ && (passes(
                    v[i].name@,
                    f,
                ) || (subs.contains_key(v[i].name@) && exists|k: int|
                    0 <= k < subs[v[i].name@]@.len() && passes(
                        #[trigger] subs[v[i].name@]@[k].name@,
                        f,
                    ))),
        forall|i: int|
            0 <= i < v.len() && topic_shown(#[trigger] v[i], subs, f) ==> shown_topics(
                v,
                subs,
                f,
            ).contains(v[i].name@),
    decreases v.len(),
{
    if v.len() > 0 {
        let w = v.drop_last();
        let n = v.len() - 1;
        lemma_shown_topics_members(w, subs, f);
        assert(v.last() == v[n]);
        assert forall|j: int| 0 <= j < shown_topics(v, subs, f).len() implies exists|i: int|
            0 <= i < v.len() && #[trigger] shown_topics(v, subs, f)[j] == v[i].name@ && (passes(
                v[i].name@,
                f,
            ) || (subs.contains_key(v[i].name@) && exists|k: int|
                0 <= k < subs[v[i].name@]@.len() && passes(
                    #[trigger] subs[v[i].name@]@[k].name@,
                    f,
                ))) by {
            if j < shown_topics(w, subs, f).len() {
                let i = choose|i: int|
                    0 <= i < w.len() && #[trigger] shown_topics(w, subs, f)[j] == w[i].name@ && (passes(
                        w[i].name@,
                        f,
                    ) || (subs.contains_key(w[i].name@) && exists|k: int|
                        0 <= k < subs[w[i].name@]@.len() && passes(
                            #[trigger] subs[w[i].name@]@[k].name@,
                            f,
                        )));
                assert(w[i] == v[i]);
                assert(shown_topics(v, subs, f)[j] == shown_topics(w, subs, f)[j]);
            } else {
                assert(shown_topics(v, subs, f)[j] == v[n].name@);
                assert(topic_shown(v[n], subs, f));
            }
        }
        assert forall|i: int| 0 <= i < v.len() && topic_shown(#[trigger] v[i], subs, f) implies shown_topics(
            v,
            subs,
            f,
        ).contains(v[i].name@) by {
            if i < n {
                assert(w[i] == v[i]);
                assert(shown_topics(w, subs, f).contains(w[i].name@));
                let k = choose|k: int|
                    0 <= k < shown_topics(w, subs, f).len() && shown_topics(w, subs, f)[k] == w[i].name@;
                if topic_shown(v[n], subs, f) {
                    assert(shown_topics(v, subs, f)[k] == w[i].name@);
                }
            } else {
                assert(shown_topics(v, subs, f)[shown_topics(w, subs, f).len() as int] == v[n].name@);
            }
        }
    }
}

impl Explorer {
    /// The filter text, lower-cased.
    pub open spec fn filter_key(&self) -> Seq<char> {
        lowercase(self.filter@)
    }

    /// The queue rows the tree shows: those that pass the filter, in order.
    pub fn visible_queues(&self) -> (r: Vec<(String, i64, i64)>)
        ensures
            rows_view(r@) == filtered_rows(self.queues@, self.filter_key()),
            forall|j: int|
                0 <= j < r@.len() ==> exists|i: int|
                    0 <= i < self.queues@.len() && (#[trigger] r@[j]).0@ == self.queues@[i].name@
                        && r@[j].1 == self.queues@[i].active && r@[j].2 == self.queues@[i].dead_letter
                        && passes(self.queues@[i].name@, self.filter_key()),
            self.filter@.len() == 0 ==> r@.len() == self.queues@.len() && forall|i: int|
                0 <= i < r@.len() ==> (#[trigger] r@[i]).0@ == self.queues@[i].name@ && r@[i].1
                    == self.queues@[i].active && r@[i].2 == self.queues@[i].dead_letter,
    {
        let f = chars_of(to_lowercase(self.filter.as_str()).as_str());
        let r = rows_passing(&self.queues, &f);
        proof {
            lemma_filtered_rows_are_entities(self.queues@, f@);
            assert forall|j: int| 0 <= j < r@.len() implies exists|i: int|
                0 <= i < self.queues@.len() && (#[trigger] r@[j]).0@ == self.queues@[i].name@
                    && r@[j].1 == self.queues@[i].active && r@[j].2 == self.queues@[i].dead_letter
                    && passes(self.queues@[i].name@, self.filter_key()) by {
                assert(rows_view(r@)[j] == (r@[j].0@, r@[j].1, r@[j].2));
            }
            if self.filter@.len() == 0 {
                assert(vstd::utf8::is_ascii_chars(self.filter@));
                assert(f@.len() == 0);
                lemma_empty_filter_keeps_all(self.queues@, f@);
                lemma_rows_show_counts(self.queues@);
                assert forall|i: int| 0 <= i < r@.len() implies (#[trigger] r@[i]).0@ == self.queues@[i].name@
                    && r@[i].1 == self.queues@[i].active && r@[i].2 == self.queues@[i].dead_letter by {
                    assert(rows_view(r@)[i] == (r@[i].0@, r@[i].1, r@[i].2));
                }
            }
        }
        r
    }

    /// The topics the tree shows, in order: those that pass the filter or have a
    /// subscription that does.
    pub fn visible_topics(&self) -> (r: Vec<String>)
        ensures
            crate::explorer::strings_view(r@) == shown_topics(self.topics@, self.subs@, self.filter_key()),
            forall|j: int|
                0 <= j < r@.len() ==> exists|i: int|
                    0 <= i < self.topics@.len() && (#[trigger] r@[j])@ == self.topics@[i].name@ && (
                    passes(self.topics@[i].name@, self.filter_key()) || (self.subs@.contains_key(
                        self.topics@[i].name@,
                    ) && exists|k: int|
                        0 <= k < self.subs@[self.topics@[i].name@]@.len() && passes(
                            #[trigger] self.subs@[self.topics@[i].name@]@[k].name@,
                            self.filter_key(),
                        ))),
            forall|i: int|
                0 <= i < self.topics@.len() && (passes(#[trigger] self.topics@[i].name@, self.filter_key())
                    || (self.subs@.contains_key(self.topics@[i].name@) && exists|k: int|
                    0 <= k < self.subs@[self.topics@[i].name@]@.len() && passes(
                        #[trigger] self.subs@[self.topics@[i].name@]@[k].name@,
                        self.filter_key(),
                    ))) ==> exists|j: int| 0 <= j < r@.len() && (#[trigger] r@[j])@ == self.topics@[i].name@,
            self.filter@.len() == 0 ==> r@.len() == self.topics@.len() && forall|i: int|
                0 <= i < r@.len() ==> (#[trigger] r@[i])@ == self.topics@[i].name@,
    {
        let f = chars_of(to_lowercase(self.filter.as_str()).as_str());
        let mut r: Vec<String> = Vec::new();
        let mut i: usize = 0;
        while i < self.topics.len()
            invariant
                i <= self.topics.len(),
                f@ == self.filter_key(),
                crate::explorer::strings_view(r@) == shown_topics(self.topics@.take(i as int), self.subs@, f@),
            decreases self.topics.len() - i,
        {
            assert(self.topics@.take(i + 1).drop_last() =~= self.topics@.take(i as int));
            assert(self.topics@.take(i + 1).last() == self.topics@[i as int]);
            let t = &self.topics[i];
            let shown = passes_exec(t.name.as_str(), &f) || match self.subs.get(t.name.as_str()) {
                Some(ss) => any_passes_exec(ss, &f),
                None => false,
            };
            if shown {
                let ghost before = crate::explorer::strings_view(r@);
                r.push(t.name.clone());
                assert(crate::explorer::strings_view(r@) =~= before.push(t.name@));
            }
            i = i + 1;
        }
        assert(self.topics@.take(self.topics.len() as int) =~= self.topics@);
        proof {
            let ghost names = crate::explorer::strings_view(r@);
            assert forall|j: int| 0 <= j < r@.len() implies names[j] == (#[trigger] r@[j])@ by {}
            lemma_shown_topics_members(self.topics@, self.subs@, f@);
            assert forall|i: int|
                0 <= i < self.topics@.len() && (passes(#[trigger] self.topics@[i].name@, self.filter_key())
                    || (self.subs@.contains_key(self.topics@[i].name@) && exists|k: int|
                    0 <= k < self.subs@[self.topics@[i].name@]@.len() && passes(
                        #[trigger] self.subs@[self.topics@[i].name@]@[k].name@,
                        self.filter_key(),
                    )))
                implies exists|j: int| 0 <= j < r@.len() && (#[trigger] r@[j])@ == self.topics@[i].name@ by {
                assert(topic_shown(self.topics@[i], self.subs@, f@));
                assert(names.contains(self.topics@[i].name@));
                let j = choose|j: int| 0 <= j < names.len() && names[j] == self.topics@[i].name@;
                assert(names[j] == r@[j]@);
            }
            if self.filter@.len() == 0 {
                assert(vstd::utf8::is_ascii_chars(self.filter@));
                assert(f@.len() == 0);
                lemma_empty_filter_shows_all_topics(self.topics@, self.subs@, f@);
            }
        }
        r
    }

    /// The subscription rows under a topic: all its subscriptions, in order.
    pub fn subscription_rows(&self, topic: &str) -> (r: Vec<(String, i64, i64)>)
        ensures
            self.subs@.contains_key(topic@) ==> rows_view(r@) == all_rows(self.subs@[topic@]@),
            !self.subs@.contains_key(topic@) ==> r@.len() == 0,
            self.subs@.contains_key(topic@) ==> r@.len() == self.subs@[topic@]@.len(),
            self.subs@.contains_key(topic@) ==> forall|i: int|
                0 <= i < r@.len() ==> (#[trigger] r@[i]).0@ == self.subs@[topic@]@[i].name@
                    && r@[i].1 == self.subs@[topic@]@[i].active && r@[i].2
                    == self.subs@[topic@]@[i].dead_letter,
    {
        let mut r: Vec<(String, i64, i64)> = Vec::new();
        match self.subs.get(topic) {
            Some(ss) => {
                let mut i: usize = 0;
                while i < ss.len()
                    invariant
                        i <= ss.len(),
                        rows_view(r@) == all_rows(ss@.take(i as int)),
                    decreases ss.len() - i,
                {
                    let ghost before = rows_view(r@);
                    r.push((ss[i].name.clone(), ss[i].active, ss[i].dead_letter));
                    assert(rows_view(r@) =~= before.push(row_of(ss@[i as int])));
                    assert(all_rows(ss@.take(i + 1)) =~= all_rows(ss@.take(i as int)).push(row_of(ss@[i as int])));
                    i = i + 1;
                }
                assert(ss@.take(ss.len() as int) =~= ss@);
                proof {
                    lemma_rows_show_counts(ss@);
                    assert forall|i: int| 0 <= i < r@.len() implies (#[trigger] r@[i]).0@ == ss@[i].name@
                        && r@[i].1 == ss@[i].active && r@[i].2 == ss@[i].dead_letter by {
                        assert(rows_view(r@)[i] == (r@[i].0@, r@[i].1, r@[i].2));
                        assert(all_rows(ss@)[i] == (ss@[i].name@, ss@[i].active, ss@[i].dead_letter));
                    }
                }
            },
            None => {},
        }
        r
    }
}


/// The kind and title the central panel shows for a selection.
pub open spec fn kind_title_spec(sel: Sel) -> Option<(Seq<char>, Seq<char>)> {
    match sel {
        Sel::Queue(q) => Some(("QUEUE"@, q@)),
        Sel::Topic(t) => Some(("TOPIC"@, t@)),
        Sel::Sub { topic, name } => Some(("SUBSCRIPTION"@, topic@ + " / "@ + name@)),
        Sel::Nothing => None,
    }
}

/// The tabs of the central panel for a selection: a topic has no messages of its own, so
/// it shows only Overview and Send.
pub open spec fn tabs_spec(sel: Sel) -> Seq<Tab> {
    match sel {
        Sel::Topic(_) => seq![Tab::Overview, Tab::Send],
        _ => seq![Tab::Overview, Tab::Messages, Tab::DeadLetter, Tab::Send],
    }
}

impl Explorer {
    /// The tabs shown for the selection, in order.
    pub fn tabs(&self) -> (r: Vec<Tab>)
        ensures
            r@ == tabs_spec(self.sel),
    {
        match &self.sel {
            Sel::Topic(_) => vec![Tab::Overview, Tab::Send],
            _ => vec![Tab::Overview, Tab::Messages, Tab::DeadLetter, Tab::Send],
        }
    }
}

/// The management path, description tag and delete label of a selection.
pub open spec fn selection_spec(sel: Sel) -> Option<(Seq<char>, Seq<char>, Seq<char>)> {
    match sel {
        Sel::Queue(q) => Some((q@, "QueueDescription"@, "queue '"@ + q@ + "'"@)),
        Sel::Topic(t) => Some((t@, "TopicDescription"@, "topic '"@ + t@ + "' (and all subscriptions)"@)),
        Sel::Sub { topic, name } => Some(
            (
                subscription_path_spec(topic@, name@),
                "SubscriptionDescription"@,
                "subscription '"@ + topic@ + "/"@ + name@ + "'"@,
            ),
        ),
        Sel::Nothing => None,
    }
}

/// Where the send tab sends: the queue, the topic, or a subscription's topic.
pub open spec fn send_destination_spec(sel: Sel) -> Option<Seq<char>> {
    match sel {
        Sel::Queue(q) => Some(q@),
        Sel::Topic(t) => Some(t@),
        Sel::Sub { topic, .. } => Some(topic@),
        Sel::Nothing => None,
    }
}

impl Explorer {
    /// The kind label and title of the selection.
    pub fn kind_title(&self) -> (r: Option<(&'static str, String)>)
        ensures
            match (r, kind_title_spec(self.sel)) {
                (Some(a), Some(b)) => a.0@ == b.0 && a.1@ == b.1,
                (None, None) => true,
                _ => false,
            },
            match self.sel {
                Sel::Queue(q) => r matches Some(a) && a.0@ == "QUEUE"@ && a.1@ == q@,
                Sel::Topic(t) => r matches Some(a) && a.0@ == "TOPIC"@ && a.1@ == t@,
                Sel::Sub { topic, name } => r matches Some(a) && a.0@ == "SUBSCRIPTION"@ && a.1@
                    == topic@ + " / "@ + name@,
                Sel::Nothing => r is None,
            },
    {
        match &self.sel {
            Sel::Queue(q) => Some(("QUEUE", q.clone())),
            Sel::Topic(t) => Some(("TOPIC", t.clone())),
            Sel::Sub { topic, name } => {
                let mut title = topic.clone();
                title.append(" / ");
                title.append(name.as_str());
                Some(("SUBSCRIPTION", title))
            },
            Sel::Nothing => None,
        }
    }

    /// The management path, description tag and delete label of the selection.
    pub fn selection(&self) -> (r: Option<(String, &'static str, String)>)
        ensures
            match (r, selection_spec(self.sel)) {
                (Some(a), Some(b)) => a.0@ == b.0 && a.1@ == b.1 && a.2@ == b.2,
                (None, None) => true,
                _ => false,
            },
            match self.sel {
                Sel::Queue(q) => r matches Some(a) && a.0@ == q@ && a.1@ == "QueueDescription"@,
                Sel::Topic(t) => r matches Some(a) && a.0@ == t@ && a.1@ == "TopicDescription"@,
                Sel::Sub { topic, name } => r matches Some(a) && a.0@ == topic@ + "/Subscriptions/"@
                    + name@ && a.1@ == "SubscriptionDescription"@,
                Sel::Nothing => r is None,
            },
    {
        match &self.sel {
            Sel::Queue(q) => {
                let mut label = String::from_str("queue '");
                label.append(q.as_str());
                label.append("'");
                Some((q.clone(), "QueueDescription", label))
            },
            Sel::Topic(t) => {
                let mut label = String::from_str("topic '");
                label.append(t.as_str());
                label.append("' (and all subscriptions)");
                Some((t.clone(), "TopicDescription", label))
            },
            Sel::Sub { topic, name } => {
                let mut label = String::from_str("subscription '");
                label.append(topic.as_str());
                label.append("/");
                label.append(name.as_str());
                label.append("'");
                Some((subscription_path(topic.as_str(), name.as_str()), "SubscriptionDescription", label))
            },
            Sel::Nothing => None,
        }
    }

    /// The question and command for deleting the selected entity.
    pub fn delete_confirm(&self) -> (r: Option<(String, Cmd)>)
        ensures
            match selection_spec(self.sel) {
                Some(s) => r matches Some((q, Cmd::DeleteEntity(p))) && q@ == "Delete "@ + s.2 + "?"@
                    && p@ == s.0,
                None => r is None,
            },
    {
        match self.selection() {
            Some((path, _tag, label)) => {
                let mut q = String::from_str("Delete ");
                q.append(label.as_str());
                q.append("?");
                Some((q, Cmd::DeleteEntity(path)))
            },
            None => None,
        }
    }

    /// Where the send tab sends.
    pub fn send_destination(&self) -> (r: Option<String>)
        ensures
            match (r, send_destination_spec(self.sel)) {
                (Some(a), Some(b)) => a@ == b,
                (None, None) => true,
                _ => false,
            },
            match self.sel {
                Sel::Queue(q) => r matches Some(d) && d@ == q@,
                Sel::Topic(t) => r matches Some(d) && d@ == t@,
                Sel::Sub { topic, .. } => r matches Some(d) && d@ == topic@,
                Sel::Nothing => r is None,
            },
    {
        match &self.sel {
            Sel::Queue(q) => Some(q.clone()),
            Sel::Topic(t) => Some(t.clone()),
            Sel::Sub { topic, .. } => Some(topic.clone()),
            Sel::Nothing => None,
        }
    }

    /// The count shown beside the messages: the selected entity's dead-letter count for
    /// the dead-letter tab, its active count otherwise, 0 when it is not loaded.
    pub fn in_entity_count(&self, dlq: bool) -> (r: i64)
        ensures
            ({
                let e = self.selected_entity_spec();
                r == match e {
                    Some(e) => if dlq {
                        e.dead_letter
                    } else {
                        e.active
                    },
                    None => 0,
                }
            }),
    {
        match self.selected_entity() {
            Some(e) => {
                proof {
                    self.lemma_selected_entity_unique(*e);
                }
                if dlq {
                    e.dead_letter
                } else {
                    e.active
                }
            },
            None => {
                proof {
                    self.lemma_selected_entity_none();
                }
                0
            },
        }
    }
}

/// The value of the first property named `key`, or the empty string.
pub open spec fn prop_value(props: Seq<(Seq<char>, Seq<char>)>, key: Seq<char>) -> Seq<char>
    decreases props.len(),
{
    if props.len() == 0 {
        Seq::empty()
    } else if props[0].0 == key {
        props[0].1
    } else {
        prop_value(props.drop_first(), key)
    }
}

fn prop_value_exec(props: &Vec<(String, String)>, key: &str) -> (r: String)
    ensures
        r@ == prop_value(pairs_view(props@), key@),
{
    let ghost pv = pairs_view(props@);
    let mut i: usize = 0;
    assert(pv.skip(0) =~= pv);
    while i < props.len()
        invariant
            i <= props.len(),
            pv == pairs_view(props@),
            prop_value(pv, key@) == prop_value(pv.skip(i as int), key@),
        decreases props.len() - i,
    {
        assert(pv.skip(i as int)[0] == (props@[i as int].0@, props@[i as int].1@));
        assert(pv.skip(i as int).drop_first() =~= pv.skip(i + 1));
        if str_eq(props[i].0.as_str(), key) {
            return props[i].1.clone();
        }
        i = i + 1;
    }
    String::new()
}

/// The settings editor's rows: every editable field, in schema order, with the current
/// value of the entity's property of that name (empty when it has none).
pub open spec fn edit_rows(editable: Seq<Seq<char>>, props: Seq<(Seq<char>, Seq<char>)>) -> Seq<(Seq<char>, Seq<char>)> {
    editable.map_values(|f: Seq<char>| (f, prop_value(props, f)))
}

/// The value shown for a setting: that of the first property with its name, or empty
/// when the entity has none.
pub proof fn lemma_prop_value(props: Seq<(Seq<char>, Seq<char>)>, key: Seq<char>, j: int)
    requires
        0 <= j < props.len(),
        props[j].0 == key,
        forall|k: int| 0 <= k < j ==> #[trigger] props[k].0 != key,
    ensures
        prop_value(props, key) == props[j].1,
    decreases j,
{
    if j > 0 {
        let rest = props.drop_first();
        assert forall|k: int| 0 <= k < j - 1 implies #[trigger] rest[k].0 != key by {
            assert(rest[k] == props[k + 1]);
        }
        assert(props[0].0 != key);
        lemma_prop_value(rest, key, j - 1);
    }
}

/// A setting the entity has no property for is shown empty.
pub proof fn lemma_prop_value_absent(props: Seq<(Seq<char>, Seq<char>)>, key: Seq<char>)
    requires
        forall|k: int| 0 <= k < props.len() ==> #[trigger] props[k].0 != key,
    ensures
        prop_value(props, key) == Seq::<char>::empty(),
    decreases props.len(),
{
    if props.len() > 0 {
        let rest = props.drop_first();
        assert forall|k: int| 0 <= k < rest.len() implies #[trigger] rest[k].0 != key by {
            assert(rest[k] == props[k + 1]);
        }
        assert(props[0].0 != key);
        lemma_prop_value_absent(rest, key);
    }
}

/// The information rows are exactly the entity's properties whose names are not
/// editable settings.
pub proof fn lemma_info_rows(props: Seq<(Seq<char>, Seq<char>)>, editable: Seq<Seq<char>>)
    ensures
        forall|j: int| 0 <= j < info_rows(props, editable).len() ==> !editable.contains(
            (#[trigger] info_rows(props, editable)[j]).0,
        ) && props.contains(info_rows(props, editable)[j]),
        forall|i: int| 0 <= i < props.len() && !editable.contains((#[trigger] props[i]).0) ==> info_rows(
            props,
            editable,
        ).contains(props[i]),
    decreases props.len(),
{
    if props.len() > 0 {
        let w = props.drop_last();
        lemma_info_rows(w, editable);
        let n = props.len() - 1;
        assert(props.last() == props[n]);
        assert forall|j: int| 0 <= j < info_rows(props, editable).len() implies !editable.contains(
            (#[trigger] info_rows(props, editable)[j]).0,
        ) && props.contains(info_rows(props, editable)[j]) by {
            if j < info_rows(w, editable).len() {
                assert(info_rows(props, editable)[j] == info_rows(w, editable)[j]);
                let k = choose|k: int| 0 <= k < w.len() && w[k] == info_rows(w, editable)[j];
                assert(props[k] == w[k]);
            } else {
                assert(info_rows(props, editable)[j] == props[n]);
            }
        }
        assert forall|i: int| 0 <= i < props.len() && !editable.contains((#[trigger] props[i]).0) implies info_rows(
            props,
            editable,
        ).contains(props[i]) by {
            if i < n {
                assert(w[i] == props[i]);
                let k = choose|k: int| 0 <= k < info_rows(w, editable).len() && info_rows(w, editable)[k] == w[i];
                assert(info_rows(props, editable)[k] == info_rows(w, editable)[k]);
            } else {
                assert(info_rows(props, editable)[info_rows(props, editable).len() - 1] == props[n]);
            }
        }
    }
}

/// The rows of the settings editor.
pub fn edit_fields(editable: &Vec<&str>, props: &Vec<(String, String)>) -> (r: Vec<(String, String)>)
    ensures
        pairs_view(r@) == edit_rows(strs_view(editable@), pairs_view(props@)),
        r@.len() == editable@.len(),
        forall|i: int| 0 <= i < r@.len() ==> (#[trigger] r@[i]).0@ == editable@[i]@ && r@[i].1@
            == prop_value(pairs_view(props@), editable@[i]@),
{
    let mut r: Vec<(String, String)> = Vec::new();
    let mut i: usize = 0;
    while i < editable.len()
        invariant
            i <= editable.len(),
            pairs_view(r@) == edit_rows(strs_view(editable@.take(i as int)), pairs_view(props@)),
        decreases editable.len() - i,
    {
        let f = editable[i];
        let ghost before = pairs_view(r@);
        r.push((String::from_str(f), prop_value_exec(props, f)));
        assert(pairs_view(r@) =~= before.push((f@, prop_value(pairs_view(props@), f@))));
        assert(editable@.take(i + 1) =~= editable@.take(i as int).push(f));
        assert(edit_rows(strs_view(editable@.take(i + 1)), pairs_view(props@)) =~= edit_rows(
            strs_view(editable@.take(i as int)),
            pairs_view(props@),
        ).push((f@, prop_value(pairs_view(props@), f@))));
        i = i + 1;
    }
    assert(editable@.take(editable.len() as int) =~= editable@);
    proof {
        assert(pairs_view(r@).len() == r@.len());
        assert forall|i: int| 0 <= i < r@.len() implies (#[trigger] r@[i]).0@ == editable@[i]@ && r@[i].1@
            == prop_value(pairs_view(props@), editable@[i]@) by {
            assert(pairs_view(r@)[i] == (r@[i].0@, r@[i].1@));
            assert(strs_view(editable@)[i] == editable@[i]@);
        }
    }
    r
}

/// The properties shown as information: those that are not editable, in order.
pub open spec fn info_rows(props: Seq<(Seq<char>, Seq<char>)>, editable: Seq<Seq<char>>) -> Seq<(Seq<char>, Seq<char>)>
    decreases props.len(),
{
    if props.len() == 0 {
        Seq::empty()
    } else if editable.contains(props.last().0) {
        info_rows(props.drop_last(), editable)
    } else {
        info_rows(props.drop_last(), editable).push(props.last())
    }
}

fn contains_str(v: &Vec<&str>, s: &str) -> (r: bool)
    ensures
        r == strs_view(v@).contains(s@),
{
    let mut i: usize = 0;
    while i < v.len()
        invariant
            i <= v.len(),
            forall|j: int| 0 <= j < i ==> (#[trigger] v@[j])@ != s@,
        decreases v.len() - i,
    {
        if str_eq(v[i], s) {
            assert(strs_view(v@)[i as int] == s@);
            return true;
        }
        i = i + 1;
    }
    assert forall|j: int| 0 <= j < strs_view(v@).len() implies strs_view(v@)[j] != s@ by {
        assert(strs_view(v@)[j] == v@[j]@);
    }
    false
}

/// The information rows: the entity's properties that are not editable.
pub fn info_props(props: &Vec<(String, String)>, editable: &Vec<&str>) -> (r: Vec<(String, String)>)
    ensures
        pairs_view(r@) == info_rows(pairs_view(props@), strs_view(editable@)),
{
    let ghost pv = pairs_view(props@);
    let mut r: Vec<(String, String)> = Vec::new();
    let mut i: usize = 0;
    while i < props.len()
        invariant
            i <= props.len(),
            pv == pairs_view(props@),
            pairs_view(r@) == info_rows(pv.take(i as int), strs_view(editable@)),
        decreases props.len() - i,
    {
        assert(pv.take(i + 1).drop_last() =~= pv.take(i as int));
        assert(pv.take(i + 1).last() == (props@[i as int].0@, props@[i as int].1@));
        if !contains_str(editable, props[i].0.as_str()) {
            let ghost before = pairs_view(r@);
            r.push((props[i].0.clone(), props[i].1.clone()));
            assert(pairs_view(r@) =~= before.push((props@[i as int].0@, props@[i as int].1@)));
        }
        i = i + 1;
    }
    assert(pv.take(props.len() as int) =~= pv);
    r
}

/// The title of the new-entity dialog.
pub open spec fn new_entity_title_spec(kind: Seq<char>, topic: Seq<char>) -> Seq<char> {
    if kind == "queue"@ {
        "New queue"@
    } else if kind == "topic"@ {
        "New topic"@
    } else {
        "New subscription on "@ + topic
    }
}

/// The title of the new-entity dialog.
pub fn new_entity_title(kind: &str, topic: &str) -> (r: String)
    ensures
        r@ == new_entity_title_spec(kind@, topic@),
{
    if str_eq(kind, "queue") {
        String::from_str("New queue")
    } else if str_eq(kind, "topic") {
        String::from_str("New topic")
    } else {
        let mut r = String::from_str("New subscription on ");
        r.append(topic);
        r
    }
}

/// The command the new-entity dialog sends for a name: nothing for a blank name, else
/// the creation of a queue, a topic, or a subscription of `topic`, named by the trimmed
/// name.
pub fn create_command(kind: &str, topic: &str, name: &str) -> (r: Option<Cmd>)
    ensures
        trim(name@).len() == 0 ==> r is None,
        trim(name@).len() > 0 && kind@ == "queue"@ ==> (r matches Some(Cmd::CreateQueue(n))
            && n@ == trim(name@)),
        trim(name@).len() > 0 && kind@ == "topic"@ ==> (r matches Some(Cmd::CreateTopic(n))
            && n@ == trim(name@)),
        trim(name@).len() > 0 && kind@ != "queue"@ && kind@ != "topic"@ ==> (r matches Some(
            Cmd::CreateSubscription { topic: t, name: n },
        ) && t@ == topic@ && n@ == trim(name@)),
{
    let trimmed = trim_chars(&chars_of(name));
    if trimmed.len() == 0 {
        return None;
    }
    let n = string_of(&trimmed);
    proof {
        reveal_strlit("queue");
        reveal_strlit("topic");
        assert("queue"@[0] != "topic"@[0]);
    }
    if str_eq(kind, "queue") {
        Some(Cmd::CreateQueue(n))
    } else if str_eq(kind, "topic") {
        Some(Cmd::CreateTopic(n))
    } else {
        Some(Cmd::CreateSubscription { topic: String::from_str(topic), name: n })
    }
}

/// The question before a receive-and-delete.
pub open spec fn receive_question_spec(max: u32, key: Seq<char>, dlq: bool) -> Seq<char> {
    "Receive & DELETE up to "@ + decimal(max as nat) + " message(s) from "@ + key + dlq_suffix(dlq)
        + "?"@
}

/// The question before a receive-and-delete of up to `max` messages.
pub fn receive_question(max: u32, key: &str, dlq: bool) -> (r: String)
    ensures
        r@ == receive_question_spec(max, key@, dlq),
{
    let mut r = String::from_str("Receive & DELETE up to ");
    push_decimal(&mut r, max as u64);
    r.append(" message(s) from ");
    r.append(key);
    if dlq {
        r.append(" (DLQ)");
    }
    r.append("?");
    r
}

/// The question before a purge.
pub open spec fn purge_question_spec(key: Seq<char>, dlq: bool) -> Seq<char> {
    "Purge ALL messages from "@ + key + dlq_suffix(dlq) + "?"@
}

/// The question before a purge.
pub fn purge_question(key: &str, dlq: bool) -> (r: String)
    ensures
        r@ == purge_question_spec(key@, dlq),
{
    let mut r = String::from_str("Purge ALL messages from ");
    r.append(key);
    if dlq {
        r.append(" (DLQ)");
    }
    r.append("?");
    r
}

/// The counter beside the message table: loaded messages and the entity's count.
pub open spec fn counts_label_spec(loaded: nat, in_entity: int) -> Seq<char> {
    decimal(loaded) + " loaded \u{b7} "@ + decimal_int(in_entity) + " in entity"@
}

/// `{loaded} loaded · {in_entity} in entity`.
pub fn counts_label(loaded: usize, in_entity: i64) -> (r: String)
    ensures
        r@ == counts_label_spec(loaded as nat, in_entity as int),
{
    let mut r = String::new();
    push_decimal(&mut r, loaded as u64);
    r.append(" loaded \u{b7} ");
    push_decimal_i64(&mut r, in_entity);
    r.append(" in entity");
    r
}

/// How an expiry time is shown: `never` for the far-future year 9999.
pub open spec fn expires_text_spec(expires: Seq<char>) -> Seq<char> {
    if expires.len() >= 4 && expires.take(4) == "9999"@ {
        "never"@
    } else {
        expires
    }
}

/// How an expiry time is shown.
pub fn expires_text(expires: &str) -> (r: String)
    ensures
        r@ == expires_text_spec(expires@),
{
    let v = chars_of(expires);
    let p = chars_of("9999");
    proof {
        reveal_strlit("9999");
    }
    if crate::text::matches_at(&v, 0, &p) {
        assert(v@.subrange(0, 4) =~= v@.take(4));
        String::from_str("never")
    } else {
        assert(v@.len() >= 4 ==> v@.subrange(0, 4) =~= v@.take(4));
        String::from_str(expires)
    }
}

/// The short name of a namespace: the host up to its first dot.
pub open spec fn short_namespace_spec(ns: Seq<char>) -> Seq<char> {
    crate::text::split(ns, '.')[0]
}

/// The short name of a namespace shown in the top bar.
pub fn short_namespace(ns: &str) -> (r: String)
    ensures
        r@ == short_namespace_spec(ns@),
{
    let parts = crate::text::split_chars(&chars_of(ns), '.');
    proof {
        crate::text::lemma_split_prefix_nonempty(ns@, '.', ns@.len() as int);
    }
    assert(crate::text::views(parts@)[0] == parts@[0]@);
    string_of(&parts[0])
}


/// A count of tenths written with one decimal: `12.3`.
pub open spec fn one_decimal(t: nat) -> Seq<char> {
    decimal(t / 10) + "."@ + decimal(t % 10)
}

/// A byte count as the explorer shows it: `{:.1} MB` from 1 MiB on, `{:.1} KB` from
/// 1 KiB on (the value taken as `f64` and rounded half to even), else `{b} B`.
pub open spec fn human_bytes_spec(b: i64) -> Seq<char> {
    if b >= 1048576 {
        one_decimal(round_half_even(as_f64(b as nat) * 10, 1048576)) + " MB"@
    } else if b >= 1024 {
        one_decimal(round_half_even((b as nat) * 10, 1024)) + " KB"@
    } else {
        decimal_int(b as int) + " B"@
    }
}

fn push_one_decimal(s: &mut String, t: u128)
    ensures
        final(s)@ == old(s)@ + one_decimal(t as nat),
{
    push_decimal_u128(s, t / 10);
    s.append(".");
    push_decimal_u128(s, t % 10);
    proof {
        reveal_strlit(".");
    }
    assert(final(s)@ =~= old(s)@ + one_decimal(t as nat));
}

fn round_half_even_exec(n: u128, d: u128) -> (r: u128)
    requires
        d > 0,
        n <= 0x1_0000_0000_0000_0000_0000,
        d <= 0x1_0000_0000,
    ensures
        r as nat == round_half_even(n as nat, d as nat),
{
    let q = n / d;
    let rem = n % d;
    proof {
        vstd::arithmetic::div_mod::lemma_div_nonincreasing(n as int, d as int);
    }
    if 2 * rem > d || (2 * rem == d && q % 2 == 1) {
        q + 1
    } else {
        q
    }
}

/// A byte count as the explorer shows it.
pub fn human_bytes(b: i64) -> (r: String)
    ensures
        r@ == human_bytes_spec(b),
{
    let mut r = String::new();
    if b >= 1048576 {
        let f = as_f64_exec(b as u64);
        let t = round_half_even_exec(f * 10, 1048576);
        push_one_decimal(&mut r, t);
        r.append(" MB");
    } else if b >= 1024 {
        let t = round_half_even_exec((b as u128) * 10, 1024);
        push_one_decimal(&mut r, t);
        r.append(" KB");
    } else {
        push_decimal_i64(&mut r, b);
        r.append(" B");
    }
    r
}

/// The command the connect dialog sends: a connection with the trimmed string, nothing
/// for a blank one.
pub fn connect_command(conn_str: &str) -> (r: Option<Cmd>)
    ensures
        trim(conn_str@).len() == 0 ==> r is None,
        trim(conn_str@).len() > 0 ==> (r matches Some(Cmd::Connect(c)) && c@ == trim(conn_str@)),
{
    let trimmed = trim_chars(&chars_of(conn_str));
    if trimmed.len() == 0 {
        None
    } else {
        Some(Cmd::Connect(string_of(&trimmed)))
    }
}

/// The first `n` characters of `s` (all of it when it is shorter).
pub open spec fn first_chars_spec(s: Seq<char>, n: nat) -> Seq<char> {
    if s.len() <= n {
        s
    } else {
        s.take(n as int)
    }
}

/// The first `n` characters of `s`, as the message table shows the enqueued time.
pub fn first_chars(s: &str, n: usize) -> (r: String)
    ensures
        r@ == first_chars_spec(s@, n as nat),
{
    let v = chars_of(s);
    if v.len() <= n {
        String::from_str(s)
    } else {
        let head = crate::text::sub_chars(&v, 0, n);
        assert(head@ =~= s@.take(n as int));
        string_of(&head)
    }
}

/// The text re-indented by `serde_json` when it is a JSON document; `None` when it is not.
pub uninterp spec fn json_pretty_spec(text: Seq<char>) -> Option<Seq<char>>;

/// `serde_json::from_str::<serde_json::Value>`, the parsed value written back out as text
/// by `serde_json::to_string_pretty`; `None` where the text is not JSON. Claims only that
/// the outcome is the named value of the text.
#[verifier::external_body]
fn json_pretty(text: &str) -> (r: Option<String>)
    ensures
        opt_view(r) == json_pretty_spec(text@),
{
    match serde_json::from_str::<serde_json::Value>(text) {
        Ok(v) => serde_json::to_string_pretty(&v).ok(),
        Err(_) => None,
    }
}

/// What the inspector shows of a body, given its pretty-printed form: that form when
/// there is one, the body as it is otherwise.
pub fn body_text(body: &str, pretty: Option<String>) -> (r: String)
    ensures
        r@ == match pretty {
            Some(p) => p@,
            None => body@,
        },
{
    match pretty {
        Some(p) => p,
        None => String::from_str(body),
    }
}

/// What the inspector shows of a body: pretty-printed when it is JSON, as it is otherwise.
pub fn display_body(body: &str) -> (r: String)
    ensures
        r@ == match json_pretty_spec(body@) {
            Some(p) => p,
            None => body@,
        },
{
    let pretty = json_pretty(body);
    body_text(body, pretty)
}

impl Explorer {
    /// Copies a message into the send form (body, subject, content type, properties;
    /// the form's other fields stay) and switches to the Send tab.
    pub fn load_into_send(&mut self, m: &MsgView)
        ensures
            *final(self) == (Explorer {
                out: OutMessage {
                    body: final(self).out.body,
                    subject: final(self).out.subject,
                    content_type: final(self).out.content_type,
                    props: final(self).out.props,
                    ..old(self).out
                },
                tab: Tab::Send,
                ..*old(self)
            }),
            final(self).out.body@ == m.body@,
            final(self).out.subject@ == m.subject@,
            final(self).out.content_type@ == m.content_type@,
            pairs_view(final(self).out.props@) == pairs_view(m.props@),
    {
        self.out.body = m.body.clone();
        self.out.subject = m.subject.clone();
        self.out.content_type = m.content_type.clone();
        self.out.props = copy_pairs(&m.props);
        self.tab = Tab::Send;
    }
}

impl Explorer {
    /// Selects an entity in the tree: the Overview tab opens, and the selected message
    /// row is cleared for a queue or a subscription (a topic has no messages).
    pub fn select(&mut self, sel: Sel)
        ensures
            *final(self) == (Explorer {
                sel,
                tab: Tab::Overview,
                selected_row: if sel is Topic {
                    old(self).selected_row
                } else {
                    None
                },
                ..*old(self)
            }),
    {
        let keep_row = match &sel {
            Sel::Topic(_) => true,
            _ => false,
        };
        self.sel = sel;
        self.tab = Tab::Overview;
        if !keep_row {
            self.selected_row = None;
        }
    }

    /// Opens the new-entity dialog for a kind (`queue`, `topic`, or a subscription of
    /// `topic`), with an empty name.
    pub fn open_new_entity(&mut self, kind: &str, topic: &str)
        ensures
            *final(self) == (Explorer { new_entity: final(self).new_entity, ..*old(self) }),
            final(self).new_entity matches Some((k, t, n)) && k@ == kind@ && t@ == topic@ && n@.len()
                == 0,
    {
        self.new_entity = Some((String::from_str(kind), String::from_str(topic), String::new()));
    }

    /// Makes sure the settings editor holds the fields of the entity at `path`: kept as
    /// it is while it belongs to that path, rebuilt from the entity's properties
    /// otherwise (a new selection, or after a refresh or a discard cleared it).
    pub fn edit_buffer(&mut self, path: String, editable: &Vec<&str>, props: &Vec<(String, String)>)
        ensures
            match old(self).edit {
                Some((k, _)) if k@ == path@ => *final(self) == *old(self),
                _ => *final(self) == (Explorer { edit: final(self).edit, ..*old(self) })
                    && (final(self).edit matches Some((k, f)) && k@ == path@ && pairs_view(f@)
                    == edit_rows(strs_view(editable@), pairs_view(props@))),
            },
    {
        let same = match &self.edit {
            Some((k, _)) => str_eq(k.as_str(), path.as_str()),
            None => false,
        };
        if !same {
            self.edit = Some((path, edit_fields(editable, props)));
        }
    }

    /// Answers the confirmation dialog: the waiting command when the answer is yes,
    /// nothing when it is no; the dialog closes either way.
    pub fn answer_confirm(&mut self, yes: bool) -> (r: Option<Cmd>)
        ensures
            *final(self) == (Explorer { confirm: None, ..*old(self) }),
            yes ==> r == match old(self).confirm {
                Some((_, c)) => Some(c),
                None => None::<Cmd>,
            },
            !yes ==> r is None,
    {
        match self.confirm.take() {
            Some((_, c)) => if yes {
                Some(c)
            } else {
                None
            },
            None => None,
        }
    }
}

} // verus!
