//! Reading the ATOM feeds of the management API into [`Entity`] values.

use vstd::prelude::*;
use crate::mgmt::{Entity, EntityView, entities_view, pairs_view};
use crate::connection::opt_view;
use crate::num::{parse_i64, parse_i64_spec};
use crate::text::{chars_of, str_eq};

verus! {

/// One node of a parsed XML document. A document is the list of its nodes in
/// document order, each with the number of nodes on its path from the document root
/// (itself included), so that the descendants of a node are the nodes right after it
/// that lie deeper.
#[derive(Clone, Debug)]
pub struct XmlNode {
    pub element: bool,
    pub depth: usize,
    pub namespace: Option<String>,
    pub name: String,
    /// For an element, the text of its first child when that child is text.
    pub text: Option<String>,
}

/// The plain value of an [`XmlNode`]: (element, depth, namespace, local name, text).
pub type NodeV = (bool, nat, Option<Seq<char>>, Seq<char>, Option<Seq<char>>);

/// The plain value of a node.
pub open spec fn node_view(n: XmlNode) -> NodeV {
    (n.element, n.depth as nat, opt_view(n.namespace), n.name@, opt_view(n.text))
}

/// The plain values of a list of nodes.
pub open spec fn nodes_view(v: Seq<XmlNode>) -> Seq<NodeV> {
    v.map_values(|n: XmlNode| node_view(n))
}

/// The nodes, in document order, of the XML document `text`, as `roxmltree` parses it;
/// `None` where it refuses the text.
pub uninterp spec fn xml_document_nodes(text: Seq<char>) -> Option<Seq<NodeV>>;

/// The message `roxmltree` gives, through its `Display`, for a text it refuses.
pub uninterp spec fn xml_parse_error(text: Seq<char>) -> Seq<char>;

/// `roxmltree::Document::parse`, each node of `Document::descendants` taken down as
/// an [`XmlNode`]: whether it is an element, the count of `Node::ancestors` (itself
/// included), the namespace and local name of `Node::tag_name`, and `Node::text`; a
/// refusal taken down as the `Display` text of `roxmltree::Error`. Claims only that the
/// outcome is the named value of the text.
#[verifier::external_body]
fn parse_xml_nodes(xml: &str) -> (r: Result<Vec<XmlNode>, String>)
    ensures
        match r {
            Ok(v) => xml_document_nodes(xml@) == Some(nodes_view(v@)),
            Err(m) => xml_document_nodes(xml@) is None && m@ == xml_parse_error(xml@),
        },
{
    match roxmltree::Document::parse(xml) {
        Ok(doc) => Ok(doc.descendants().map(|n| XmlNode {
            element: n.is_element(),
            depth: n.ancestors().count(),
            namespace: n.tag_name().namespace().map(|s| s.to_string()),
            name: n.tag_name().name().to_string(),
            text: n.text().map(|s| s.to_string()),
        }).collect()),
        Err(e) => Err(e.to_string()),
    }
}

/// The ATOM namespace.
pub open spec fn atom_ns() -> Seq<char> {
    "http://www.w3.org/2005/Atom"@
}

/// An element with the given namespace and local name.
pub open spec fn is_named(n: NodeV, ns: Seq<char>, name: Seq<char>) -> bool {
    n.0 && n.2 == Some(ns) && n.3 == name
}

/// The end of the run of nodes from `k` on that lie deeper than `d`.
pub open spec fn end_from(ns: Seq<NodeV>, d: nat, k: int) -> int
    decreases ns.len() - k,
{
    if k < 0 || k >= ns.len() {
        ns.len() as int
    } else if ns[k].1 <= d {
        k
    } else {
        end_from(ns, d, k + 1)
    }
}

/// One past the last descendant of node `i`.
pub open spec fn subtree_end(ns: Seq<NodeV>, i: int) -> int {
    end_from(ns, ns[i].1, i + 1)
}

/// The first child of a node at depth `d`, searching from `k`, that is an ATOM `title`.
pub open spec fn title_from(ns: Seq<NodeV>, d: nat, k: int) -> Option<int>
    decreases ns.len() - k,
{
    if k < 0 || k >= ns.len() || ns[k].1 <= d {
        None
    } else if ns[k].1 == d + 1 && is_named(ns[k], atom_ns(), "title"@) {
        Some(k)
    } else {
        title_from(ns, d, k + 1)
    }
}

/// Whether a node at depth `d` has, from `k` on, a child that is an element.
pub open spec fn element_child_from(ns: Seq<NodeV>, d: nat, k: int) -> bool
    decreases ns.len() - k,
{
    if k < 0 || k >= ns.len() || ns[k].1 <= d {
        false
    } else if ns[k].1 == d + 1 && ns[k].0 {
        true
    } else {
        element_child_from(ns, d, k + 1)
    }
}

/// Element names that an entity's property list leaves out.
pub open spec fn is_skipped_tag(name: Seq<char>) -> bool {
    name == "id"@ || name == "title"@ || name == "updated"@ || name == "name"@
}

/// A leaf element with text, not one of the skipped tags: it becomes a property.
pub open spec fn is_property(ns: Seq<NodeV>, j: int) -> bool {
    &&& ns[j].0
    &&& !element_child_from(ns, ns[j].1, j + 1)
    &&& ns[j].4 is Some
    &&& !is_skipped_tag(ns[j].3)
}

/// The properties among the nodes `lo..hi`, in order.
pub open spec fn properties_in(ns: Seq<NodeV>, lo: int, hi: int) -> Seq<(Seq<char>, Seq<char>)>
    decreases hi - lo,
{
    if hi <= lo {
        Seq::empty()
    } else if is_property(ns, hi - 1) {
        properties_in(ns, lo, hi - 1).push((ns[hi - 1].3, ns[hi - 1].4->0))
    } else {
        properties_in(ns, lo, hi - 1)
    }
}

/// The count the last property named `tag` gives (0 where its text is no `i64`),
/// or 0 without one.
pub open spec fn count_of(props: Seq<(Seq<char>, Seq<char>)>, tag: Seq<char>) -> i64
    decreases props.len(),
{
    if props.len() == 0 {
        0
    } else if props.last().0 == tag {
        match parse_i64_spec(props.last().1) {
            Some(v) => v,
            None => 0,
        }
    } else {
        count_of(props.drop_last(), tag)
    }
}

/// The entity an ATOM `entry` node stands for.
pub open spec fn entity_of(ns: Seq<NodeV>, i: int) -> EntityView {
    let props = properties_in(ns, i, subtree_end(ns, i));
    EntityView {
        name: match title_from(ns, ns[i].1, i + 1) {
            Some(t) => match ns[t].4 {
                Some(s) => s,
                None => Seq::empty(),
            },
            None => Seq::empty(),
        },
        active: count_of(props, "ActiveMessageCount"@),
        dead_letter: count_of(props, "DeadLetterMessageCount"@),
        scheduled: count_of(props, "ScheduledMessageCount"@),
        total: count_of(props, "MessageCount"@),
        size_bytes: count_of(props, "SizeInBytes"@),
        props,
    }
}

/// The entities of the `entry` nodes among the first `k` nodes, in order.
pub open spec fn feed_upto(ns: Seq<NodeV>, k: int) -> Seq<EntityView>
    decreases k,
{
    if k <= 0 {
        Seq::empty()
    } else if is_named(ns[k - 1], atom_ns(), "entry"@) {
        feed_upto(ns, k - 1).push(entity_of(ns, k - 1))
    } else {
        feed_upto(ns, k - 1)
    }
}

/// The entities of every ATOM `entry` in a document, in document order.
pub open spec fn feed_entities(ns: Seq<NodeV>) -> Seq<EntityView> {
    feed_upto(ns, ns.len() as int)
}

fn opt_eq_str(o: &Option<String>, s: &str) -> (r: bool)
    ensures
        r == (opt_view(*o) == Some(s@)),
{
    match o {
        Some(x) => str_eq(x.as_str(), s),
        None => false,
    }
}

/// Whether a node is the element `ATOM:name`.
fn node_is(n: &XmlNode, name: &str) -> (r: bool)
    ensures
        r == is_named(node_view(*n), atom_ns(), name@),
{
    n.element && opt_eq_str(&n.namespace, "http://www.w3.org/2005/Atom") && str_eq(
        n.name.as_str(),
        name,
    )
}

fn subtree_end_exec(nodes: &Vec<XmlNode>, i: usize) -> (r: usize)
    requires
        i < nodes.len(),
    ensures
        r as int == subtree_end(nodes_view(nodes@), i as int),
        i < r <= nodes.len(),
{
    let ghost ns = nodes_view(nodes@);
    let d = nodes[i].depth;
    let mut k = i + 1;
    while k < nodes.len() && nodes[k].depth > d
        invariant
            i < k <= nodes.len(),
            ns == nodes_view(nodes@),
            d as nat == ns[i as int].1,
            end_from(ns, d as nat, i + 1) == end_from(ns, d as nat, k as int),
        decreases nodes.len() - k,
    {
        k = k + 1;
    }
    k
}

fn title_of(nodes: &Vec<XmlNode>, i: usize) -> (r: Option<usize>)
    requires
        i < nodes.len(),
    ensures
        r matches Some(t) ==> t < nodes.len() && title_from(nodes_view(nodes@), nodes@[i as int].depth as nat, i + 1)
            == Some(t as int),
        r is None ==> title_from(nodes_view(nodes@), nodes@[i as int].depth as nat, i + 1) is None,
{
    let ghost ns = nodes_view(nodes@);
    let d = nodes[i].depth;
    let mut k = i + 1;
    assert(ns[i as int] == node_view(nodes@[i as int]));
    while k < nodes.len() && nodes[k].depth > d
        invariant
            i < k <= nodes.len(),
            ns == nodes_view(nodes@),
            d == nodes@[i as int].depth,
            title_from(ns, d as nat, i + 1) == title_from(ns, d as nat, k as int),
        decreases nodes.len() - k,
    {
        assert(ns[k as int] == node_view(nodes@[k as int]));
        if d < usize::MAX && nodes[k].depth == d + 1 && node_is(&nodes[k], "title") {
            return Some(k);
        }
        k = k + 1;
    }
    None
}

fn has_element_child(nodes: &Vec<XmlNode>, j: usize) -> (r: bool)
    requires
        j < nodes.len(),
    ensures
        r == element_child_from(nodes_view(nodes@), nodes@[j as int].depth as nat, j + 1),
{
    let ghost ns = nodes_view(nodes@);
    let d = nodes[j].depth;
    let mut k = j + 1;
    while k < nodes.len() && nodes[k].depth > d
        invariant
            j < k <= nodes.len(),
            ns == nodes_view(nodes@),
            d == nodes@[j as int].depth,
            element_child_from(ns, d as nat, j + 1) == element_child_from(ns, d as nat, k as int),
        decreases nodes.len() - k,
    {
        assert(ns[k as int] == node_view(nodes@[k as int]));
        if d < usize::MAX && nodes[k].depth == d + 1 && nodes[k].element {
            return true;
        }
        k = k + 1;
    }
    false
}

fn is_skipped(name: &str) -> (r: bool)
    ensures
        r == is_skipped_tag(name@),
{
    str_eq(name, "id") || str_eq(name, "title") || str_eq(name, "updated") || str_eq(name, "name")
}

/// The entity an `entry` node stands for.
fn entity_at(nodes: &Vec<XmlNode>, i: usize) -> (e: Entity)
    requires
        i < nodes.len(),
    ensures
        e@ == entity_of(nodes_view(nodes@), i as int),
{
    let ghost ns = nodes_view(nodes@);
    let end = subtree_end_exec(nodes, i);
    let mut ent = Entity::named(String::new());
    match title_of(nodes, i) {
        Some(t) => match &nodes[t].text {
            Some(s) => {
                ent.name = s.clone();
            },
            None => {},
        },
        None => {},
    }
    let mut j = i;
    while j < end
        invariant
            i <= j <= end <= nodes.len(),
            end as int == subtree_end(ns, i as int),
            ns == nodes_view(nodes@),
            ent.name@ == entity_of(ns, i as int).name,
            pairs_view(ent.props@) == properties_in(ns, i as int, j as int),
            ent.active == count_of(pairs_view(ent.props@), "ActiveMessageCount"@),
            ent.dead_letter == count_of(pairs_view(ent.props@), "DeadLetterMessageCount"@),
            ent.scheduled == count_of(pairs_view(ent.props@), "ScheduledMessageCount"@),
            ent.total == count_of(pairs_view(ent.props@), "MessageCount"@),
            ent.size_bytes == count_of(pairs_view(ent.props@), "SizeInBytes"@),
        decreases end - j,
    {
        let node = &nodes[j];
        if node.element && !has_element_child(nodes, j) && node.text.is_some() && !is_skipped(
            node.name.as_str(),
        ) {
            let val = match &node.text {
                Some(s) => s.clone(),
                None => String::new(),
            };
            let tag = node.name.as_str();
            let n = match parse_i64(&chars_of(val.as_str())) {
                Some(v) => v,
                None => 0,
            };
            let ghost old_props = pairs_view(ent.props@);
            let ghost item = (tag@, val@);
            if str_eq(tag, "ActiveMessageCount") {
                ent.active = n;
            } else if str_eq(tag, "DeadLetterMessageCount") {
                ent.dead_letter = n;
            } else if str_eq(tag, "ScheduledMessageCount") {
                ent.scheduled = n;
            } else if str_eq(tag, "MessageCount") {
                ent.total = n;
            } else if str_eq(tag, "SizeInBytes") {
                ent.size_bytes = n;
            }
            ent.props.push((node.name.clone(), val));
            proof {
                reveal_strlit("ActiveMessageCount");
                reveal_strlit("DeadLetterMessageCount");
                reveal_strlit("ScheduledMessageCount");
                reveal_strlit("MessageCount");
                reveal_strlit("SizeInBytes");
                assert("ActiveMessageCount"@.len() == 18);
                assert("DeadLetterMessageCount"@.len() == 22);
                assert("ScheduledMessageCount"@.len() == 21);
                assert("MessageCount"@.len() == 12);
                assert("SizeInBytes"@.len() == 11);
                assert(pairs_view(ent.props@) =~= old_props.push(item));
                assert(pairs_view(ent.props@).drop_last() =~= old_props);
            }
        }
        j = j + 1;
    }
    ent
}

/// Appends the entities of a parsed feed to `out`; returns how many `entry` nodes it holds.
pub fn parse_feed_nodes(nodes: &Vec<XmlNode>, out: &mut Vec<Entity>) -> (n: usize)
    ensures
        entities_view(final(out)@) == entities_view(old(out)@) + feed_entities(nodes_view(nodes@)),
        n == feed_entities(nodes_view(nodes@)).len(),
{
    let ghost ns = nodes_view(nodes@);
    let ghost start = entities_view(out@);
    let mut n: usize = 0;
    let mut i: usize = 0;
    while i < nodes.len()
        invariant
            i <= nodes.len(),
            ns == nodes_view(nodes@),
            entities_view(out@) == start + feed_upto(ns, i as int),
            n == feed_upto(ns, i as int).len(),
            n <= i,
        decreases nodes.len() - i,
    {
        assert(ns[i as int] == node_view(nodes@[i as int]));
        if node_is(&nodes[i], "entry") {
            let e = entity_at(nodes, i);
            let ghost before = entities_view(out@);
            out.push(e);
            n = n + 1;
            assert(entities_view(out@) =~= before.push(entity_of(ns, i as int)));
            assert(feed_upto(ns, i + 1) == feed_upto(ns, i as int).push(entity_of(ns, i as int)));
            assert(entities_view(out@) =~= start + feed_upto(ns, i + 1));
        }
        i = i + 1;
    }
    n
}

/// Why a feed could not be read.
#[derive(Clone, Debug)]
pub enum FeedError {
    /// The text is not XML; the parser's explanation.
    BadXml(String),
}

/// Parses an ATOM feed of entities, appends them to `out` and returns how many entries
/// the page held.
pub fn parse_feed(xml: &str, out: &mut Vec<Entity>) -> (r: Result<usize, FeedError>)
    ensures
        match r {
            Ok(n) => xml_document_nodes(xml@) matches Some(ns) && entities_view(final(out)@)
                == entities_view(old(out)@) + feed_entities(ns) && n == feed_entities(ns).len(),
            Err(FeedError::BadXml(d)) => xml_document_nodes(xml@) is None && d@ == xml_parse_error(
                xml@,
            ) && final(out)@ == old(out)@,
        },
{
    match parse_xml_nodes(xml) {
        Ok(nodes) => Ok(parse_feed_nodes(&nodes, out)),
        Err(d) => Err(FeedError::BadXml(d)),
    }
}

} // verus!
