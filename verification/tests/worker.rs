use sbx::mgmt::{create_body, update_body, Entity, HttpMethod, MgmtClient, MgmtError};
use sbx::worker::{
    friendly_error, listing_report, mgmt_step, purge_step, refresh_start, scoped_report, Refresh, loaded, peeked, purged, purging, received, resubmit_plan,
    resubmitted, scoped_entity, scoped_status, send_plan, sent, subscription_path,
    Cmd, Evt, MsgView, OutMessage, PeekCursor, Target,
};

#[test]
fn target_keys_and_destinations() {
    let q = Target::Queue("orders".to_string());
    let s = Target::Subscription { topic: "events".to_string(), name: "audit".to_string() };
    assert_eq!(q.key(), "orders");
    assert_eq!(s.key(), "events/audit");
    assert_eq!(q.send_destination(), "orders");
    assert_eq!(s.send_destination(), "events");
}

fn form() -> OutMessage {
    OutMessage {
        body: "{}".to_string(),
        subject: "s".to_string(),
        content_type: String::new(),
        message_id: "id".to_string(),
        correlation_id: "c".to_string(),
        session_id: String::new(),
        ttl_secs: " 30 ".to_string(),
        props: vec![("k".to_string(), "v".to_string()), (String::new(), "x".to_string())],
        count: 3,
    }
}

#[test]
fn send_plan_numbers_the_copies() {
    let plan = send_plan(&form());
    assert_eq!(plan.len(), 3);
    let ids: Vec<_> = plan.iter().map(|p| p.message_id.clone().unwrap()).collect();
    assert_eq!(ids, vec!["id-0", "id-1", "id-2"]);
    for p in &plan {
        assert_eq!(p.body, "{}");
        assert_eq!(p.subject.as_deref(), Some("s"));
        assert_eq!(p.content_type, None);
        assert_eq!(p.correlation_id.as_deref(), Some("c"));
        assert_eq!(p.session_id, None);
        assert_eq!(p.ttl_secs, Some(30));
        assert_eq!(p.props, Some(vec![("k".to_string(), "v".to_string())]));
    }
}

#[test]
fn send_plan_single_and_zero_count() {
    let mut m = form();
    m.count = 0;
    m.ttl_secs = "0".to_string();
    m.props = vec![(String::new(), "x".to_string())];
    let plan = send_plan(&m);
    assert_eq!(plan.len(), 1);
    assert_eq!(plan[0].message_id.as_deref(), Some("id"));
    assert_eq!(plan[0].ttl_secs, None);
    assert_eq!(plan[0].props, Some(vec![]));
    m.props = vec![];
    m.ttl_secs = "abc".to_string();
    let plan = send_plan(&m);
    assert_eq!(plan[0].props, None);
    assert_eq!(plan[0].ttl_secs, None);
}

#[test]
fn resubmit_copies_the_fields() {
    let v = MsgView {
        body: "b".to_string(),
        subject: String::new(),
        content_type: "text/plain".to_string(),
        session: "sess".to_string(),
        correlation: String::new(),
        id: "ignored".to_string(),
        props: vec![(String::new(), "kept".to_string())],
        ..Default::default()
    };
    let plan = resubmit_plan(&vec![v.clone(), MsgView::default()]);
    assert_eq!(plan.len(), 2);
    assert_eq!(plan[0].body, "b");
    assert_eq!(plan[0].subject, None);
    assert_eq!(plan[0].content_type.as_deref(), Some("text/plain"));
    assert_eq!(plan[0].session_id.as_deref(), Some("sess"));
    assert_eq!(plan[0].message_id, None);
    assert_eq!(plan[0].props, Some(vec![(String::new(), "kept".to_string())]));
    assert_eq!(plan[1].props, None);
}

#[test]
fn peek_cursor_pages_in_batches() {
    let mut c = PeekCursor::new(70);
    assert_eq!(c.next_batch(), Some((32, None)));
    c.on_batch(32, 31);
    assert_eq!(c.next_batch(), Some((32, Some(32))));
    c.on_batch(32, 99);
    assert_eq!(c.next_batch(), Some((6, Some(100))));
    c.on_batch(6, 120);
    assert_eq!(c.next_batch(), None);
    let mut d = PeekCursor::new(10);
    d.on_batch(0, 0);
    assert_eq!(d.next_batch(), None);
    let mut e = PeekCursor::new(10);
    e.on_batch(1, i64::MAX);
    assert_eq!(e.from, Some(i64::MIN));
}

#[test]
fn status_lines() {
    assert_eq!(peeked(5), "Peeked 5 message(s)");
    assert_eq!(sent(2, "q"), "Sent 2 message(s) to q");
    assert_eq!(received(0, "t/s", true), "Received & deleted 0 message(s) from t/s (DLQ)");
    assert_eq!(purging(400), "Purging\u{2026} 400 deleted");
    assert_eq!(purged(3, "q", false), "Purged 3 message(s) from q");
    assert_eq!(resubmitted(1, "t"), "Resubmitted 1 message(s) to t");
    assert_eq!(loaded(10, 0), "Loaded 10 queue(s), 0 topic(s)");
    assert_eq!(subscription_path("t", "s"), "t/Subscriptions/s");
    assert!(scoped_status("q").starts_with("Connection string is scoped to 'q' \u{2014} showing"));
}

#[test]
fn missing_claims_get_explained() {
    assert!(friendly_error("Unauthorized access. 'Listen' claim(s) are required".to_string())
        .starts_with("This access key only has Send rights"));
    assert_eq!(
        friendly_error("x 'Send' claim y".to_string()),
        "This access key cannot send \u{2014} it lacks the 'Send' claim."
    );
    assert_eq!(friendly_error("boom".to_string()), "boom");
    assert_eq!(friendly_error(String::new()), "");
}

#[test]
fn scoped_entity_falls_back_to_the_name() {
    let e = scoped_entity("q", Err(MgmtError::Http("HTTP 401".to_string())));
    assert_eq!(e.name, "q");
    assert_eq!(e.active, 0);
    assert!(e.props.is_empty());
    let mut full = Entity::named("real".to_string());
    full.active = 4;
    let e = scoped_entity("q", Ok(full));
    assert_eq!(e.name, "real");
    assert_eq!(e.active, 4);
}

fn client() -> MgmtClient {
    MgmtClient::new("Endpoint=sb://ns.servicebus.windows.net/;SharedAccessKeyName=Root;SharedAccessKey=k").unwrap()
}

#[test]
fn management_commands_make_their_requests() {
    let c = client();
    let (req, status) = mgmt_step(&c, &Cmd::CreateQueue("orders".to_string()), 0).unwrap();
    assert_eq!(req.method, HttpMethod::Put);
    assert_eq!(req.url, "https://ns.servicebus.windows.net/orders?api-version=2021-05");
    assert_eq!(req.body, Some(create_body("QueueDescription")));
    assert_eq!(status, "Created queue orders");

    let (req, status) = mgmt_step(&c, &Cmd::CreateTopic("events".to_string()), 0).unwrap();
    assert_eq!(req.body, Some(create_body("TopicDescription")));
    assert_eq!(status, "Created topic events");

    let cmd = Cmd::CreateSubscription { topic: "events".to_string(), name: "audit".to_string() };
    let (req, status) = mgmt_step(&c, &cmd, 0).unwrap();
    assert_eq!(req.url, "https://ns.servicebus.windows.net/events/Subscriptions/audit?api-version=2021-05");
    assert_eq!(req.body, Some(create_body("SubscriptionDescription")));
    assert_eq!(status, "Created subscription events/audit");

    let (req, status) = mgmt_step(&c, &Cmd::DeleteEntity("events/Subscriptions/audit".to_string()), 0).unwrap();
    assert_eq!(req.method, HttpMethod::Delete);
    assert!(req.body.is_none());
    assert_eq!(status, "Deleted events/Subscriptions/audit");

    let fields = vec![("Status".to_string(), "Disabled".to_string()), ("ForwardTo".to_string(), String::new())];
    let cmd = Cmd::UpdateEntity { path: "orders".to_string(), tag: "QueueDescription".to_string(), fields: fields.clone() };
    let (req, status) = mgmt_step(&c, &cmd, 0).unwrap();
    assert!(req.if_match);
    assert_eq!(req.body, Some(update_body("QueueDescription", &fields)));
    assert_eq!(status, "Updated orders");

    assert!(mgmt_step(&c, &Cmd::Refresh, 0).is_none());
    assert!(mgmt_step(&c, &Cmd::Connect("x".to_string()), 0).is_none());
}

fn named(n: &str) -> Entity {
    Entity::named(n.to_string())
}

#[test]
fn listing_report_maps_topics_to_their_subscriptions() {
    let (status, evt) = listing_report(
        vec![named("q1")],
        vec![named("t1"), named("t2")],
        vec![vec![named("s1"), named("s2")], vec![]],
    );
    assert_eq!(status, "Loaded 1 queue(s), 2 topic(s)");
    match evt {
        Evt::Entities { queues, topics, subs } => {
            assert_eq!(queues.len(), 1);
            assert_eq!(topics[1].name, "t2");
            assert_eq!(subs.get("t1").unwrap()[1].name, "s2");
            assert!(subs.get("t2").unwrap().is_empty());
            assert!(subs.get("t3").is_none());
        }
        _ => panic!("expected the tree"),
    }
}

#[test]
fn scoped_report_shows_the_one_entity() {
    let (status, evt) = scoped_report("orders", Err(MgmtError::Http("HTTP 401".to_string())));
    assert!(status.starts_with("Connection string is scoped to 'orders'"));
    match evt {
        Evt::Entities { queues, topics, subs } => {
            assert_eq!(queues.len(), 1);
            assert_eq!(queues[0].name, "orders");
            assert_eq!(queues[0].active, 0);
            assert!(topics.is_empty());
            assert!(subs.get("orders").is_none());
        }
        _ => panic!("expected the tree"),
    }
    let mut fetched = named("orders");
    fetched.active = 4;
    let (_, evt) = scoped_report("orders", Ok(fetched));
    match evt {
        Evt::Entities { queues, .. } => assert_eq!(queues[0].active, 4),
        _ => panic!("expected the tree"),
    }
}

#[test]
fn purge_steps_count_and_stop() {
    let (t, line) = purge_step(0, 200).unwrap();
    assert_eq!(t, 200);
    assert_eq!(line, "Purging\u{2026} 200 deleted");
    assert_eq!(purge_step(200, 3).unwrap().0, 203);
    assert!(purge_step(203, 0).is_none());
    assert_eq!(purge_step(usize::MAX - 1, 5).unwrap().0, usize::MAX);
}

#[test]
fn refresh_lists_queues_topics_then_subscriptions() {
    let c = client();
    let mut listing = match refresh_start(&c) {
        Refresh::Full(l) => l,
        Refresh::Scoped(_) => panic!("expected a full listing"),
    };
    assert_eq!(listing.next_pager(&c).unwrap().resource, "$Resources/Queues");
    listing.on_listed(vec![named("q")]);
    assert_eq!(listing.next_pager(&c).unwrap().resource, "$Resources/Topics");
    listing.on_listed(vec![named("t1"), named("t2")]);
    assert_eq!(listing.next_pager(&c).unwrap().resource, "t1/Subscriptions");
    listing.on_listed(vec![named("s")]);
    assert_eq!(listing.next_pager(&c).unwrap().resource, "t2/Subscriptions");
    listing.on_listed(vec![]);
    assert!(listing.next_pager(&c).is_none());
    let (status, evt) = listing.report().unwrap();
    assert_eq!(status, "Loaded 1 queue(s), 2 topic(s)");
    match evt {
        Evt::Entities { subs, .. } => assert_eq!(subs.get("t1").unwrap()[0].name, "s"),
        _ => panic!("expected the tree"),
    }
    let scoped = MgmtClient::new("Endpoint=sb://ns/;SharedAccessKeyName=R;SharedAccessKey=k;EntityPath=orders").unwrap();
    match refresh_start(&scoped) {
        Refresh::Scoped(p) => assert_eq!(p, "orders"),
        Refresh::Full(_) => panic!("expected a scoped refresh"),
    }
}
