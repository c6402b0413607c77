use sbx::clock::hms_utc;
use sbx::explorer::{connection_label, is_logged, remember_connection, Config, Explorer, Sel, Tab};
use sbx::mgmt::Entity;
use sbx::strmap::StrMap;
use sbx::views::{
    body_text, connect_command, counts_label, create_command, display_body, edit_fields,
    expires_text, first_chars, human_bytes, info_props, new_entity_title, purge_question,
    receive_question, short_namespace,
};
use sbx::worker::{Cmd, Evt, MsgView, Target};

fn strings(v: &[&str]) -> Vec<String> {
    v.iter().map(|s| s.to_string()).collect()
}

#[test]
fn recent_connections_are_most_recent_first() {
    let r = remember_connection(&strings(&["a", "b", "c"]), &"b".to_string());
    assert_eq!(r, strings(&["b", "a", "c"]));
    let many: Vec<String> = (0..12).map(|i| format!("c{i}")).collect();
    let r = remember_connection(&many, &"new".to_string());
    assert_eq!(r.len(), 10);
    assert_eq!(r[0], "new");
    assert_eq!(r[9], "c8");
    let r = remember_connection(&vec![], &"x".to_string());
    assert_eq!(r, strings(&["x"]));
}

fn explorer() -> Explorer {
    Explorer::new(Config { connections: strings(&["cs1", "cs0"]), dark: true })
}

#[test]
fn a_new_explorer() {
    let e = explorer();
    assert_eq!(e.conn_str, "cs1");
    assert_eq!(e.status, "Not connected. Paste a connection string and hit Connect.");
    assert_eq!(e.peek_max, 32);
    assert_eq!(e.out.count, 1);
    assert_eq!(e.out.content_type, "application/json");
    assert!(e.show_connect);
    assert_eq!(e.sel, Sel::Nothing);
    assert!(e.tab == Tab::Overview);
    let empty = Explorer::new(Config::default());
    assert_eq!(empty.conn_str, "");
}

fn ent(name: &str, active: i64, dlq: i64) -> Entity {
    let mut e = Entity::named(name.to_string());
    e.active = active;
    e.dead_letter = dlq;
    e
}

fn loaded() -> Explorer {
    let mut e = explorer();
    let mut subs = StrMap::new();
    subs.insert("events".to_string(), vec![ent("Audit", 1, 2), ent("billing", 0, 0)]);
    e.apply_event_at(
        Evt::Entities {
            queues: vec![ent("Orders", 5, 1), ent("payments", 0, 3)],
            topics: vec![ent("events", 0, 0), ent("other", 0, 0)],
            subs,
        },
        "00:00:00".to_string(),
    );
    e
}

#[test]
fn events_update_the_state() {
    let mut e = explorer();
    e.conn_str = "cs0".to_string();
    assert!(e.apply_event_at(Evt::Connected("ns".to_string()), "t".to_string()));
    assert_eq!(e.connected_ns.as_deref(), Some("ns"));
    assert_eq!(e.config.connections, strings(&["cs0", "cs1"]));
    assert!(!e.apply_event_at(Evt::Status("ok".to_string()), "12:00:00".to_string()));
    assert_eq!(e.status, "ok");
    assert!(!e.status_is_error);
    assert!(!e.apply_event_at(Evt::Error("bad".to_string()), "12:00:01".to_string()));
    assert!(e.status_is_error);
    assert_eq!(e.log, vec![
        ("12:00:00".to_string(), "ok".to_string(), false),
        ("12:00:01".to_string(), "bad".to_string(), true),
    ]);
    e.apply_event_at(Evt::Busy(true), String::new());
    e.apply_event_at(Evt::Busy(true), String::new());
    e.apply_event_at(Evt::Busy(false), String::new());
    assert_eq!(e.busy, 1);
    e.selected_row = Some(3);
    let msg = MsgView { seq: 7, ..Default::default() };
    e.apply_event_at(Evt::Messages { key: "q".to_string(), dlq: true, msgs: vec![msg] }, String::new());
    assert_eq!(e.selected_row, None);
    assert_eq!(e.messages_for("q", true).unwrap()[0].seq, 7);
    assert!(e.messages_for("q", false).is_none());
    e.apply_events(vec![(Evt::Status("now".to_string()), sbx::clock::now_hms_utc().unwrap())]);
    assert_eq!(e.log.len(), 3);
    assert_eq!(e.log[2].0.len(), 8);
    e.disconnect();
    assert_eq!(e.status, "Disconnected.");
    assert!(e.messages_for("q", true).is_none());
    assert_eq!(e.connected_ns, None);
    assert_eq!(e.log.len(), 3);
}

#[test]
fn selection_finds_entities() {
    let mut e = loaded();
    assert!(e.selected_entity().is_none());
    assert!(e.target().is_none());
    e.sel = Sel::Queue("payments".to_string());
    assert_eq!(e.selected_entity().unwrap().dead_letter, 3);
    assert_eq!(e.target(), Some(Target::Queue("payments".to_string())));
    assert_eq!(e.in_entity_count(true), 3);
    e.sel = Sel::Sub { topic: "events".to_string(), name: "billing".to_string() };
    assert_eq!(e.selected_entity().unwrap().name, "billing");
    assert_eq!(e.send_destination().as_deref(), Some("events"));
    let (path, tag, label) = e.selection().unwrap();
    assert_eq!(path, "events/Subscriptions/billing");
    assert_eq!(tag, "SubscriptionDescription");
    assert_eq!(label, "subscription 'events/billing'");
    match e.delete_confirm() {
        Some((q, Cmd::DeleteEntity(p))) => {
            assert_eq!(q, "Delete subscription 'events/billing'?");
            assert_eq!(p, "events/Subscriptions/billing");
        }
        _ => panic!("expected a delete"),
    }
    assert_eq!(e.kind_title(), Some(("SUBSCRIPTION", "events / billing".to_string())));
    e.sel = Sel::Topic("other".to_string());
    assert!(e.target().is_none());
    assert_eq!(e.selection().unwrap().2, "topic 'other' (and all subscriptions)");
    e.sel = Sel::Queue("missing".to_string());
    assert!(e.selected_entity().is_none());
    assert_eq!(e.in_entity_count(false), 0);
}

#[test]
fn tree_filter_is_case_insensitive() {
    let mut e = loaded();
    assert_eq!(e.visible_queues().len(), 2);
    e.filter = "ORD".to_string();
    assert_eq!(e.visible_queues(), vec![("Orders".to_string(), 5, 1)]);
    assert!(e.visible_topics().is_empty());
    e.filter = "audit".to_string();
    assert_eq!(e.visible_topics(), strings(&["events"]));
    assert_eq!(e.subscription_rows("events").len(), 2);
    assert!(e.subscription_rows("none").is_empty());
    e.filter = "Ot".to_string();
    assert_eq!(e.visible_topics(), strings(&["other"]));
}

#[test]
fn connection_labels() {
    assert_eq!(connection_label("Endpoint=sb://ns.x.net/;SharedAccessKey=1"), "ns.x.net");
    assert_eq!(connection_label("SharedAccessKey=1; Endpoint=sb://a/"), "connection");
    assert_eq!(connection_label("a;Endpoint=sb://b//"), "b");
}

#[test]
fn settings_editor_rows() {
    let props = vec![
        ("Status".to_string(), "Active".to_string()),
        ("SizeInBytes".to_string(), "10".to_string()),
        ("Status".to_string(), "Disabled".to_string()),
    ];
    let editable = vec!["LockDuration", "Status"];
    assert_eq!(
        edit_fields(&editable, &props),
        vec![("LockDuration".to_string(), String::new()), ("Status".to_string(), "Active".to_string())]
    );
    assert_eq!(info_props(&props, &editable), vec![("SizeInBytes".to_string(), "10".to_string())]);
}

#[test]
fn dialogs() {
    assert_eq!(new_entity_title("queue", ""), "New queue");
    assert_eq!(new_entity_title("subscription", "t"), "New subscription on t");
    assert!(create_command("queue", "", "   ").is_none());
    match create_command("queue", "", "  q1 ") {
        Some(Cmd::CreateQueue(n)) => assert_eq!(n, "q1"),
        _ => panic!(),
    }
    match create_command("subscription", "t", "s") {
        Some(Cmd::CreateSubscription { topic, name }) => {
            assert_eq!(topic, "t");
            assert_eq!(name, "s");
        }
        _ => panic!(),
    }
    assert_eq!(receive_question(32, "q", true), "Receive & DELETE up to 32 message(s) from q (DLQ)?");
    assert_eq!(purge_question("t/s", false), "Purge ALL messages from t/s?");
    assert_eq!(counts_label(3, -1), "3 loaded \u{b7} -1 in entity");
    assert_eq!(expires_text("9999-12-31"), "never");
    assert_eq!(expires_text("2024-01-01"), "2024-01-01");
    assert_eq!(short_namespace("ns.servicebus.windows.net"), "ns");
    assert_eq!(short_namespace("plain"), "plain");
}

fn float_bytes(b: i64) -> String {
    match b {
        b if b >= 1_048_576 => format!("{:.1} MB", b as f64 / 1_048_576.0),
        b if b >= 1024 => format!("{:.1} KB", b as f64 / 1024.0),
        b => format!("{b} B"),
    }
}

#[test]
fn human_bytes_matches_float_formatting() {
    assert_eq!(human_bytes(0), "0 B");
    assert_eq!(human_bytes(-5), "-5 B");
    assert_eq!(human_bytes(1023), "1023 B");
    assert_eq!(human_bytes(1024), "1.0 KB");
    assert_eq!(human_bytes(1536), "1.5 KB");
    assert_eq!(human_bytes(1_048_576), "1.0 MB");
    let mut samples: Vec<i64> = vec![
        i64::MIN, -1, 1, 1000, 1075, 1126, 1177, 10_239, 10_291, 1_048_575, 1_101_005, 1_153_433,
        9_007_199_254_740_993, 9_007_199_254_740_995, i64::MAX, i64::MAX - 1_000_000,
        (1i64 << 62) + 12345, 123_456_789_012, 1_048_576 * 5 + 52_428,
    ];
    for i in 0..2000i64 {
        samples.push(1024 + i * 37);
        samples.push(1_048_576 + i * 52_429);
        samples.push(i * 1_000_003_001);
    }
    for b in samples {
        assert_eq!(human_bytes(b), float_bytes(b), "{b}");
    }
}

#[test]
fn time_of_day() {
    assert_eq!(hms_utc(0), "00:00:00");
    assert_eq!(hms_utc(3661), "01:01:01");
    assert_eq!(hms_utc(86_399), "23:59:59");
    assert_eq!(hms_utc(86_400 + 45), "00:00:45");
}

#[test]
fn string_map_reads_back_writes() {
    let mut m: StrMap<i32> = StrMap::new();
    assert!(m.get("a").is_none());
    m.insert("a".to_string(), 1);
    m.insert("b".to_string(), 2);
    m.insert("a".to_string(), 3);
    assert_eq!(m.get("a"), Some(&3));
    assert_eq!(m.get("b"), Some(&2));
    m.clear();
    assert!(m.get("b").is_none());
}

#[test]
fn connect_command_trims() {
    match connect_command("  Endpoint=sb://x/;a=b \n") {
        Some(Cmd::Connect(c)) => assert_eq!(c, "Endpoint=sb://x/;a=b"),
        _ => panic!("expected a connection"),
    }
    assert!(connect_command("   ").is_none());
    assert!(connect_command("").is_none());
}

#[test]
fn first_chars_cuts_long_text() {
    assert_eq!(first_chars("2024-01-02 03:04:05.123456789 +00:00:00", 23), "2024-01-02 03:04:05.123");
    assert_eq!(first_chars("short", 23), "short");
    assert_eq!(first_chars("h\u{e9}llo", 2), "h\u{e9}");
}

#[test]
fn json_bodies_are_pretty_printed() {
    assert_eq!(display_body("{\"a\":1,\"b\":[true]}"), "{\n  \"a\": 1,\n  \"b\": [\n    true\n  ]\n}");
    assert_eq!(display_body("not json"), "not json");
    assert_eq!(body_text("raw", None), "raw");
    assert_eq!(body_text("raw", Some("shown".to_string())), "shown");
}

#[test]
fn a_message_loads_into_the_send_form() {
    let mut e = explorer();
    e.out.message_id = "keep".to_string();
    let m = MsgView {
        body: "{}".to_string(),
        subject: "s".to_string(),
        content_type: "text/plain".to_string(),
        props: vec![("k".to_string(), "v".to_string())],
        ..Default::default()
    };
    e.load_into_send(&m);
    assert_eq!(e.out.body, "{}");
    assert_eq!(e.out.subject, "s");
    assert_eq!(e.out.content_type, "text/plain");
    assert_eq!(e.out.props, vec![("k".to_string(), "v".to_string())]);
    assert_eq!(e.out.message_id, "keep");
    assert_eq!(e.out.count, 1);
    assert!(e.tab == Tab::Send);
}

#[test]
fn connecting_twice_keeps_the_history() {
    let once = remember_connection(&strings(&["a", "b", "c"]), &"c".to_string());
    let twice = remember_connection(&once, &"c".to_string());
    assert_eq!(once, strings(&["c", "a", "b"]));
    assert_eq!(twice, once);
    let mut e = explorer();
    e.conn_str = "cs0".to_string();
    e.apply_event_at(Evt::Connected("ns".to_string()), String::new());
    let first = e.config.connections.clone();
    e.apply_event_at(Evt::Connected("ns".to_string()), String::new());
    assert_eq!(e.config.connections, first);
    assert_eq!(e.config.connections[0], "cs0");
}

#[test]
fn busy_reports_balance() {
    let mut e = explorer();
    e.apply_event_at(Evt::Busy(true), String::new());
    e.apply_event_at(Evt::Busy(false), String::new());
    assert_eq!(e.busy, 0);
    e.apply_event_at(Evt::Busy(false), String::new());
    e.apply_event_at(Evt::Busy(true), String::new());
    assert_eq!(e.busy, 0);
}

#[test]
fn topics_have_no_message_tabs() {
    let mut e = loaded();
    e.sel = Sel::Topic("events".to_string());
    assert!(e.tabs() == vec![Tab::Overview, Tab::Send]);
    e.sel = Sel::Queue("Orders".to_string());
    assert!(e.tabs() == vec![Tab::Overview, Tab::Messages, Tab::DeadLetter, Tab::Send]);
}

#[test]
fn a_batch_of_reports_is_taken_in_order() {
    let mut e = explorer();
    e.conn_str = "cs0".to_string();
    let save = e.apply_events(timed(vec![
        Evt::Busy(true),
        Evt::Status("one".to_string()),
        Evt::Busy(true),
        Evt::Error("two".to_string()),
        Evt::Busy(false),
    ]));
    assert!(!save);
    assert_eq!(e.busy, 1);
    assert_eq!(e.status, "two");
    assert!(e.status_is_error);
    assert_eq!(e.log.len(), 2);
    let mut f = explorer();
    f.conn_str = "cs0".to_string();
    assert!(f.apply_events(timed(vec![Evt::Busy(true), Evt::Status("one".to_string())])) == false);
    f.apply_events(timed(vec![Evt::Busy(true), Evt::Error("two".to_string()), Evt::Busy(false)]));
    assert_eq!(f.busy, e.busy);
    assert_eq!(f.status, e.status);
    assert!(f.apply_events(timed(vec![Evt::Connected("ns".to_string())])));
    assert_eq!(f.config.connections[0], "cs0");
}

fn timed(evts: Vec<Evt>) -> Vec<(Evt, String)> {
    evts.into_iter().map(|e| (e, "01:02:03".to_string())).collect()
}

#[test]
fn logged_reports_need_a_time() {
    assert!(is_logged(&Evt::Status(String::new())));
    assert!(is_logged(&Evt::Error(String::new())));
    assert!(!is_logged(&Evt::Busy(true)));
    assert_eq!(hms_utc(3600 * 25 + 61), "01:01:01");
    assert_eq!(sbx::clock::now_hms_utc().unwrap().len(), 8);
}

#[test]
fn selection_and_dialog_state() {
    let mut e = loaded();
    e.selected_row = Some(2);
    e.tab = Tab::Send;
    e.select(Sel::Topic("events".to_string()));
    assert!(e.tab == Tab::Overview);
    assert_eq!(e.selected_row, Some(2));
    e.select(Sel::Queue("Orders".to_string()));
    assert_eq!(e.selected_row, None);
    e.open_new_entity("subscription", "events");
    assert_eq!(e.new_entity, Some(("subscription".to_string(), "events".to_string(), String::new())));
    let editable = vec!["LockDuration", "MaxDeliveryCount"];
    let props = vec![("MaxDeliveryCount".to_string(), "10".to_string())];
    e.edit_buffer("Orders".to_string(), &editable, &props);
    assert_eq!(e.edit.as_ref().unwrap().1[1].1, "10");
    e.edit.as_mut().unwrap().1[1].1 = "7".to_string();
    e.edit_buffer("Orders".to_string(), &editable, &props);
    assert_eq!(e.edit.as_ref().unwrap().1[1].1, "7");
    e.edit_buffer("payments".to_string(), &editable, &props);
    assert_eq!(e.edit.as_ref().unwrap().0, "payments");
    assert_eq!(e.edit.as_ref().unwrap().1[1].1, "10");
    e.confirm = Some(("Delete?".to_string(), Cmd::DeleteEntity("q".to_string())));
    assert!(e.answer_confirm(false).is_none());
    assert!(e.confirm.is_none());
    e.confirm = Some(("Delete?".to_string(), Cmd::DeleteEntity("q".to_string())));
    match e.answer_confirm(true) {
        Some(Cmd::DeleteEntity(p)) => assert_eq!(p, "q"),
        _ => panic!("expected the delete"),
    }
    assert!(e.confirm.is_none());
}

#[test]
fn escaped_text_reads_back_through_replace() {
    for s in ["a<b>&c", "&lt;", "&amp;gt;", "plain", "<<>>&&"] {
        let back = sbx::mgmt::xml_escape(s).replace("&lt;", "<").replace("&gt;", ">").replace("&amp;", "&");
        assert_eq!(back, s);
    }
}
