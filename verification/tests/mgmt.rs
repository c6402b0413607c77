use base64::Engine;
use hmac::Mac;
use sbx::connection::{parse_connection_string, ConnStrError};
use sbx::feed::{parse_feed, FeedError};
use sbx::mgmt::{
    check_response, create_body, editable_fields, entity_from_feed, entity_query, list_query,
    subscriptions_resource, update_body, xml_escape, Entity, HttpMethod, ListPager, MgmtClient,
    MgmtError,
};
use sbx::num::{parse_i64, parse_u64};

#[test]
fn parses_connection_string() {
    let (ns, kn, k, ep) = parse_connection_string(
        "Endpoint=sb://foo.servicebus.windows.net/;SharedAccessKeyName=Root;SharedAccessKey=abc+d=;EntityPath=my-queue",
    )
    .unwrap();
    assert_eq!(ns, "foo.servicebus.windows.net");
    assert_eq!(kn, "Root");
    assert_eq!(k, "abc+d=");
    assert_eq!(ep.as_deref(), Some("my-queue"));
}

#[test]
fn parses_feed() {
    let xml = r#"<feed xmlns="http://www.w3.org/2005/Atom"><entry><title>orders</title><content type="application/xml"><QueueDescription xmlns="http://schemas.microsoft.com/netservices/2010/10/servicebus/connect" xmlns:d2p1="http://schemas.microsoft.com/netservices/2011/06/servicebus"><MaxDeliveryCount>10</MaxDeliveryCount><CountDetails><d2p1:ActiveMessageCount>5</d2p1:ActiveMessageCount><d2p1:DeadLetterMessageCount>2</d2p1:DeadLetterMessageCount></CountDetails></QueueDescription></content></entry></feed>"#;
    let mut v = Vec::new();
    assert_eq!(parse_feed(xml, &mut v).unwrap(), 1);
    assert_eq!(v[0].name, "orders");
    assert_eq!(v[0].active, 5);
    assert_eq!(v[0].dead_letter, 2);
    assert!(v[0].props.iter().any(|(k, val)| k == "MaxDeliveryCount" && val == "10"));
}

#[test]
fn connection_string_errors_come_in_order() {
    assert_eq!(
        parse_connection_string("SharedAccessKeyName=a;SharedAccessKey=b").unwrap_err(),
        ConnStrError::MissingEndpoint
    );
    assert_eq!(
        parse_connection_string("Endpoint=sb://x/;SharedAccessKey=b").unwrap_err(),
        ConnStrError::MissingKeyName
    );
    assert_eq!(
        parse_connection_string("Endpoint=sb://x/;SharedAccessKeyName=a").unwrap_err(),
        ConnStrError::MissingKey
    );
    assert_eq!(ConnStrError::MissingEndpoint.message(), "connection string missing Endpoint");
    assert_eq!(ConnStrError::MissingKeyName.message(), "missing SharedAccessKeyName");
    assert_eq!(ConnStrError::MissingKey.message(), "missing SharedAccessKey");
    assert_eq!(parse_connection_string("").unwrap_err(), ConnStrError::MissingEndpoint);
}

#[test]
fn connection_string_trims_and_last_value_wins() {
    let (ns, kn, k, ep) = parse_connection_string(
        "  Endpoint = sb://sb://ns.example.net// ; SharedAccessKeyName=first;junk;SharedAccessKeyName= second ;SharedAccessKey= k=== ;",
    )
    .unwrap();
    assert_eq!(ns, "ns.example.net");
    assert_eq!(kn, "second");
    assert_eq!(k, "k===");
    assert_eq!(ep, None);
}

#[test]
fn parses_integers_like_str_parse() {
    let c = |s: &str| s.chars().collect::<Vec<char>>();
    assert_eq!(parse_i64(&c("42")), Some(42));
    assert_eq!(parse_i64(&c("+42")), Some(42));
    assert_eq!(parse_i64(&c("-42")), Some(-42));
    assert_eq!(parse_i64(&c("-9223372036854775808")), Some(i64::MIN));
    assert_eq!(parse_i64(&c("9223372036854775807")), Some(i64::MAX));
    assert_eq!(parse_i64(&c("9223372036854775808")), None);
    assert_eq!(parse_i64(&c("")), None);
    assert_eq!(parse_i64(&c("-")), None);
    assert_eq!(parse_i64(&c("1 ")), None);
    assert_eq!(parse_u64(&c("-1")), None);
    assert_eq!(parse_u64(&c("18446744073709551615")), Some(u64::MAX));
    assert_eq!(parse_u64(&c("18446744073709551616")), None);
    for s in ["0", "007", "+0", "-0", "12a", "99999999999999999999", "-5"] {
        assert_eq!(parse_i64(&c(s)), s.parse::<i64>().ok(), "{s}");
        assert_eq!(parse_u64(&c(s)), s.parse::<u64>().ok(), "{s}");
    }
}

#[test]
fn feed_with_many_entries_and_counts() {
    let xml = r#"<feed xmlns="http://www.w3.org/2005/Atom"><id>x</id><title>Queues</title>
<entry><id>1</id><title>a</title><updated>t</updated><content type="application/xml"><QueueDescription xmlns="urn:sb"><SizeInBytes>123</SizeInBytes><MessageCount>7</MessageCount><CountDetails><ScheduledMessageCount>3</ScheduledMessageCount><ActiveMessageCount>oops</ActiveMessageCount></CountDetails><Status>Active</Status><Empty/></QueueDescription></content></entry>
<entry><content type="application/xml"><TopicDescription xmlns="urn:sb"><ActiveMessageCount>1</ActiveMessageCount><ActiveMessageCount>9</ActiveMessageCount></TopicDescription></content></entry>
</feed>"#;
    let mut v = vec![Entity::named("existing".to_string())];
    assert_eq!(parse_feed(xml, &mut v).unwrap(), 2);
    assert_eq!(v.len(), 3);
    assert_eq!(v[0].name, "existing");
    let a = &v[1];
    assert_eq!(a.name, "a");
    assert_eq!(a.size_bytes, 123);
    assert_eq!(a.total, 7);
    assert_eq!(a.scheduled, 3);
    assert_eq!(a.active, 0);
    let keys: Vec<&str> = a.props.iter().map(|(k, _)| k.as_str()).collect();
    assert_eq!(keys, vec!["SizeInBytes", "MessageCount", "ScheduledMessageCount", "ActiveMessageCount", "Status"]);
    let b = &v[2];
    assert_eq!(b.name, "");
    assert_eq!(b.active, 9);
}

#[test]
fn bad_xml_is_refused_and_leaves_the_list() {
    let mut v = Vec::new();
    assert!(parse_feed("<feed", &mut v).is_err());
    assert!(v.is_empty());
}

#[test]
fn entity_from_feed_names_and_errors() {
    let xml = r#"<entry xmlns="http://www.w3.org/2005/Atom"><content><QueueDescription xmlns="urn:sb"><MaxDeliveryCount>4</MaxDeliveryCount></QueueDescription></content></entry>"#;
    let e = entity_from_feed(xml, "orders").unwrap();
    assert_eq!(e.name, "orders");
    assert_eq!(e.props, vec![("MaxDeliveryCount".to_string(), "4".to_string())]);
    match entity_from_feed(r#"<feed xmlns="http://www.w3.org/2005/Atom"/>"#, "q") {
        Err(err @ MgmtError::NotFound(_)) => assert_eq!(err.message(), "entity not found: q"),
        _ => panic!("expected NotFound"),
    }
    match entity_from_feed("not xml", "q") {
        Err(err @ MgmtError::BadXml(_)) => assert!(err.message().starts_with("bad ATOM XML: ")),
        _ => panic!("expected BadXml"),
    }
}

#[test]
fn editable_fields_per_kind() {
    assert_eq!(editable_fields("QueueDescription").len(), 16);
    assert_eq!(editable_fields("QueueDescription")[0], "LockDuration");
    assert_eq!(editable_fields("TopicDescription").len(), 10);
    assert_eq!(editable_fields("TopicDescription")[6], "SupportOrdering");
    assert_eq!(editable_fields("SubscriptionDescription").len(), 11);
    assert_eq!(editable_fields("anything")[4], "DeadLetteringOnFilterEvaluationExceptions");
}

#[test]
fn escapes_and_bodies() {
    assert_eq!(xml_escape("a<b>&c"), "a&lt;b&gt;&amp;c");
    assert_eq!(xml_escape("&lt;"), "&amp;lt;");
    let escaped = xml_escape("</UserMetadata><Status>Disabled</Status>");
    assert!(!escaped.contains('<') && !escaped.contains('>'));
    assert_eq!(
        create_body("QueueDescription"),
        r#"<entry xmlns="http://www.w3.org/2005/Atom"><content type="application/xml"><QueueDescription xmlns:i="http://www.w3.org/2001/XMLSchema-instance" xmlns="http://schemas.microsoft.com/netservices/2010/10/servicebus/connect"/></content></entry>"#
    );
    let fields = vec![
        ("LockDuration".to_string(), "PT1M".to_string()),
        ("ForwardTo".to_string(), String::new()),
        ("UserMetadata".to_string(), "a<b".to_string()),
    ];
    assert_eq!(
        update_body("QueueDescription", &fields),
        r#"<entry xmlns="http://www.w3.org/2005/Atom"><content type="application/xml"><QueueDescription xmlns:i="http://www.w3.org/2001/XMLSchema-instance" xmlns="http://schemas.microsoft.com/netservices/2010/10/servicebus/connect"><LockDuration>PT1M</LockDuration><UserMetadata>a&lt;b</UserMetadata></QueueDescription></content></entry>"#
    );
}

#[test]
fn queries_and_resources() {
    assert_eq!(entity_query("orders"), "orders?api-version=2021-05");
    assert_eq!(list_query("$Resources/Queues", 200), "$Resources/Queues?api-version=2021-05&$top=100&$skip=200");
    assert_eq!(subscriptions_resource("t"), "t/Subscriptions");
}

#[test]
fn responses_are_checked() {
    assert_eq!(check_response(200, "200 OK", "body".to_string()), Ok("body".to_string()));
    assert_eq!(check_response(299, "299", "b".to_string()), Ok("b".to_string()));
    assert_eq!(
        check_response(404, "404 Not Found", "nope".to_string()),
        Err("HTTP 404 Not Found: nope".to_string())
    );
    let long: String = "x".repeat(500);
    let err = check_response(401, "401 Unauthorized", long).unwrap_err();
    assert!(err.starts_with(&format!("HTTP 401 Unauthorized: {}\nHint:", "x".repeat(400))));
    assert!(err.ends_with("WITHOUT an EntityPath."));
}

#[test]
fn sas_token_matches_the_crates() {
    let c = MgmtClient::new("Endpoint=sb://ns.servicebus.windows.net/;SharedAccessKeyName=Root;SharedAccessKey=s3cr3t+/=").unwrap();
    let uri = "https://NS.servicebus.windows.net/Orders";
    let token = c.sas_token_at(uri, 1_700_000_000);
    let sr = urlencoding::encode(&uri.to_lowercase()).into_owned();
    let expiry = 1_700_003_600u64;
    let mut mac = hmac::Hmac::<sha2::Sha256>::new_from_slice(b"s3cr3t+/=").unwrap();
    mac.update(format!("{sr}\n{expiry}").as_bytes());
    let sig = base64::engine::general_purpose::STANDARD.encode(mac.finalize().into_bytes());
    let expected = format!(
        "SharedAccessSignature sr={sr}&sig={}&se={expiry}&skn=Root",
        urlencoding::encode(&sig)
    );
    assert_eq!(token, expected);
    assert!(token.starts_with("SharedAccessSignature sr=https%3A%2F%2Fns.servicebus.windows.net%2Forders&sig="));
    let saturated = c.sas_token_at(uri, u64::MAX - 10);
    assert!(saturated.contains(&format!("&se={}&", u64::MAX)));
}

#[test]
fn requests_are_signed_for_the_path() {
    let c = MgmtClient::new("Endpoint=sb://ns.servicebus.windows.net/;SharedAccessKeyName=Root;SharedAccessKey=k").unwrap();
    let r = c.request(HttpMethod::Get, "q?api-version=2021-05", None, false, 42);
    assert_eq!(r.url, "https://ns.servicebus.windows.net/q?api-version=2021-05");
    assert_eq!(r.authorization, c.sas_token_at("https://ns.servicebus.windows.net/q", 42));
    assert_eq!(r.method, HttpMethod::Get);
    assert!(!r.if_match);
    let r = c.request(HttpMethod::Put, "q", Some("b".to_string()), true, 42);
    assert_eq!(r.authorization, c.sas_token_at("https://ns.servicebus.windows.net/q", 42));
    assert!(r.if_match);
    assert_eq!(r.body.as_deref(), Some("b"));
    let now = c.request(HttpMethod::Delete, "q", None, false, sbx::clock::now_secs().unwrap());
    assert!(now.authorization.starts_with("SharedAccessSignature sr=https%3A%2F%2Fns.servicebus.windows.net%2Fq&sig="));
}

fn page(n: usize) -> String {
    let mut s = String::from(r#"<feed xmlns="http://www.w3.org/2005/Atom">"#);
    for i in 0..n {
        s.push_str(&format!("<entry><title>e{i}</title></entry>"));
    }
    s.push_str("</feed>");
    s
}

#[test]
fn listing_pages_until_a_short_page() {
    let mut p = ListPager::new("$Resources/Queues");
    assert_eq!(p.next_query(), "$Resources/Queues?api-version=2021-05&$top=100&$skip=0");
    assert_eq!(p.on_page(&page(100)).unwrap(), false);
    assert_eq!(p.next_query(), "$Resources/Queues?api-version=2021-05&$top=100&$skip=100");
    assert_eq!(p.on_page(&page(3)).unwrap(), true);
    assert_eq!(p.entities.len(), 103);
    assert_eq!(p.entities[102].name, "e2");
}

#[test]
fn listing_stops_at_the_cap() {
    let mut p = ListPager::new("t/Subscriptions");
    let full = page(100);
    let mut pages = 0;
    loop {
        pages += 1;
        if p.on_page(&full).unwrap() {
            break;
        }
    }
    assert_eq!(pages, 20);
    assert_eq!(p.entities.len(), 2000);
    assert!(p.on_page("<oops").is_err());
    assert_eq!(p.entities.len(), 2000);
}

fn client() -> MgmtClient {
    MgmtClient::new("Endpoint=sb://ns.servicebus.windows.net/;SharedAccessKeyName=Root;SharedAccessKey=k").unwrap()
}

#[test]
fn client_operations_build_their_requests() {
    let c = client();
    let g = c.get_entity("orders", 7);
    assert_eq!(g.method, HttpMethod::Get);
    assert_eq!(g.url, "https://ns.servicebus.windows.net/orders?api-version=2021-05");
    assert!(g.body.is_none() && !g.if_match);
    assert!(g.authorization.starts_with("SharedAccessSignature sr=https%3A%2F%2Fns.servicebus.windows.net%2Forders&sig="));
    assert!(g.authorization.ends_with("&skn=Root"));

    let cr = c.create("t/Subscriptions/s", "SubscriptionDescription", 7);
    assert_eq!(cr.method, HttpMethod::Put);
    assert_eq!(cr.url, "https://ns.servicebus.windows.net/t/Subscriptions/s?api-version=2021-05");
    assert_eq!(cr.body, Some(create_body("SubscriptionDescription")));
    assert!(!cr.if_match);

    let fields = vec![("MaxDeliveryCount".to_string(), "7".to_string())];
    let up = c.update_entity("orders", "QueueDescription", &fields, 7);
    assert_eq!(up.method, HttpMethod::Put);
    assert!(up.if_match);
    assert_eq!(up.body, Some(update_body("QueueDescription", &fields)));

    let d = c.delete("orders", 7);
    assert_eq!(d.method, HttpMethod::Delete);
    assert_eq!(d.url, "https://ns.servicebus.windows.net/orders?api-version=2021-05");
    assert!(d.body.is_none() && !d.if_match);
}

#[test]
fn client_listings_start_empty() {
    let c = client();
    let q = c.list_queues();
    assert_eq!(q.next_query(), "$Resources/Queues?api-version=2021-05&$top=100&$skip=0");
    assert!(q.entities.is_empty());
    assert_eq!(c.list_topics().resource, "$Resources/Topics");
    assert_eq!(c.list_subscriptions("events").resource, "events/Subscriptions");
    let r = q.next_request(&c, 7);
    assert_eq!(r.method, HttpMethod::Get);
    assert_eq!(r.url, "https://ns.servicebus.windows.net/$Resources/Queues?api-version=2021-05&$top=100&$skip=0");
    assert!(r.authorization.starts_with("SharedAccessSignature sr=https%3A%2F%2Fns.servicebus.windows.net%2F%24resources%2Fqueues&sig="));
}

#[test]
fn connection_string_part_order_does_not_matter() {
    let a = parse_connection_string(
        "Endpoint=sb://foo.servicebus.windows.net/;SharedAccessKeyName=Root;SharedAccessKey=abc+d=;EntityPath=q",
    )
    .unwrap();
    let b = parse_connection_string(
        "EntityPath=q;TransportType=Amqp;SharedAccessKey=abc+d=;junk;Endpoint=sb://foo.servicebus.windows.net/;SharedAccessKeyName=Root",
    )
    .unwrap();
    assert_eq!(a, b);
}

#[test]
fn escaping_splits_and_leaves_plain_text() {
    assert_eq!(xml_escape("a<b&c>"), format!("{}{}", xml_escape("a<b"), xml_escape("&c>")));
    assert_eq!(xml_escape("plain text 123"), "plain text 123");
    let back = xml_escape("x&lt;<>&").replace("&lt;", "<").replace("&gt;", ">").replace("&amp;", "&");
    assert_eq!(back, "x&lt;<>&");
}

#[test]
fn parser_errors_carry_roxmltrees_message() {
    let mut v = Vec::new();
    match parse_feed("<feed", &mut v) {
        Err(FeedError::BadXml(d)) => assert_eq!(d, roxmltree::Document::parse("<feed").unwrap_err().to_string()),
        Ok(_) => panic!("expected an error"),
    }
}

#[test]
fn ascii_uris_sign_like_their_lower_case() {
    let c = client();
    assert_eq!(
        c.sas_token_at("https://NS.servicebus.windows.net/Orders", 5),
        c.sas_token_at("https://ns.servicebus.windows.net/orders", 5)
    );
}
