use peering_diag::lg::query::{extract_pre, parse_traceroute, strip_html, TraceHop};

fn rtts_ms(h: &TraceHop) -> Vec<f64> {
    h.rtt_tokens.iter().filter_map(|t| t.parse::<f64>().ok()).collect()
}

#[test]
fn strip_html_basic() {
    let html = "<pre>traceroute<br/> 1  test.com  1.0 ms</pre>";
    let text = extract_pre(html);
    assert!(text.contains("traceroute"));
    assert!(text.contains("test.com"));
    assert!(!text.contains('<'));
}

#[test]
fn extract_pre_gives_block_content() {
    assert_eq!(extract_pre("<html><PRE class=x>a &amp; b</Pre> tail</html>"), "a & b");
}

#[test]
fn extract_pre_without_block_strips_all() {
    assert_eq!(extract_pre("<p>hop 1</p>"), "hop 1");
    assert_eq!(extract_pre("<pre>never closed"), "never closed");
}

#[test]
fn strip_html_decodes_each_entity_once() {
    assert_eq!(strip_html("&lt;b&gt; &amp;nbsp; x&nbsp;y"), "<b> &nbsp; x y");
    assert_eq!(strip_html("&amp;nbsp; &amp;lt;"), "&nbsp; &lt;");
    assert_eq!(strip_html("&amp;&amp;"), "&&");
    assert_eq!(strip_html("a &lt b"), "a &lt b");
    assert_eq!(strip_html("a<b>c</b>d"), "acd");
    assert_eq!(strip_html(""), "");
}

#[test]
fn parse_standard_traceroute() {
    let input = r#"
traceroute to 1.2.3.4 (1.2.3.4), 30 hops max
 1  router.he.net (216.66.68.1)  0.286 ms  0.262 ms  0.253 ms
 2  * * *
 3  xe-0.r04.amstnl02.nl.bb.gin.ntt.net (129.250.2.1)  5.234 ms  5.198 ms  5.201 ms
 4  10.0.0.1  1.2 ms
"#;
    let hops = parse_traceroute(input);
    assert_eq!(hops.len(), 4);

    assert_eq!(hops[0].ttl, 1);
    assert_eq!(hops[0].host.as_deref(), Some("router.he.net"));
    assert_eq!(rtts_ms(&hops[0]).len(), 3);
    assert!((rtts_ms(&hops[0])[0] - 0.286).abs() < 0.001);

    assert_eq!(hops[1].ttl, 2);
    assert!(hops[1].host.is_none());
    assert!(rtts_ms(&hops[1]).is_empty());

    assert_eq!(hops[2].ttl, 3);
    assert_eq!(hops[2].host.as_deref(), Some("xe-0.r04.amstnl02.nl.bb.gin.ntt.net"));
    assert_eq!(rtts_ms(&hops[2]).len(), 3);

    assert_eq!(hops[3].ttl, 4);
    assert_eq!(hops[3].host.as_deref(), Some("10.0.0.1"));
    assert_eq!(rtts_ms(&hops[3]).len(), 1);
    assert!((rtts_ms(&hops[3])[0] - 1.2).abs() < 0.001);
}

#[test]
fn traceroute_tokens_before_ms_are_kept_as_written() {
    let hops = parse_traceroute(" 7  a.example,  (10.0.0.7)  3.5, ms  *  x 4 ms\n");
    assert_eq!(hops.len(), 1);
    assert_eq!(hops[0].ttl, 7);
    assert_eq!(hops[0].host.as_deref(), Some("a.example"));
    assert_eq!(hops[0].rtt_tokens, vec!["3.5".to_string(), "4".to_string()]);
}

#[test]
fn traceroute_lines_without_ttl_or_host_are_skipped() {
    let hops = parse_traceroute("traceroute to x\n\n 300 host 1 ms\n5\n+6 h\n 7 (a b) c) 9 ms\r\n");
    assert_eq!(hops.len(), 2);
    assert_eq!(hops[0].ttl, 6);
    assert_eq!(hops[0].host.as_deref(), Some("h"));
    assert!(hops[0].rtt_tokens.is_empty());
    assert_eq!(hops[1].ttl, 7);
    assert_eq!(hops[1].host.as_deref(), Some("(a"));
    assert_eq!(hops[1].rtt_tokens, vec!["9".to_string()]);
}

#[test]
fn extract_pre_without_pre_strips_the_whole_text() {
    assert_eq!(extract_pre("<p>a</p> b"), strip_html("<p>a</p> b"));
    assert_eq!(extract_pre("<PRE class=x>a &amp; b</PRE>tail"), "a & b");
}
