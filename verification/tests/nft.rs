use minsec::json::{Json, JsonNumber};
use minsec::net::{key_to_nft, net_to_string, parse_ip_net, Addr, Net};
use minsec::nft::{
    json_to_net, Ban, Entry, Nft, NftStep, SetupAction, SetupEvent, SetupState, CROWD_TIMEOUT, TABLE,
};

fn net(s: &str) -> Net {
    parse_ip_net(s).unwrap()
}

fn obj(members: Vec<(&str, Json)>) -> Json {
    Json::Object(members.into_iter().map(|(k, v)| (k.to_string(), v)).collect())
}

fn text(s: &str) -> Json {
    Json::Str(s.to_string())
}

fn num(n: u64) -> Json {
    Json::Number(JsonNumber::Unsigned(n))
}

#[test]
fn parses_list_json() {
    let v = obj(vec![("prefix", obj(vec![("addr", text("2001:db8::")), ("len", num(64))]))]);
    assert_eq!(net_to_string(&json_to_net(&v).unwrap()), "2001:db8::/64");
    let v = text("10.1.2.3");
    assert_eq!(net_to_string(&json_to_net(&v).unwrap()), "10.1.2.3/32");
}

#[test]
fn setup_script_is_scoped_to_our_table() {
    let s = Nft::setup_script();
    assert!(s.lines().all(|l| l.contains("inet minsec")));
    assert!(s.contains("priority -10"));
    // Crowd sets exist (populated by minsec-sync) and are enforced
    // after allow and local bans.
    for set in ["crowd4", "crowd6"] {
        assert!(s.contains(&format!("add set inet minsec {set}")));
        assert!(s.contains(&format!("@{set} counter drop")));
    }
    let allow = s.find("@allow4 accept").unwrap();
    assert!(allow < s.find("@crowd4 counter drop").unwrap());
}

#[test]
fn recreate_script_keeps_elements_and_lifetimes() {
    let entries = vec![
        Entry { net: net("10.9.9.9/32"), expires_in: Some(3599) },
        Entry { net: net("198.51.100.0/24"), expires_in: None },
    ];
    let s = Nft::recreate_script(
        "crowd4",
        "{ type ipv4_addr; flags interval, timeout; timeout 24h; }",
        &entries,
    );
    let lines: Vec<&str> = s.lines().collect();
    // Rules pinning the set go before the delete, in the same batch.
    let flush = lines
        .iter()
        .position(|l| l.starts_with("flush chain inet minsec input"))
        .unwrap();
    let delete = lines
        .iter()
        .position(|l| *l == "delete set inet minsec crowd4")
        .unwrap();
    assert!(flush < delete);
    assert_eq!(
        lines[delete + 1],
        "add set inet minsec crowd4 { type ipv4_addr; flags interval, timeout; timeout 24h; }"
    );
    assert_eq!(
        lines[delete + 2],
        "add element inet minsec crowd4 { 10.9.9.9 timeout 3599s, 198.51.100.0/24 }"
    );
    assert!(s.lines().all(|l| l.contains("inet minsec")));
    // An empty set is recreated without an `add element`.
    assert!(!Nft::recreate_script("crowd6", "{ type ipv6_addr; }", &[]).contains("add element"));
}

#[test]
fn setup_script_is_exact() {
    let expected = "add table inet minsec\n\
add set inet minsec ban4 { type ipv4_addr; flags interval, timeout; }\n\
add set inet minsec ban6 { type ipv6_addr; flags interval, timeout; }\n\
add set inet minsec allow4 { type ipv4_addr; flags interval; }\n\
add set inet minsec allow6 { type ipv6_addr; flags interval; }\n\
add set inet minsec crowd4 { type ipv4_addr; flags interval, timeout; timeout 24h; }\n\
add set inet minsec crowd6 { type ipv6_addr; flags interval, timeout; timeout 24h; }\n\
add chain inet minsec input { type filter hook input priority -10; policy accept; }\n\
flush chain inet minsec input\n\
add chain inet minsec forward { type filter hook forward priority -10; policy accept; }\n\
flush chain inet minsec forward\n\
add rule inet minsec input ip saddr @allow4 accept\n\
add rule inet minsec input ip6 saddr @allow6 accept\n\
add rule inet minsec input ip saddr @ban4 counter drop\n\
add rule inet minsec input ip6 saddr @ban6 counter drop\n\
add rule inet minsec input ip saddr @crowd4 counter drop\n\
add rule inet minsec input ip6 saddr @crowd6 counter drop\n\
add rule inet minsec forward ip saddr @allow4 accept\n\
add rule inet minsec forward ip6 saddr @allow6 accept\n\
add rule inet minsec forward ip saddr @ban4 counter drop\n\
add rule inet minsec forward ip6 saddr @ban6 counter drop\n\
add rule inet minsec forward ip saddr @crowd4 counter drop\n\
add rule inet minsec forward ip6 saddr @crowd6 counter drop\n";
    assert_eq!(Nft::setup_script(), expected);
    assert_eq!(TABLE, "inet minsec");
    assert_eq!(CROWD_TIMEOUT, "24h");
}

#[test]
fn recreate_script_rounds_lifetime_up_to_a_second() {
    let entries = vec![Entry { net: net("2001:db8::1/128"), expires_in: Some(0) }];
    let s = Nft::recreate_script("ban6", "{ type ipv6_addr; }", &entries);
    assert!(s.ends_with("add element inet minsec ban6 { 2001:db8::1 timeout 1s }\n"));
}

#[test]
fn set_defs_lists_every_owned_set() {
    let defs = Nft::set_defs();
    let names: Vec<&str> = defs.iter().map(|d| d.0).collect();
    assert_eq!(names, vec!["ban4", "ban6", "allow4", "allow6", "crowd4", "crowd6"]);
    assert_eq!(defs[4].1, "{ type ipv4_addr; flags interval, timeout; timeout 24h; }");
}

#[test]
fn reset_chains_appends_to_the_script() {
    let mut s = String::from("x\n");
    Nft::reset_chains(&mut s);
    assert!(s.starts_with("x\nadd chain inet minsec input "));
    assert_eq!(s.lines().count(), 5);
}

#[test]
fn set_for_picks_family_and_purpose() {
    assert_eq!(Nft::set_for(&net("10.0.0.0/8"), "ban"), "ban4");
    assert_eq!(Nft::set_for(&net("2001:db8::/32"), "ban"), "ban6");
    assert_eq!(Nft::set_for(&net("10.0.0.0/8"), "allow"), "allow4");
    assert_eq!(Nft::set_for(&net("2001:db8::/32"), "other"), "allow6");
}

fn scripts(steps: &[NftStep]) -> Vec<(String, bool)> {
    steps.iter().map(|s| (s.script.clone(), s.check)).collect()
}

#[test]
fn ban_clears_then_adds_with_lifetimes() {
    let bans = vec![
        Ban { net: net("192.0.2.7/32"), ttl: 600 },
        Ban { net: net("2001:db8::/64"), ttl: 0 },
        Ban { net: net("198.51.100.0/24"), ttl: 30 },
    ];
    let steps = scripts(&Nft::ban_steps(&bans));
    assert_eq!(
        steps,
        vec![
            ("delete element inet minsec ban4 { 192.0.2.7 }\n".to_string(), false),
            ("delete element inet minsec ban4 { 198.51.100.0/24 }\n".to_string(), false),
            ("delete element inet minsec ban6 { 2001:db8::/64 }\n".to_string(), false),
            (
                "add element inet minsec ban4 { 192.0.2.7 timeout 600s, 198.51.100.0/24 timeout 30s }\n\
add element inet minsec ban6 { 2001:db8::/64 timeout 1s }\n"
                    .to_string(),
                true
            ),
        ]
    );
    assert!(Nft::ban_steps(&[]).is_empty());
}

#[test]
fn unban_deletes_from_the_ban_sets() {
    let nets = vec![net("2001:db8::5/128"), net("10.1.1.1/32")];
    let steps = scripts(&Nft::unban_steps(&nets));
    assert_eq!(
        steps,
        vec![
            ("delete element inet minsec ban4 { 10.1.1.1 }\n".to_string(), false),
            ("delete element inet minsec ban6 { 2001:db8::5 }\n".to_string(), false),
        ]
    );
}

#[test]
fn allow_list_flushes_and_refills() {
    let nets = vec![net("10.0.0.0/8"), net("::1/128")];
    let steps = scripts(&Nft::allow_steps(&nets));
    assert_eq!(
        steps,
        vec![(
            "flush set inet minsec allow4\n\
add element inet minsec allow4 { 10.0.0.0/8 }\n\
flush set inet minsec allow6\n\
add element inet minsec allow6 { ::1 }\n"
                .to_string(),
            true
        )]
    );
    let empty = scripts(&Nft::allow_steps(&[]));
    assert_eq!(empty[0].0, "flush set inet minsec allow4\nflush set inet minsec allow6\n");
}

#[test]
fn listing_reads_plain_and_timed_elements() {
    let listing = obj(vec![(
        "nftables",
        Json::Array(vec![
            obj(vec![("metainfo", obj(vec![("version", text("1.0.9"))]))]),
            obj(vec![(
                "set",
                obj(vec![(
                    "elem",
                    Json::Array(vec![
                        text("10.0.0.1"),
                        obj(vec![(
                            "elem",
                            obj(vec![
                                ("val", obj(vec![("prefix", obj(vec![("addr", text("10.2.0.0")), ("len", num(16))]))])),
                                ("expires", num(120)),
                            ]),
                        )]),
                        text("not an address"),
                        obj(vec![("elem", obj(vec![("expires", num(5))]))]),
                        text("2001:db8::/48"),
                    ]),
                )]),
            )]),
        ]),
    )]);
    let entries = Nft::entries_from_listing(&listing);
    assert_eq!(
        entries,
        vec![
            Entry { net: net("10.0.0.1/32"), expires_in: None },
            Entry { net: net("10.2.0.0/16"), expires_in: Some(120) },
            Entry { net: net("2001:db8::/48"), expires_in: None },
        ]
    );
    assert!(Nft::entries_from_listing(&obj(vec![])).is_empty());
    assert!(Nft::entries_from_listing(&Json::Null).is_empty());
}

#[test]
fn prefix_length_is_taken_modulo_256() {
    let v = obj(vec![("prefix", obj(vec![("addr", text("10.0.0.0")), ("len", num(264))]))]);
    assert_eq!(json_to_net(&v), Some(net("10.0.0.0/8")));
    let v = obj(vec![("prefix", obj(vec![("addr", text("10.0.0.0")), ("len", num(33))]))]);
    assert_eq!(json_to_net(&v), None);
    assert_eq!(json_to_net(&Json::Bool(true)), None);
}

fn run_script(action: SetupAction) -> String {
    match action {
        SetupAction::Run(s) => s,
        _ => panic!("expected a script"),
    }
}

#[test]
fn setup_succeeds_at_once() {
    let (state, action) = Nft::setup_begin();
    assert_eq!(run_script(action), Nft::setup_script());
    let (state, action) = Nft::setup_step(state, SetupEvent::Succeeded);
    assert!(matches!(action, SetupAction::Succeed));
    assert!(matches!(state, SetupState::Done));
}

#[test]
fn setup_rebuilds_a_stale_set() {
    let (mut state, _) = Nft::setup_begin();
    let (s, a) = Nft::setup_step(state, SetupEvent::Failed);
    state = s;
    assert_eq!(
        run_script(a),
        "add table inet minsec\nadd set inet minsec ban4 { type ipv4_addr; flags interval, timeout; }\n"
    );
    // ban4 is fine, ban6 is stale.
    let (s, _) = Nft::setup_step(state, SetupEvent::Succeeded);
    let (s, a) = Nft::setup_step(s, SetupEvent::Failed);
    assert!(matches!(a, SetupAction::List("ban6")));
    let entries = vec![Entry { net: net("2001:db8::9/128"), expires_in: Some(40) }];
    let (s, a) = Nft::setup_step(s, SetupEvent::Listed(entries.clone()));
    assert_eq!(
        run_script(a),
        Nft::recreate_script("ban6", "{ type ipv6_addr; flags interval, timeout; }", &entries)
    );
    let (mut s, _) = Nft::setup_step(s, SetupEvent::Succeeded);
    // The remaining four probes pass.
    for _ in 0..4 {
        let (n, a) = Nft::setup_step(s, SetupEvent::Succeeded);
        s = n;
        if let SetupAction::Run(script) = &a {
            if script.contains("add rule") {
                assert!(matches!(s, SetupState::Final));
            }
        }
    }
    assert!(matches!(s, SetupState::Final));
    let (s, a) = Nft::setup_step(s, SetupEvent::Succeeded);
    assert!(matches!(a, SetupAction::Succeed));
    assert!(matches!(s, SetupState::Done));
}

#[test]
fn setup_without_stale_sets_reports_the_first_error() {
    let (s, _) = Nft::setup_begin();
    let (mut s, _) = Nft::setup_step(s, SetupEvent::Failed);
    let mut last = None;
    for _ in 0..6 {
        let (n, a) = Nft::setup_step(s, SetupEvent::Succeeded);
        s = n;
        last = Some(a);
    }
    assert!(matches!(last, Some(SetupAction::FailWithFirstError)));
    assert!(matches!(s, SetupState::Done));
}

#[test]
fn setup_stops_when_a_listing_fails() {
    let (s, _) = Nft::setup_begin();
    let (s, _) = Nft::setup_step(s, SetupEvent::Failed);
    let (s, a) = Nft::setup_step(s, SetupEvent::Failed);
    assert!(matches!(a, SetupAction::List("ban4")));
    let (s, a) = Nft::setup_step(s, SetupEvent::Failed);
    assert!(matches!(a, SetupAction::FailWithLastError));
    assert!(matches!(s, SetupState::Done));
}

#[test]
fn backend_binary() {
    assert_eq!(Nft::new().binary(), "nft");
    assert_eq!(Nft::with_binary("/usr/sbin/nft".to_string()).binary(), "/usr/sbin/nft");
    let _ = Addr::V4(0);
    assert_eq!(key_to_nft(&net("10.0.0.0/8")), "10.0.0.0/8");
}

#[test]
fn entries_from_nft_output() {
    let out = br#"{"nftables": [{"metainfo": {"version": "1.0.9"}}, {"set": {"family": "inet", "name": "ban4", "table": "minsec", "type": "ipv4_addr", "elem": [{"elem": {"val": "10.9.9.9", "timeout": 3600, "expires": 3599}}, {"prefix": {"addr": "198.51.100.0", "len": 24}}]}}]}"#;
    let entries = Nft::entries_from_output(out).unwrap();
    assert_eq!(entries.len(), 2);
    assert_eq!(key_to_nft(&entries[0].net), "10.9.9.9");
    assert_eq!(entries[0].expires_in, Some(3599));
    assert_eq!(net_to_string(&entries[1].net), "198.51.100.0/24");
    assert_eq!(entries[1].expires_in, None);
    assert!(Nft::entries_from_output(b"not json").is_err());
    assert_eq!(Nft::entries_from_output(b"{}").unwrap(), vec![]);
}
