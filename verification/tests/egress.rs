use fluxvm::config::{CredentialInject, DataplaneConfig, DataplaneMode, SandboxConfig, XdpConfig};
use fluxvm::egress::{decide, host_matches, nftables_redirect_snippet, vault_hosts};

fn sandbox(allow: &[&str], vault: &[(&str, &str)]) -> SandboxConfig {
    SandboxConfig {
        egress_allow_domains: allow.iter().map(|s| s.to_string()).collect(),
        credential_vault: vault
            .iter()
            .map(|(host, authorization)| CredentialInject {
                host: host.to_string(),
                authorization: authorization.to_string(),
            })
            .collect(),
        dataplane: DataplaneConfig {
            mode: DataplaneMode::Legacy,
            bpf_object: String::new(),
            pin_root: String::new(),
            required: false,
            default_allow: true,
            allow_cidrs: Vec::new(),
            allow_ports: Vec::new(),
            sample_rate: 0,
            xdp: XdpConfig {
                enabled: false,
                interface: None,
                bpf_object: String::new(),
                pin_root: String::new(),
                block_cidrs: Vec::new(),
            },
        },
    }
}

#[test]
fn without_an_allowlist_every_host_is_allowed() {
    let d = decide(&sandbox(&[], &[("api.example.com", "Bearer 1")]), "API.example.com.");
    assert!(d.allow);
    assert_eq!(d.inject_authorization.as_deref(), Some("Bearer 1"));
    assert_eq!(d.reason, "no allowlist configured");
    let d = decide(&sandbox(&[], &[("api.example.com", "Bearer 1")]), "other.test");
    assert!(d.allow);
    assert_eq!(d.inject_authorization, None);
}

#[test]
fn listed_domains_and_what_is_below_them_are_allowed() {
    let cfg = sandbox(&[" .Example.COM "], &[]);
    for host in ["example.com", "a.example.com", " A.B.EXAMPLE.com.. "] {
        let d = decide(&cfg, host);
        assert!(d.allow, "{host:?}");
        assert_eq!(d.reason, "host matched allowlist");
    }
    let d = decide(&cfg, " NotExample.com. ");
    assert!(!d.allow);
    assert_eq!(d.reason, "host notexample.com not in egress allowlist");
}

#[test]
fn a_denied_request_gets_no_credential() {
    let cfg = sandbox(&["example.com"], &[("evil.test", "secret")]);
    let d = decide(&cfg, "evil.test");
    assert!(!d.allow);
    assert_eq!(d.inject_authorization, None);
}

#[test]
fn the_first_vault_entry_for_a_host_counts() {
    let cfg = sandbox(&[], &[("a.test", "A"), ("test", "T"), ("b.test", "B")]);
    assert_eq!(decide(&cfg, "x.a.test").inject_authorization.as_deref(), Some("A"));
    assert_eq!(decide(&cfg, "b.test").inject_authorization.as_deref(), Some("T"));
    assert_eq!(decide(&cfg, "c").inject_authorization, None);
    let hosts: Vec<&str> = vault_hosts(&cfg).iter().map(|c| c.host.as_str()).collect();
    assert_eq!(hosts, ["a.test", "test", "b.test"]);
}

#[test]
fn an_empty_pattern_matches_the_empty_host_only() {
    assert!(host_matches("", ""));
    assert!(host_matches(" . ", ""));
    assert!(!host_matches("", "a"));
    assert!(host_matches("", "a."));
}

#[test]
fn the_proxy_port_is_written_into_the_rules() {
    assert_eq!(
        nftables_redirect_snippet(8080),
        "table inet fluxvm_egress {\n  chain output {\n    type nat hook output priority -100;\n    meta skuid != 0 tcp dport { 80, 443 } redirect to :8080\n  }\n}\n"
    );
}
