//! Egress of sandboxes: which hosts a request may go to, and which credential it is given.

use crate::config::{CredentialInject, SandboxConfig};
use crate::number;
use crate::text;
use crate::text::Strip;
use vstd::prelude::*;
use vstd::string::*;

verus! {

// ---------------------------------------------------------------------------------------------
// Hosts
// ---------------------------------------------------------------------------------------------

/// The host that a request names, in the form in which hosts are compared: without white space
/// round it, without dots at its end, in lower case.
pub open spec fn host_key(host: Seq<char>) -> Seq<char> {
    text::lowered(text::back_stripped(text::trimmed(host), Strip::Only('.')))
}

/// The domain that a pattern names: without white space round it, without dots at its start, in
/// lower case.
pub open spec fn domain(pattern: Seq<char>) -> Seq<char> {
    text::lowered(text::front_stripped(text::trimmed(pattern), Strip::Only('.')))
}

/// Whether a host is in the domain of a pattern: it is the domain, or stands below it.
pub open spec fn matching(pattern: Seq<char>, key: Seq<char>) -> bool {
    key == domain(pattern) || text::has_suffix(key, seq!['.'] + domain(pattern))
}

/// Whether a host is in the domain of a pattern.
pub fn host_matches(pattern: &str, host: &str) -> (r: bool)
    ensures
        r == matching(pattern@, host@),
{
    let p = text::lower(text::strip_front(text::trim(pattern), &Strip::Only('.')));
    if text::same(host, p.as_str()) {
        return true;
    }
    let below = ".".to_owned().concat(p.as_str());
    proof {
        reveal_strlit(".");
        assert("."@ =~= seq!['.']);
    }
    text::ends_with(host, below.as_str())
}

/// The form in which a host is compared.
fn normalize(host: &str) -> (r: String)
    ensures
        r@ == host_key(host@),
{
    text::lower(text::strip_back(text::trim(host), &Strip::Only('.')))
}

// ---------------------------------------------------------------------------------------------
// Decisions
// ---------------------------------------------------------------------------------------------

/// What becomes of a request.
#[derive(Debug, Clone)]
pub struct EgressDecision {
    pub allow: bool,
    /// The credential that it is given.
    pub inject_authorization: Option<String>,
    pub reason: String,
}

/// What an [`EgressDecision`] is.
pub struct DecisionView {
    pub allow: bool,
    pub inject_authorization: Option<Seq<char>>,
    pub reason: Seq<char>,
}

impl View for EgressDecision {
    type V = DecisionView;

    open spec fn view(&self) -> DecisionView {
        DecisionView {
            allow: self.allow,
            inject_authorization: match self.inject_authorization {
                Some(a) => Some(a@),
                None => None,
            },
            reason: self.reason@,
        }
    }
}

/// The credential of the first vault entry whose host a request goes to.
pub open spec fn credential(vault: Seq<CredentialInject>, key: Seq<char>) -> Option<Seq<char>>
    decreases vault.len(),
{
    if vault.len() == 0 {
        None
    } else if matching(vault[0].host@, key) {
        Some(vault[0].authorization@)
    } else {
        credential(vault.skip(1), key)
    }
}

/// Whether a host is in the domain of one of several patterns.
pub open spec fn listed(patterns: Seq<Seq<char>>, key: Seq<char>) -> bool {
    exists|i: int| 0 <= i < patterns.len() && matching(#[trigger] patterns[i], key)
}

/// What becomes of a request to a host.
pub open spec fn decided(cfg: SandboxConfig, host: Seq<char>) -> DecisionView {
    let key = host_key(host);
    let inject = credential(cfg.credential_vault@, key);
    let patterns = cfg.egress_allow_domains.deep_view();
    if patterns.len() == 0 {
        DecisionView {
            allow: true,
            inject_authorization: inject,
            reason: "no allowlist configured"@,
        }
    } else if listed(patterns, key) {
        DecisionView {
            allow: true,
            inject_authorization: inject,
            reason: "host matched allowlist"@,
        }
    } else {
        DecisionView {
            allow: false,
            inject_authorization: None,
            reason: "host "@ + key + " not in egress allowlist"@,
        }
    }
}

fn find_credential(vault: &Vec<CredentialInject>, host: &str) -> (r: Option<String>)
    ensures
        match r {
            Some(a) => credential(vault@, host@) == Some(a@),
            None => credential(vault@, host@) is None,
        },
{
    let mut i: usize = 0;
    assert(vault@.skip(0) =~= vault@);
    while i < vault.len()
        invariant
            i <= vault.len(),
            credential(vault@, host@) == credential(vault@.skip(i as int), host@),
        decreases vault.len() - i,
    {
        assert(vault@.skip(i as int)[0] == vault@[i as int]);
        if host_matches(vault[i].host.as_str(), host) {
            return Some(vault[i].authorization.clone());
        }
        assert(vault@.skip(i as int).skip(1) =~= vault@.skip(i + 1));
        i += 1;
    }
    assert(vault@.skip(i as int) =~= Seq::<CredentialInject>::empty());
    None
}

fn is_listed(patterns: &Vec<String>, host: &str) -> (r: bool)
    ensures
        r == listed(patterns.deep_view(), host@),
{
    let ghost all = patterns.deep_view();
    let mut i: usize = 0;
    while i < patterns.len()
        invariant
            i <= patterns.len(),
            all == patterns.deep_view(),
            forall|j: int| 0 <= j < i ==> !matching(#[trigger] all[j], host@),
        decreases patterns.len() - i,
    {
        assert(all[i as int] == patterns@[i as int]@);
        if host_matches(patterns[i].as_str(), host) {
            return true;
        }
        i += 1;
    }
    false
}

/// Decides whether a request may go to a host, and which credential it is given. Without an
/// allowlist every host is allowed.
pub fn decide(cfg: &SandboxConfig, host: &str) -> (r: EgressDecision)
    ensures
        r@ == decided(*cfg, host@),
        r.allow <==> cfg.egress_allow_domains@.len() == 0 || listed(
            cfg.egress_allow_domains.deep_view(),
            host_key(host@),
        ),
        !r.allow ==> r.inject_authorization is None,
        r.allow ==> match r.inject_authorization {
            Some(a) => credential(cfg.credential_vault@, host_key(host@)) == Some(a@),
            None => credential(cfg.credential_vault@, host_key(host@)) is None,
        },
{
    let host = normalize(host);
    let inject = find_credential(&cfg.credential_vault, host.as_str());
    if cfg.egress_allow_domains.len() == 0 {
        return EgressDecision {
            allow: true,
            inject_authorization: inject,
            reason: "no allowlist configured".to_owned(),
        };
    }
    if is_listed(&cfg.egress_allow_domains, host.as_str()) {
        EgressDecision {
            allow: true,
            inject_authorization: inject,
            reason: "host matched allowlist".to_owned(),
        }
    } else {
        EgressDecision {
            allow: false,
            inject_authorization: None,
            reason: "host ".to_owned().concat(host.as_str()).concat(" not in egress allowlist"),
        }
    }
}

/// The nftables rules that send web traffic to a proxy on this host.
pub open spec fn redirect(port: u16) -> Seq<char> {
    "table inet fluxvm_egress {\n  chain output {\n    type nat hook output priority -100;\n    meta skuid != 0 tcp dport { 80, 443 } redirect to :"@
        + number::decimal(port as nat) + "\n  }\n}\n"@
}

/// Writes the nftables rules that send web traffic to a proxy on this host.
pub fn nftables_redirect_snippet(proxy_port: u16) -> (r: String)
    ensures
        r@ == redirect(proxy_port),
{
    let port = number::to_decimal(proxy_port as u64);
    "table inet fluxvm_egress {\n  chain output {\n    type nat hook output priority -100;\n    meta skuid != 0 tcp dport { 80, 443 } redirect to :".to_owned().concat(
        port.as_str(),
    ).concat("\n  }\n}\n")
}

/// The entries of the vault, in order.
pub fn vault_hosts(cfg: &SandboxConfig) -> (r: Vec<&CredentialInject>)
    ensures
        r@.len() == cfg.credential_vault@.len(),
        forall|i: int|
            0 <= i < r@.len() ==> *(#[trigger] r@[i]) == cfg.credential_vault@[i],
{
    let mut r: Vec<&CredentialInject> = Vec::new();
    let mut i: usize = 0;
    while i < cfg.credential_vault.len()
        invariant
            i <= cfg.credential_vault.len(),
            r@.len() == i,
            forall|j: int| 0 <= j < i ==> *(#[trigger] r@[j]) == cfg.credential_vault@[j],
        decreases cfg.credential_vault.len() - i,
    {
        r.push(&cfg.credential_vault[i]);
        i += 1;
    }
    r
}

// ---------------------------------------------------------------------------------------------
// Laws
// ---------------------------------------------------------------------------------------------

/// Without an allowlist every host is allowed; with one, exactly the hosts in a domain that is
/// listed.
pub proof fn law_allowlist_decides(cfg: SandboxConfig, host: Seq<char>)
    ensures
        decided(cfg, host).allow <==> {
            ||| cfg.egress_allow_domains@.len() == 0
            ||| listed(cfg.egress_allow_domains.deep_view(), host_key(host))
        },
        decided(cfg, host).allow <==> cfg.egress_allow_domains@.len() == 0 || exists|i: int|
            0 <= i < cfg.egress_allow_domains@.len() && matching(
                (#[trigger] cfg.egress_allow_domains@[i])@,
                host_key(host),
            ),
{
    let patterns = cfg.egress_allow_domains.deep_view();
    let key = host_key(host);
    if listed(patterns, key) {
        let i = choose|i: int| 0 <= i < patterns.len() && matching(#[trigger] patterns[i], key);
        assert(patterns[i] == cfg.egress_allow_domains@[i]@);
    }
    if exists|i: int|
        0 <= i < cfg.egress_allow_domains@.len() && matching(
            (#[trigger] cfg.egress_allow_domains@[i])@,
            key,
        ) {
        let i = choose|i: int|
            0 <= i < cfg.egress_allow_domains@.len() && matching(
                (#[trigger] cfg.egress_allow_domains@[i])@,
                key,
            );
        assert(patterns[i] == cfg.egress_allow_domains@[i]@);
    }
}

/// A request that is denied is given no credential.
pub proof fn law_denied_request_gets_no_credential(cfg: SandboxConfig, host: Seq<char>)
    ensures
        !decided(cfg, host).allow ==> decided(cfg, host).inject_authorization is None,
{
}

/// A request that is let through is given the credential of the first vault entry for its host,
/// whether the allowlist names the host or is empty. It is given none where no entry is for the
/// host.
pub proof fn law_allowed_request_gets_the_credential(cfg: SandboxConfig, host: Seq<char>)
    ensures
        decided(cfg, host).allow ==> {
            let vault = cfg.credential_vault@;
            let key = host_key(host);
            &&& decided(cfg, host).inject_authorization == credential(vault, key)
            &&& match decided(cfg, host).inject_authorization {
                Some(a) => exists|i: int|
                    0 <= i < vault.len() && matching((#[trigger] vault[i]).host@, key)
                        && vault[i].authorization@ == a && forall|j: int|
                        0 <= j < i ==> !matching((#[trigger] vault[j]).host@, key),
                None => forall|j: int|
                    0 <= j < vault.len() ==> !matching((#[trigger] vault[j]).host@, key),
            }
        },
{
    law_credential_is_for_the_host(cfg.credential_vault@, host_key(host));
}

/// Two requests to one host are given the same credential wherever both are let through: the
/// allowlist has no say in it.
pub proof fn law_allowlist_does_not_change_the_credential(
    a: SandboxConfig,
    b: SandboxConfig,
    host: Seq<char>,
)
    requires
        a.credential_vault@ == b.credential_vault@,
        decided(a, host).allow,
        decided(b, host).allow,
    ensures
        decided(a, host).inject_authorization == decided(b, host).inject_authorization,
{
}

/// The reason tells the three outcomes apart, and names the host that was denied.
pub proof fn law_reason_tells_the_outcome(cfg: SandboxConfig, host: Seq<char>)
    ensures
        decided(cfg, host).allow && cfg.egress_allow_domains@.len() == 0 ==> decided(
            cfg,
            host,
        ).reason == "no allowlist configured"@,
        decided(cfg, host).allow && cfg.egress_allow_domains@.len() > 0 ==> decided(
            cfg,
            host,
        ).reason == "host matched allowlist"@,
        !decided(cfg, host).allow ==> decided(cfg, host).reason == "host "@ + host_key(host)
            + " not in egress allowlist"@,
{
}

/// A credential that is given is that of the first vault entry for the host, and none is given
/// where no entry is for the host.
pub proof fn law_credential_is_for_the_host(vault: Seq<CredentialInject>, key: Seq<char>)
    ensures
        match credential(vault, key) {
            Some(a) => exists|i: int|
                0 <= i < vault.len() && matching((#[trigger] vault[i]).host@, key)
                    && vault[i].authorization@ == a && forall|j: int|
                    0 <= j < i ==> !matching((#[trigger] vault[j]).host@, key),
            None => forall|j: int|
                0 <= j < vault.len() ==> !matching((#[trigger] vault[j]).host@, key),
        },
    decreases vault.len(),
{
    if vault.len() > 0 && !matching(vault[0].host@, key) {
        let rest = vault.skip(1);
        law_credential_is_for_the_host(rest, key);
        match credential(rest, key) {
            Some(a) => {
                let i = choose|i: int|
                    0 <= i < rest.len() && matching((#[trigger] rest[i]).host@, key)
                        && rest[i].authorization@ == a && forall|j: int|
                        0 <= j < i ==> !matching((#[trigger] rest[j]).host@, key);
                assert(vault[i + 1] == rest[i]);
                assert forall|j: int| 0 <= j < i + 1 implies !matching(
                    (#[trigger] vault[j]).host@,
                    key,
                ) by {
                    if j > 0 {
                        assert(vault[j] == rest[j - 1]);
                    }
                }
            },
            None => {
                assert forall|j: int| 0 <= j < vault.len() implies !matching(
                    (#[trigger] vault[j]).host@,
                    key,
                ) by {
                    if j > 0 {
                        assert(vault[j] == rest[j - 1]);
                    }
                }
            },
        }
    }
}

/// Whatever is allowed for a host is allowed for the hosts below it: a pattern that a host
/// matches, a host below it matches too.
pub proof fn law_hosts_below_match(pattern: Seq<char>, key: Seq<char>, label: Seq<char>)
    requires
        matching(pattern, key),
    ensures
        matching(pattern, label + (seq!['.'] + key)),
{
    let p = domain(pattern);
    let below = seq!['.'] + p;
    let longer = label + (seq!['.'] + key);
    if key == p {
        assert(longer.skip(longer.len() - below.len()) =~= below);
    } else {
        assert(key.skip(key.len() - below.len()) == below);
        assert(longer.skip(longer.len() - below.len()) =~= key.skip(key.len() - below.len()));
    }
}

/// A pattern is no match for a host that merely ends with its letters.
pub proof fn law_match_respects_labels(pattern: Seq<char>, key: Seq<char>)
    requires
        matching(pattern, key),
        key != domain(pattern),
    ensures
        key.len() > domain(pattern).len(),
        key[key.len() - domain(pattern).len() - 1] == '.',
        key.skip(key.len() - domain(pattern).len()) == domain(pattern),
{
    let p = domain(pattern);
    let below = seq!['.'] + p;
    let tail = key.skip(key.len() - below.len());
    assert(tail == below);
    assert(tail[0] == '.');
    assert(key.skip(key.len() - p.len()) =~= tail.skip(1));
    assert(below.skip(1) =~= p);
}

/// The case of letters in the name of a host does not matter.
pub proof fn law_case_of_host_does_not_matter(cfg: SandboxConfig, host: Seq<char>)
    ensures
        decided(cfg, text::lowered(host)) == decided(cfg, host),
{
    let front = text::front_stripped(host, Strip::White);
    let middle = text::trimmed(host);
    let end = text::back_stripped(middle, Strip::Only('.'));
    text::lemma_front_lowered(host, Strip::White);
    text::lemma_back_lowered(front, Strip::White);
    text::lemma_back_lowered(middle, Strip::Only('.'));
    assert(text::lowered(text::lowered(end)) =~= text::lowered(end));
}

/// White space round the name of a host does not matter.
pub proof fn law_space_round_host_does_not_matter(cfg: SandboxConfig, host: Seq<char>, c: char)
    requires
        text::white(c),
    ensures
        decided(cfg, host.push(c)) == decided(cfg, host),
        decided(cfg, seq![c] + host) == decided(cfg, host),
{
    text::lemma_trimmed_push(host, c);
    assert((seq![c] + host).skip(1) =~= host);
}

/// A dot at the end of the name of a host does not matter.
pub proof fn law_dot_behind_host_does_not_matter(cfg: SandboxConfig, host: Seq<char>)
    requires
        text::trimmed(host) == host,
    ensures
        decided(cfg, host.push('.')) == decided(cfg, host),
{
    let dotted = host.push('.');
    if host.len() > 0 {
        text::lemma_trimmed_front(host);
    }
    assert(text::front_stripped(dotted, Strip::White) == dotted);
    assert(text::trimmed(dotted) == dotted);
    assert(dotted.drop_last() =~= host);
}

/// The case of letters, white space round a pattern and dots in front of it do not matter.
pub proof fn law_form_of_pattern_does_not_matter(pattern: Seq<char>, key: Seq<char>, c: char)
    ensures
        matching(text::lowered(pattern), key) == matching(pattern, key),
        text::white(c) ==> matching(pattern.push(c), key) == matching(pattern, key),
        text::white(c) ==> matching(seq![c] + pattern, key) == matching(pattern, key),
        text::trimmed(pattern) == pattern && pattern.len() > 0 ==> matching(
            seq!['.'] + pattern,
            key,
        ) == matching(pattern, key),
{
    let front = text::front_stripped(pattern, Strip::White);
    let middle = text::trimmed(pattern);
    let end = text::front_stripped(middle, Strip::Only('.'));
    text::lemma_front_lowered(pattern, Strip::White);
    text::lemma_back_lowered(front, Strip::White);
    text::lemma_front_lowered(middle, Strip::Only('.'));
    assert(text::lowered(text::lowered(end)) =~= text::lowered(end));
    if text::white(c) {
        text::lemma_trimmed_push(pattern, c);
        assert((seq![c] + pattern).skip(1) =~= pattern);
    }
    if text::trimmed(pattern) == pattern && pattern.len() > 0 {
        let dotted = seq!['.'] + pattern;
        text::lemma_trimmed_front(pattern);
        assert(text::front_stripped(dotted, Strip::White) == dotted);
        assert(pattern == text::back_stripped(pattern, Strip::White));
        if text::white(pattern.last()) {
            let n = text::lemma_back_is_a_head(pattern, Strip::White);
            assert(pattern.take(n).len() == n);
        }
        assert(dotted.last() == pattern.last());
        assert(text::trimmed(dotted) == dotted);
        assert(dotted.skip(1) =~= pattern);
    }
}

/// A pattern that is written as the host is, in lower case and without space or dots round it,
/// matches that host and no shorter one.
pub proof fn law_host_matches_itself(host: Seq<char>, other: Seq<char>)
    requires
        domain(host) == host,
    ensures
        matching(host, host),
        matching(host, other) && other != host ==> other.len() > host.len(),
{
}

/// The rules send web traffic to the port of the proxy: the port stands in them in decimal, and
/// rules for different ports differ.
pub proof fn law_redirect_names_the_port(a: u16, b: u16)
    ensures
        text::has_suffix(redirect(a), "redirect to :"@ + number::decimal(a as nat) + "\n  }\n}\n"@),
        redirect(a) == redirect(b) ==> a == b,
{
    reveal_strlit(
        "table inet fluxvm_egress {\n  chain output {\n    type nat hook output priority -100;\n    meta skuid != 0 tcp dport { 80, 443 } redirect to :",
    );
    reveal_strlit("redirect to :");
    let start =
        "table inet fluxvm_egress {\n  chain output {\n    type nat hook output priority -100;\n    meta skuid != 0 tcp dport { 80, 443 } redirect to :"@;
    let tail = "\n  }\n}\n"@;
    let verb = "redirect to :"@;
    let x = number::decimal(a as nat);
    let y = number::decimal(b as nat);
    assert(start.skip(start.len() - verb.len()) =~= verb);
    let end = verb + x + tail;
    assert(redirect(a).skip(redirect(a).len() - end.len()) =~= end);
    if redirect(a) == redirect(b) {
        assert(x =~= redirect(a).subrange(start.len() as int, redirect(a).len() - tail.len()));
        assert(y =~= redirect(b).subrange(start.len() as int, redirect(b).len() - tail.len()));
        number::lemma_decimal_value(a as nat);
        number::lemma_decimal_value(b as nat);
    }
}

/// A host in lower case, without white space round it and without a dot at its end, is compared
/// as it is; so is a pattern without a dot at its start. A host is in the domain of a pattern
/// exactly where it is that domain, or ends with a dot and that domain.
pub proof fn law_plain_names_are_compared_as_they_are(host: Seq<char>, pattern: Seq<char>)
    requires
        text::lowered(host) == host,
        text::trimmed(host) == host,
        host.len() > 0 ==> host.last() != '.',
        text::lowered(pattern) == pattern,
        text::trimmed(pattern) == pattern,
        pattern.len() > 0 ==> pattern[0] != '.',
    ensures
        host_key(host) == host,
        domain(pattern) == pattern,
        matching(pattern, host) <==> host == pattern || exists|labels: Seq<char>|
            host == #[trigger] (labels + (seq!['.'] + pattern)),
{
    let below = seq!['.'] + pattern;
    if text::has_suffix(host, below) {
        let labels = host.take(host.len() - below.len());
        assert(host =~= labels + below);
    }
    if exists|labels: Seq<char>| host == #[trigger] (labels + (seq!['.'] + pattern)) {
        let labels = choose|labels: Seq<char>| host == #[trigger] (labels + (seq!['.'] + pattern));
        assert((labels + below).skip((labels + below).len() - below.len()) =~= below);
    }
}

} // verus!
