//! The first-run setup: the answers it collects, the TOML configuration
//! it writes, and the banner that shows a new API key once.

use vstd::prelude::*;
use vstd::utf8::encode_utf8;

use crate::config::{config_error_is, spec_config_outcome, toml_document, Config};
use crate::crypto::{hex_text, sha256, sha256_hex};
use crate::types::hex_lower_digit;
use crate::error::ConfigError;
use crate::codec::strings_view;
use crate::text::{
    copy_str, decimal, digit_char, lemma_text_le_total, lemma_text_le_transitive, lemma_text_order, push_char, push_decimal, push_str, str_eq,
    text_le, text_leq,
};
use vstd::multiset::Multiset;
use vstd::relations::sorted_by;
use vstd::seq_lib::{lemma_sorted_unique, to_multiset_build, to_multiset_insert};

verus! {

/// The answers of the setup (from prompts or command-line flags).
#[derive(Debug, Clone)]
pub struct SetupInputs {
    pub interface: String,
    pub api_port: u16,
    pub api_bind_address: String,
    pub log_level: String,
    pub database_path: String,
    /// Generate a random API key, show it once, store only its hash.
    pub generate_api_key: bool,
    pub mqtt: Option<MqttInputs>,
    pub ntfy: Option<NtfyInputs>,
    pub webhook: Option<WebhookInputs>,
    pub email: Option<EmailInputs>,
}

/// MQTT notifier answers.
#[derive(Debug, Clone)]
pub struct MqttInputs {
    pub host: String,
    pub port: u16,
    pub topic: String,
    pub username: Option<String>,
    pub password: Option<String>,
}

/// ntfy notifier answers.
#[derive(Debug, Clone)]
pub struct NtfyInputs {
    pub base_url: String,
    pub topic: String,
    pub token: Option<String>,
}

/// Webhook notifier answers.
#[derive(Debug, Clone)]
pub struct WebhookInputs {
    pub url: String,
    pub token: Option<String>,
}

/// Email notifier answers.
#[derive(Debug, Clone)]
pub struct EmailInputs {
    pub host: String,
    pub port: u16,
    pub username: String,
    pub password: String,
    pub from: String,
    pub to: String,
}

impl Default for SetupInputs {
    fn default() -> (r: SetupInputs)
        ensures
            r.interface@.len() == 0,
            r.api_port == 8080,
            r.api_bind_address@ == "0.0.0.0"@,
            r.log_level@ == "info"@,
            r.database_path@.len() == 0,
            !r.generate_api_key,
            r.mqtt is None,
            r.ntfy is None,
            r.webhook is None,
            r.email is None,
    {
        SetupInputs {
            interface: String::new(),
            api_port: 8080,
            api_bind_address: copy_str("0.0.0.0"),
            log_level: copy_str("info"),
            database_path: String::new(),
            generate_api_key: false,
            mqtt: None,
            ntfy: None,
            webhook: None,
            email: None,
        }
    }
}

/// An answer left empty means "none".
pub fn empty_to_none(s: String) -> (r: Option<String>)
    ensures
        s@.len() == 0 ==> r is None,
        s@.len() > 0 ==> (r matches Some(t) && t@ == s@),
{
    if s.unicode_len() == 0 {
        None
    } else {
        Some(s)
    }
}

// ---------------------------------------------------------------- prompts

/// Which answers the interactive setup still asks for.
#[derive(Debug, Clone, Copy, PartialEq, Eq, Structural)]
pub struct PromptPlan {
    /// No interface given.
    pub interface: bool,
    /// The API port is 0.
    pub api_port: bool,
    /// No bind address given.
    pub bind_address: bool,
    /// No database path given.
    pub database: bool,
    /// No API key asked for yet.
    pub api_key: bool,
    /// No notifier configured.
    pub notifier: bool,
}

/// The questions the interactive setup asks: one for each answer not
/// already given.
pub fn prompt_plan(inputs: &SetupInputs) -> (r: PromptPlan)
    ensures
        r.interface == (inputs.interface@.len() == 0),
        r.api_port == (inputs.api_port == 0),
        r.bind_address == (inputs.api_bind_address@.len() == 0),
        r.database == (inputs.database_path@.len() == 0),
        r.api_key == !inputs.generate_api_key,
        r.notifier == (inputs.mqtt is None && inputs.ntfy is None && inputs.webhook is None && inputs.email is None),
{
    PromptPlan {
        interface: inputs.interface.unicode_len() == 0,
        api_port: inputs.api_port == 0,
        bind_address: inputs.api_bind_address.unicode_len() == 0,
        database: inputs.database_path.unicode_len() == 0,
        api_key: !inputs.generate_api_key,
        notifier: inputs.mqtt.is_none() && inputs.ntfy.is_none() && inputs.webhook.is_none() && inputs.email.is_none(),
    }
}

/// The bind address chosen by the answer to "bind to all interfaces?":
/// `0.0.0.0` for yes, `127.0.0.1` for no.
pub fn bind_address_for(bind_all: bool) -> (r: String)
    ensures
        bind_all ==> r@ == "0.0.0.0"@,
        !bind_all ==> r@ == "127.0.0.1"@,
{
    if bind_all {
        copy_str("0.0.0.0")
    } else {
        copy_str("127.0.0.1")
    }
}

/// The notifier the setup offers to configure.
#[derive(Debug, Clone, Copy, PartialEq, Eq, Structural)]
pub enum NotifierChoice {
    Skip,
    Mqtt,
    Ntfy,
    Webhook,
    Email,
}

/// The notifier picked from the menu (none, MQTT, ntfy, webhook,
/// email, in that order); any other index skips.
pub fn notifier_choice(selection: usize) -> (r: NotifierChoice)
    ensures
        selection == 1 ==> r == NotifierChoice::Mqtt,
        selection == 2 ==> r == NotifierChoice::Ntfy,
        selection == 3 ==> r == NotifierChoice::Webhook,
        selection == 4 ==> r == NotifierChoice::Email,
        selection == 0 || selection > 4 ==> r == NotifierChoice::Skip,
{
    if selection == 1 {
        NotifierChoice::Mqtt
    } else if selection == 2 {
        NotifierChoice::Ntfy
    } else if selection == 3 {
        NotifierChoice::Webhook
    } else if selection == 4 {
        NotifierChoice::Email
    } else {
        NotifierChoice::Skip
    }
}

/// The names of a directory listing without the loopback interface
/// `lo`, in order.
pub open spec fn without_loopback(names: Seq<Seq<char>>) -> Seq<Seq<char>>
    decreases names.len(),
{
    if names.len() == 0 {
        names
    } else if names.last() == "lo"@ {
        without_loopback(names.drop_last())
    } else {
        without_loopback(names.drop_last()).push(names.last())
    }
}

/// Whether names are in text order.
pub open spec fn sorted_names(s: Seq<Seq<char>>) -> bool {
    forall|i: int, j: int| 0 <= i < j < s.len() ==> text_le(#[trigger] s[i], #[trigger] s[j])
}

/// The interfaces the setup offers, from the entries of the system's
/// network-interface directory: every entry but `lo`, in text order.
pub fn interfaces_from_entries(names: Vec<String>) -> (r: Vec<String>)
    ensures
        strings_view(r@) == without_loopback(strings_view(names@)).sort_by(|a: Seq<char>, b: Seq<char>| text_le(a, b)),
{
    let ghost all = strings_view(names@);
    let mut out: Vec<String> = Vec::new();
    let n = names.len();
    let mut remaining = names;
    let mut i: usize = 0;
    proof {
        broadcast use vstd::seq_lib::group_to_multiset_ensures;

        assert(strings_view(out@) =~= Seq::<Seq<char>>::empty());
        assert(all.subrange(0, 0) =~= Seq::<Seq<char>>::empty());
        assert(strings_view(out@).to_multiset() =~= Multiset::<Seq<char>>::empty());
        assert(without_loopback(all.subrange(0, 0)).to_multiset() =~= Multiset::<Seq<char>>::empty());
    }
    while i < n
        invariant
            i <= n,
            n == all.len(),
            remaining@.len() == n - i,
            strings_view(remaining@) == all.subrange(i as int, n as int),
            sorted_names(strings_view(out@)),
            strings_view(out@).to_multiset() == without_loopback(all.subrange(0, i as int)).to_multiset(),
        decreases n - i,
    {
        let ghost before = remaining@;
        let name = remaining.remove(0);
        proof {
            assert(strings_view(before)[0] == before[0]@);
            assert(name@ == all[i as int]);
            assert forall|k: int| 0 <= k < remaining@.len() implies #[trigger] strings_view(remaining@)[k] == strings_view(
                before,
            )[k + 1] by {
                assert(remaining@[k] == before[k + 1]);
            }
            assert(strings_view(remaining@) =~= all.subrange(i + 1, n as int));
            assert(all.subrange(0, i + 1).drop_last() =~= all.subrange(0, i as int));
            assert(all.subrange(0, i + 1).last() == name@);
            reveal_strlit("lo");
        }
        if !str_eq(name.as_str(), "lo") {
            let ghost old_view = strings_view(out@);
            let mut pos: usize = 0;
            while pos < out.len() && text_leq(out[pos].as_str(), name.as_str())
                invariant
                    pos <= out@.len(),
                    strings_view(out@) == old_view,
                    forall|k: int| 0 <= k < pos ==> text_le(#[trigger] old_view[k], name@),
                decreases out@.len() - pos,
            {
                pos = pos + 1;
            }
            proof {
                if pos < old_view.len() {
                    lemma_text_le_total(old_view[pos as int], name@);
                }
            }
            out.insert(pos, name);
            proof {
                let new_view = strings_view(out@);
                assert(new_view =~= old_view.insert(pos as int, name@));
                assert forall|a: int, b: int| 0 <= a < b < new_view.len() implies text_le(
                    #[trigger] new_view[a],
                    #[trigger] new_view[b],
                ) by {
                    if b < pos {
                    } else if a < pos && b == pos {
                    } else if a < pos {
                        if b - 1 > pos {
                            lemma_text_le_transitive(old_view[a], name@, old_view[pos as int]);
                            lemma_text_le_transitive(old_view[a], old_view[pos as int], old_view[b - 1]);
                        }
                    } else if a == pos {
                        if b - 1 > pos {
                            lemma_text_le_transitive(name@, old_view[pos as int], old_view[b - 1]);
                        }
                    } else {
                    }
                }
                to_multiset_insert(old_view, pos as int, name@);
                to_multiset_build(without_loopback(all.subrange(0, i as int)), name@);
            }
        }
        i = i + 1;
    }
    proof {
        assert(all.subrange(0, n as int) =~= all);
        let leq = |a: Seq<char>, b: Seq<char>| text_le(a, b);
        let kept = without_loopback(all);
        lemma_text_order();
        kept.lemma_sort_by_ensures(leq);
        assert(sorted_by(strings_view(out@), leq));
        lemma_sorted_unique(strings_view(out@), kept.sort_by(leq), leq);
    }
    out
}

// ---------------------------------------------------------------- TOML text

/// The characters of `s` with each backslash and double quote escaped
/// by a backslash.
pub open spec fn toml_escape(s: Seq<char>) -> Seq<char>
    decreases s.len(),
{
    if s.len() == 0 {
        Seq::empty()
    } else {
        let c = s.last();
        toml_escape(s.drop_last()) + if c == '\\' {
            seq!['\\', '\\']
        } else if c == '"' {
            seq!['\\', '"']
        } else {
            seq![c]
        }
    }
}

/// How many backslashes and double quotes `s` holds.
pub open spec fn escaped_count(s: Seq<char>) -> nat
    decreases s.len(),
{
    if s.len() == 0 {
        0
    } else {
        escaped_count(s.drop_last()) + if s.last() == '\\' || s.last() == '"' {
            1nat
        } else {
            0nat
        }
    }
}

/// Reads escaped text back: a backslash stands for the character after
/// it.
pub open spec fn toml_unescape(t: Seq<char>) -> Seq<char>
    decreases t.len(),
{
    if t.len() == 0 {
        Seq::empty()
    } else if t[0] == '\\' && t.len() >= 2 {
        seq![t[1]] + toml_unescape(t.subrange(2, t.len() as int))
    } else {
        seq![t[0]] + toml_unescape(t.subrange(1, t.len() as int))
    }
}

proof fn lemma_unescape_after(a: Seq<char>, y: Seq<char>)
    ensures
        toml_unescape(toml_escape(a) + y) == a + toml_unescape(y),
    decreases a.len(),
{
    if a.len() == 0 {
        assert(toml_escape(a) + y =~= y);
        assert(a + toml_unescape(y) =~= toml_unescape(y));
    } else {
        let c = a.last();
        let e = if c == '\\' {
            seq!['\\', '\\']
        } else if c == '"' {
            seq!['\\', '"']
        } else {
            seq![c]
        };
        let rest = e + y;
        assert(toml_escape(a) + y =~= toml_escape(a.drop_last()) + rest);
        lemma_unescape_after(a.drop_last(), rest);
        if c == '\\' || c == '"' {
            assert(rest.subrange(2, rest.len() as int) =~= y);
        } else {
            assert(rest.subrange(1, rest.len() as int) =~= y);
        }
        assert(toml_unescape(rest) =~= seq![c] + toml_unescape(y));
        assert(a.drop_last() + (seq![c] + toml_unescape(y)) =~= a + toml_unescape(y));
    }
}

proof fn lemma_escape_len(s: Seq<char>)
    ensures
        toml_escape(s).len() == s.len() + escaped_count(s),
    decreases s.len(),
{
    if s.len() > 0 {
        lemma_escape_len(s.drop_last());
    }
}

/// Quoting for TOML adds the two quotes and one backslash per backslash
/// or double quote, and reading the escapes back gives the text again.
pub proof fn law_toml_quoting(s: Seq<char>)
    ensures
        toml_quoted(s).len() == s.len() + escaped_count(s) + 2,
        toml_unescape(toml_quoted(s).subrange(1, toml_quoted(s).len() - 1)) == s,
{
    lemma_escape_len(s);
    lemma_unescape_after(s, Seq::empty());
    assert(toml_escape(s) + Seq::<char>::empty() =~= toml_escape(s));
    assert(toml_quoted(s).subrange(1, toml_quoted(s).len() - 1) =~= toml_escape(s));
    assert(s + toml_unescape(Seq::<char>::empty()) =~= s);
}

/// A TOML basic string holding `s`.
pub open spec fn toml_quoted(s: Seq<char>) -> Seq<char> {
    seq!['"'] + toml_escape(s) + seq!['"']
}

/// Quotes a string for TOML, escaping backslashes and double quotes.
pub fn toml_string(s: &str) -> (r: String)
    ensures
        r@ == toml_quoted(s@),
{
    let mut out = String::new();
    push_char(&mut out, '"');
    let n = s.unicode_len();
    let mut i: usize = 0;
    while i < n
        invariant
            i <= n,
            n == s@.len(),
            out@ == seq!['"'] + toml_escape(s@.subrange(0, i as int)),
        decreases n - i,
    {
        let c = s.get_char(i);
        if c == '\\' {
            push_char(&mut out, '\\');
            push_char(&mut out, '\\');
        } else if c == '"' {
            push_char(&mut out, '\\');
            push_char(&mut out, '"');
        } else {
            push_char(&mut out, c);
        }
        proof {
            assert(s@.subrange(0, i + 1).drop_last() == s@.subrange(0, i as int));
            assert(out@ =~= seq!['"'] + toml_escape(s@.subrange(0, i + 1)));
        }
        i = i + 1;
    }
    push_char(&mut out, '"');
    proof {
        assert(s@.subrange(0, n as int) == s@);
        assert(out@ =~= toml_quoted(s@));
    }
    out
}

/// A `key = "value"` line.
pub open spec fn string_line(key: Seq<char>, value: Seq<char>) -> Seq<char> {
    key + " = "@ + toml_quoted(value) + "\n"@
}

/// A `key = number` line.
pub open spec fn number_line(key: Seq<char>, n: nat) -> Seq<char> {
    key + " = "@ + decimal(n) + "\n"@
}

/// An optional `key = "value"` line.
pub open spec fn optional_line(key: Seq<char>, value: Option<Seq<char>>) -> Seq<char> {
    match value {
        Some(v) => string_line(key, v),
        None => Seq::empty(),
    }
}

/// The plain form of an optional string.
pub open spec fn opt_view(o: Option<String>) -> Option<Seq<char>> {
    match o {
        Some(s) => Some(s@),
        None => None,
    }
}

/// The `[api.auth]` section for an API key: the key as a comment and its
/// SHA-256 digest.
pub open spec fn auth_section(plaintext: Option<Seq<char>>) -> Seq<char> {
    match plaintext {
        Some(p) => "\n[api.auth]\n# read_key (plaintext, shown once by setup): "@ + p + "\n"@ + string_line(
            "read_key_hash"@,
            hex_text(sha256(encode_utf8(p))),
        ),
        None => Seq::empty(),
    }
}

/// The `[mqtt]` section.
pub open spec fn mqtt_section(m: Option<MqttInputs>) -> Seq<char> {
    match m {
        Some(m) => "\n[mqtt]\n"@ + string_line("host"@, m.host@) + number_line("port"@, m.port as nat) + string_line(
            "topic"@,
            m.topic@,
        ) + optional_line("username"@, opt_view(m.username)) + optional_line("password"@, opt_view(m.password))
            + "qos = 1\n"@,
        None => Seq::empty(),
    }
}

/// The `[ntfy]` section.
pub open spec fn ntfy_section(n: Option<NtfyInputs>) -> Seq<char> {
    match n {
        Some(n) => "\n[ntfy]\n"@ + string_line("base_url"@, n.base_url@) + string_line("topic"@, n.topic@)
            + optional_line("token"@, opt_view(n.token)),
        None => Seq::empty(),
    }
}

/// The `[webhook]` section.
pub open spec fn webhook_section(w: Option<WebhookInputs>) -> Seq<char> {
    match w {
        Some(w) => "\n[webhook]\n"@ + string_line("url"@, w.url@) + optional_line("token"@, opt_view(w.token))
            + "timeout_seconds = 10\n"@,
        None => Seq::empty(),
    }
}

/// The `[email]` section.
pub open spec fn email_section(e: Option<EmailInputs>) -> Seq<char> {
    match e {
        Some(e) => "\n[email]\n"@ + string_line("host"@, e.host@) + number_line("port"@, e.port as nat) + string_line(
            "username"@,
            e.username@,
        ) + string_line("password"@, e.password@) + string_line("from"@, e.from@) + string_line("to"@, e.to@)
            + "starttls = true\nsubject_prefix = \"[EdgeShield]\"\n"@,
        None => Seq::empty(),
    }
}

/// The configuration file the setup writes.
pub open spec fn rendered_config(inputs: SetupInputs, plaintext: Option<Seq<char>>) -> Seq<char> {
    config_head(inputs) + auth_section(plaintext) + mqtt_section(inputs.mqtt) + ntfy_section(inputs.ntfy) + webhook_section(
        inputs.webhook,
    ) + email_section(inputs.email) + default_rule_text()
}

/// The banner and top-level settings the setup writes first.
pub open spec fn config_head(inputs: SetupInputs) -> Seq<char> {
    "# EdgeShield configuration — generated by `edgeshield setup`\n# See https://github.com/edgeshield/edgeshield for the full reference.\n\n"@
        + string_line("interface"@, inputs.interface@) + number_line("api_port"@, inputs.api_port as nat)
        + string_line("api_bind_address"@, inputs.api_bind_address@) + string_line("log_level"@, inputs.log_level@)
        + "capture_buffer = 4096\n"@ + string_line("database_path"@, inputs.database_path@)
}

/// The default rule the setup always writes last.
pub open spec fn default_rule_text() -> Seq<char> {
    "\n[[rules]]\nname = \"new_device\"\ncondition = \"new_device\"\nseverity = \"info\"\ncooldown_seconds = 0\n"@
}

/// Whether the text `t` occurs in `s`.
pub open spec fn holds_text(s: Seq<char>, t: Seq<char>) -> bool {
    exists|i: int| 0 <= i && i + t.len() <= s.len() && #[trigger] s.subrange(i, i + t.len()) == t
}

proof fn lemma_text_extend(s: Seq<char>, t: Seq<char>, h: Seq<char>)
    requires
        holds_text(s, h) || holds_text(t, h),
    ensures
        holds_text(s + t, h),
{
    let u = s + t;
    if holds_text(s, h) {
        let i = choose|i: int| 0 <= i && i + h.len() <= s.len() && #[trigger] s.subrange(i, i + h.len()) == h;
        assert(u.subrange(i, i + h.len()) =~= s.subrange(i, i + h.len()));
    } else {
        let i = choose|i: int| 0 <= i && i + h.len() <= t.len() && #[trigger] t.subrange(i, i + h.len()) == h;
        assert(u.subrange(s.len() + i, s.len() + i + h.len()) =~= t.subrange(i, i + h.len()));
    }
}

proof fn lemma_text_starts(s: Seq<char>, h: Seq<char>)
    requires
        h.len() <= s.len(),
        s.subrange(0, h.len() as int) == h,
    ensures
        holds_text(s, h),
{
    assert(s.subrange(0int, 0int + h.len()) == h);
}

/// The file the setup writes has a section for each kind of setting
/// given: `[api.auth]` with an API key, `[mqtt]`, `[ntfy]`, `[webhook]`
/// and `[email]` with their notifiers; and it always ends with the
/// default `[[rules]]` entry.
pub proof fn law_rendered_sections(inputs: SetupInputs, plaintext: Option<Seq<char>>)
    ensures
        plaintext is Some ==> holds_text(rendered_config(inputs, plaintext), "\n[api.auth]\n"@),
        inputs.mqtt is Some ==> holds_text(rendered_config(inputs, plaintext), "\n[mqtt]\n"@),
        inputs.ntfy is Some ==> holds_text(rendered_config(inputs, plaintext), "\n[ntfy]\n"@),
        inputs.webhook is Some ==> holds_text(rendered_config(inputs, plaintext), "\n[webhook]\n"@),
        inputs.email is Some ==> holds_text(rendered_config(inputs, plaintext), "\n[email]\n"@),
        holds_text(rendered_config(inputs, plaintext), "\n[[rules]]\n"@),
        holds_text(rendered_config(inputs, plaintext), default_rule_text()),
{
    let head = "# EdgeShield configuration — generated by `edgeshield setup`\n# See https://github.com/edgeshield/edgeshield for the full reference.\n\n"@
        + string_line("interface"@, inputs.interface@) + number_line("api_port"@, inputs.api_port as nat)
        + string_line("api_bind_address"@, inputs.api_bind_address@) + string_line("log_level"@, inputs.log_level@)
        + "capture_buffer = 4096\n"@ + string_line("database_path"@, inputs.database_path@);
    let auth = auth_section(plaintext);
    let mqtt = mqtt_section(inputs.mqtt);
    let ntfy = ntfy_section(inputs.ntfy);
    let webhook = webhook_section(inputs.webhook);
    let email = email_section(inputs.email);
    let rules = "\n[[rules]]\nname = \"new_device\"\ncondition = \"new_device\"\nseverity = \"info\"\ncooldown_seconds = 0\n"@;
    let s1 = head + auth;
    let s2 = s1 + mqtt;
    let s3 = s2 + ntfy;
    let s4 = s3 + webhook;
    let s5 = s4 + email;
    assert(rendered_config(inputs, plaintext) == s5 + rules);
    let rh = "\n[[rules]]\n"@;
    reveal_strlit("\n[[rules]]\n");
    reveal_strlit("\n[[rules]]\nname = \"new_device\"\ncondition = \"new_device\"\nseverity = \"info\"\ncooldown_seconds = 0\n");
    assert(rules.subrange(0, rh.len() as int) =~= rh);
    lemma_text_starts(rules, rh);
    lemma_text_extend(s5, rules, rh);
    assert(rules.subrange(0, rules.len() as int) =~= rules);
    lemma_text_starts(rules, rules);
    lemma_text_extend(s5, rules, rules);
    if plaintext is Some {
        let h = "\n[api.auth]\n"@;
        reveal_strlit("\n[api.auth]\n");
        reveal_strlit("\n[api.auth]\n# read_key (plaintext, shown once by setup): ");
        assert(auth.subrange(0, h.len() as int) =~= h);
        lemma_text_starts(auth, h);
        lemma_text_extend(head, auth, h);
        lemma_text_extend(s1, mqtt, h);
        lemma_text_extend(s2, ntfy, h);
        lemma_text_extend(s3, webhook, h);
        lemma_text_extend(s4, email, h);
        lemma_text_extend(s5, rules, h);
    }
    if inputs.mqtt is Some {
        let h = "\n[mqtt]\n"@;
        assert(mqtt.subrange(0, h.len() as int) =~= h);
        lemma_text_starts(mqtt, h);
        lemma_text_extend(s1, mqtt, h);
        lemma_text_extend(s2, ntfy, h);
        lemma_text_extend(s3, webhook, h);
        lemma_text_extend(s4, email, h);
        lemma_text_extend(s5, rules, h);
    }
    if inputs.ntfy is Some {
        let h = "\n[ntfy]\n"@;
        assert(ntfy.subrange(0, h.len() as int) =~= h);
        lemma_text_starts(ntfy, h);
        lemma_text_extend(s2, ntfy, h);
        lemma_text_extend(s3, webhook, h);
        lemma_text_extend(s4, email, h);
        lemma_text_extend(s5, rules, h);
    }
    if inputs.webhook is Some {
        let h = "\n[webhook]\n"@;
        assert(webhook.subrange(0, h.len() as int) =~= h);
        lemma_text_starts(webhook, h);
        lemma_text_extend(s3, webhook, h);
        lemma_text_extend(s4, email, h);
        lemma_text_extend(s5, rules, h);
    }
    if inputs.email is Some {
        let h = "\n[email]\n"@;
        assert(email.subrange(0, h.len() as int) =~= h);
        lemma_text_starts(email, h);
        lemma_text_extend(s4, email, h);
        lemma_text_extend(s5, rules, h);
    }
}

/// Whether `s` holds no newline.
pub open spec fn single_line(s: Seq<char>) -> bool {
    forall|k: int| 0 <= k < s.len() ==> s[k] != '\n'
}

/// Whether `s` is one line: text without a newline, then a newline.
pub open spec fn is_line(s: Seq<char>) -> bool {
    s.len() >= 1 && s.last() == '\n' && single_line(s.drop_last())
}

/// Whether `s` is whole lines (empty, or ending with a newline), none of
/// them the line `hl` right after another line.
pub open spec fn lines_avoid(s: Seq<char>, hl: Seq<char>) -> bool {
    &&& (s.len() == 0 || s.last() == '\n')
    &&& !holds_text(s, "\n"@ + hl)
}

/// Whether `hl` is a section header line: a line of at least two
/// characters without a space.
pub open spec fn header_line(hl: Seq<char>) -> bool {
    &&& is_line(hl)
    &&& hl.len() >= 2
    &&& forall|k: int| 0 <= k < hl.len() ==> hl[k] != ' '
}

proof fn lemma_newline_text()
    ensures
        "\n"@ == seq!['\n'],
{
    reveal_strlit("\n");
    assert("\n"@ =~= seq!['\n']);
}

proof fn lemma_single_cat(a: Seq<char>, b: Seq<char>)
    requires
        single_line(a),
        single_line(b),
    ensures
        single_line(a + b),
{
    assert forall|k: int| 0 <= k < (a + b).len() implies (a + b)[k] != '\n' by {
        if k < a.len() {
            assert((a + b)[k] == a[k]);
        } else {
            assert((a + b)[k] == b[k - a.len()]);
        }
    }
}

proof fn lemma_line_of(x: Seq<char>)
    requires
        single_line(x),
    ensures
        is_line(x + "\n"@),
{
    lemma_newline_text();
    assert((x + "\n"@).drop_last() =~= x);
}

proof fn lemma_empty_avoids(hl: Seq<char>)
    ensures
        lines_avoid(Seq::empty(), hl),
{
    lemma_newline_text();
}

proof fn lemma_add_line(a: Seq<char>, line: Seq<char>, hl: Seq<char>)
    requires
        lines_avoid(a, hl),
        is_line(line),
        header_line(hl),
        line != hl,
    ensures
        lines_avoid(a + line, hl),
{
    lemma_newline_text();
    let h = "\n"@ + hl;
    let s = a + line;
    let m = h.len() as int;
    assert(h[0] == '\n');
    assert forall|j: int| 1 <= j < m - 1 implies h[j] != '\n' by {
        assert(h[j] == hl[j - 1]);
        assert(hl[j - 1] == hl.drop_last()[j - 1]);
    }
    assert(h[m - 1] == '\n');
    if holds_text(s, h) {
        let i = choose|i: int| 0 <= i && i + h.len() <= s.len() && #[trigger] s.subrange(i, i + h.len()) == h;
        if i + m <= a.len() {
            assert(a.subrange(i, i + m) =~= s.subrange(i, i + m));
            assert(holds_text(a, h));
        } else if i >= a.len() {
            let p = i - a.len();
            assert(s[i] == line[p]);
            assert(s.subrange(i, i + m)[0] == h[0]);
            assert(line[p] == '\n');
            assert(p == line.len() - 1) by {
                if p < line.len() - 1 {
                    assert(line.drop_last()[p] == line[p]);
                }
            }
            assert(false);
        } else {
            let j = a.len() - 1 - i;
            assert(s.subrange(i, i + m)[j] == s[a.len() - 1]);
            assert(s[a.len() - 1] == a.last());
            assert(h[j] == '\n');
            assert(j == 0);
            assert forall|k: int| 0 <= k < hl.len() implies line[k] == hl[k] by {
                assert(s.subrange(i, i + m)[k + 1] == s[a.len() + k]);
                assert(s[a.len() + k] == line[k]);
                assert(h[k + 1] == hl[k]);
            }
            assert(line[hl.len() - 1] == '\n');
            assert(hl.len() - 1 == line.len() - 1) by {
                if hl.len() - 1 < line.len() - 1 {
                    assert(line.drop_last()[hl.len() - 1] == line[hl.len() - 1]);
                }
            }
            assert(line =~= hl);
        }
    }
}

proof fn lemma_line_differs(line: Seq<char>, hl: Seq<char>, k: int)
    requires
        header_line(hl),
        0 <= k < line.len(),
        line[k] == ' ',
    ensures
        line != hl,
{
    if line == hl {
        assert(hl[k] == ' ');
    }
}

proof fn lemma_escape_single(s: Seq<char>)
    requires
        single_line(s),
    ensures
        single_line(toml_escape(s)),
    decreases s.len(),
{
    if s.len() > 0 {
        assert(single_line(s.drop_last())) by {
            assert forall|k: int| 0 <= k < s.drop_last().len() implies s.drop_last()[k] != '\n' by {
                assert(s.drop_last()[k] == s[k]);
            }
        }
        lemma_escape_single(s.drop_last());
        let c = s.last();
        let e = if c == '\\' {
            seq!['\\', '\\']
        } else if c == '"' {
            seq!['\\', '"']
        } else {
            seq![c]
        };
        assert(single_line(e));
        lemma_single_cat(toml_escape(s.drop_last()), e);
    }
}

proof fn lemma_decimal_single(n: nat)
    ensures
        single_line(decimal(n)),
    decreases n,
{
    if n >= 10 {
        lemma_decimal_single(n / 10);
        assert(single_line(seq![digit_char(n % 10)]));
        lemma_single_cat(decimal(n / 10), seq![digit_char(n % 10)]);
        assert(decimal(n) =~= decimal(n / 10) + seq![digit_char(n % 10)]);
    }
}

proof fn lemma_hex_single(b: Seq<u8>)
    ensures
        single_line(hex_text(b)),
    decreases b.len(),
{
    if b.len() > 0 {
        lemma_hex_single(b.drop_last());
        let pair = seq![hex_lower_digit((b.last() / 16) as nat), hex_lower_digit((b.last() % 16) as nat)];
        assert(single_line(pair));
        lemma_single_cat(hex_text(b.drop_last()), pair);
    }
}

/// A `key = "value"` line with a key and value of one line each is a
/// line, and not a section header.
proof fn lemma_string_line(a: Seq<char>, key: Seq<char>, value: Seq<char>, hl: Seq<char>)
    requires
        lines_avoid(a, hl),
        header_line(hl),
        single_line(key),
        single_line(value),
    ensures
        lines_avoid(a + string_line(key, value), hl),
{
    reveal_strlit(" = ");
    lemma_escape_single(value);
    let q = toml_quoted(value);
    assert(single_line(seq!['"']));
    lemma_single_cat(seq!['"'], toml_escape(value));
    lemma_single_cat(seq!['"'] + toml_escape(value), seq!['"']);
    assert(single_line(" = "@));
    lemma_single_cat(key, " = "@);
    lemma_single_cat(key + " = "@, q);
    lemma_line_of(key + " = "@ + q);
    let line = string_line(key, value);
    assert(line[key.len() as int] == ' ');
    lemma_line_differs(line, hl, key.len() as int);
    lemma_add_line(a, line, hl);
}

/// A `key = number` line with a key of one line is a line, and not a
/// section header.
proof fn lemma_number_line(a: Seq<char>, key: Seq<char>, n: nat, hl: Seq<char>)
    requires
        lines_avoid(a, hl),
        header_line(hl),
        single_line(key),
    ensures
        lines_avoid(a + number_line(key, n), hl),
{
    reveal_strlit(" = ");
    lemma_decimal_single(n);
    assert(single_line(" = "@));
    lemma_single_cat(key, " = "@);
    lemma_single_cat(key + " = "@, decimal(n));
    lemma_line_of(key + " = "@ + decimal(n));
    let line = number_line(key, n);
    assert(line[key.len() as int] == ' ');
    lemma_line_differs(line, hl, key.len() as int);
    lemma_add_line(a, line, hl);
}

proof fn lemma_optional_line(a: Seq<char>, key: Seq<char>, value: Option<Seq<char>>, hl: Seq<char>)
    requires
        lines_avoid(a, hl),
        header_line(hl),
        single_line(key),
        value matches Some(v) ==> single_line(v),
    ensures
        lines_avoid(a + optional_line(key, value), hl),
{
    match value {
        Some(v) => lemma_string_line(a, key, v, hl),
        None => {
            assert(a + optional_line(key, value) =~= a);
        },
    }
}

/// A fixed line that holds a space is a line, and not a section header.
proof fn lemma_spaced_line(a: Seq<char>, line: Seq<char>, hl: Seq<char>, k: int)
    requires
        lines_avoid(a, hl),
        header_line(hl),
        is_line(line),
        0 <= k < line.len(),
        line[k] == ' ',
    ensures
        lines_avoid(a + line, hl),
{
    lemma_line_differs(line, hl, k);
    lemma_add_line(a, line, hl);
}

proof fn lemma_blank_then_header(a: Seq<char>, header: Seq<char>, hl: Seq<char>)
    requires
        lines_avoid(a, hl),
        header_line(hl),
        is_line(header),
        header != hl,
    ensures
        lines_avoid(a + ("\n"@ + header), hl),
{
    lemma_newline_text();
    assert(is_line("\n"@)) by {
        assert("\n"@.drop_last() =~= Seq::<char>::empty());
    }
    lemma_add_line(a, "\n"@, hl);
    lemma_add_line(a + "\n"@, header, hl);
    assert(a + "\n"@ + header =~= a + ("\n"@ + header));
}

/// Whether an optional text, when present, is one line.
pub open spec fn single_line_opt(o: Option<Seq<char>>) -> bool {
    o matches Some(t) ==> single_line(t)
}

/// Whether every text the setup writes from its answers (and the API
/// key) is one line.
pub open spec fn answers_single_line(inputs: SetupInputs, plaintext: Option<Seq<char>>) -> bool {
    &&& single_line(inputs.interface@)
    &&& single_line(inputs.api_bind_address@)
    &&& single_line(inputs.log_level@)
    &&& single_line(inputs.database_path@)
    &&& single_line_opt(plaintext)
    &&& inputs.mqtt matches Some(m) ==> single_line(m.host@) && single_line(m.topic@) && single_line_opt(opt_view(m.username))
        && single_line_opt(opt_view(m.password))
    &&& inputs.ntfy matches Some(n) ==> single_line(n.base_url@) && single_line(n.topic@) && single_line_opt(opt_view(n.token))
    &&& inputs.webhook matches Some(w) ==> single_line(w.url@) && single_line_opt(opt_view(w.token))
    &&& inputs.email matches Some(e) ==> single_line(e.host@) && single_line(e.username@) && single_line(e.password@)
        && single_line(e.from@) && single_line(e.to@)
}

proof fn lemma_head_avoids(inputs: SetupInputs, hl: Seq<char>)
    requires
        header_line(hl),
        answers_single_line(inputs, None),
    ensures
        lines_avoid(config_head(inputs), hl),
{
    reveal_strlit("# EdgeShield configuration — generated by `edgeshield setup`\n# See https://github.com/edgeshield/edgeshield for the full reference.\n\n");
    reveal_strlit("# EdgeShield configuration — generated by `edgeshield setup`\n");
    reveal_strlit("# See https://github.com/edgeshield/edgeshield for the full reference.\n");
    reveal_strlit("\n");
    reveal_strlit("interface");
    reveal_strlit("api_port");
    reveal_strlit("api_bind_address");
    reveal_strlit("log_level");
    reveal_strlit("capture_buffer = 4096\n");
    reveal_strlit("database_path");
    let l1 = "# EdgeShield configuration — generated by `edgeshield setup`\n"@;
    let l2 = "# See https://github.com/edgeshield/edgeshield for the full reference.\n"@;
    let l3 = "\n"@;
    assert("# EdgeShield configuration — generated by `edgeshield setup`\n# See https://github.com/edgeshield/edgeshield for the full reference.\n\n"@
        =~= l1 + l2 + l3);
    assert(is_line(l1));
    assert(is_line(l2));
    assert(is_line(l3));
    lemma_empty_avoids(hl);
    lemma_spaced_line(Seq::empty(), l1, hl, 1);
    assert(Seq::<char>::empty() + l1 =~= l1);
    lemma_spaced_line(l1, l2, hl, 1);
    lemma_add_line(l1 + l2, l3, hl);
    let x0 = l1 + l2 + l3;
    lemma_string_line(x0, "interface"@, inputs.interface@, hl);
    let x1 = x0 + string_line("interface"@, inputs.interface@);
    lemma_number_line(x1, "api_port"@, inputs.api_port as nat, hl);
    let x2 = x1 + number_line("api_port"@, inputs.api_port as nat);
    lemma_string_line(x2, "api_bind_address"@, inputs.api_bind_address@, hl);
    let x3 = x2 + string_line("api_bind_address"@, inputs.api_bind_address@);
    lemma_string_line(x3, "log_level"@, inputs.log_level@, hl);
    let x4 = x3 + string_line("log_level"@, inputs.log_level@);
    let cb = "capture_buffer = 4096\n"@;
    assert(is_line(cb));
    lemma_spaced_line(x4, cb, hl, 14);
    let x5 = x4 + cb;
    lemma_string_line(x5, "database_path"@, inputs.database_path@, hl);
}

proof fn lemma_auth_avoids(a: Seq<char>, plaintext: Option<Seq<char>>, hl: Seq<char>)
    requires
        lines_avoid(a, hl),
        header_line(hl),
        single_line_opt(plaintext),
        plaintext is Some ==> hl != "[api.auth]\n"@,
    ensures
        lines_avoid(a + auth_section(plaintext), hl),
{
    match plaintext {
        None => {
            assert(a + auth_section(plaintext) =~= a);
        },
        Some(p) => {
            reveal_strlit("\n[api.auth]\n# read_key (plaintext, shown once by setup): ");
            reveal_strlit("[api.auth]\n");
            reveal_strlit("# read_key (plaintext, shown once by setup): ");
            reveal_strlit("\n");
            reveal_strlit("read_key_hash");
            let hdr = "[api.auth]\n"@;
            let c = "# read_key (plaintext, shown once by setup): "@;
            assert("\n[api.auth]\n# read_key (plaintext, shown once by setup): "@ =~= "\n"@ + hdr + c);
            assert(is_line(hdr));
            lemma_blank_then_header(a, hdr, hl);
            let x0 = a + ("\n"@ + hdr);
            assert(single_line(c));
            lemma_single_cat(c, p);
            lemma_line_of(c + p);
            lemma_spaced_line(x0, c + p + "\n"@, hl, 1);
            let x1 = x0 + (c + p + "\n"@);
            lemma_hex_single(sha256(encode_utf8(p)));
            lemma_string_line(x1, "read_key_hash"@, hex_text(sha256(encode_utf8(p))), hl);
            assert(a + auth_section(plaintext) =~= x1 + string_line("read_key_hash"@, hex_text(sha256(encode_utf8(p)))));
        },
    }
}

proof fn lemma_mqtt_avoids(a: Seq<char>, m: Option<MqttInputs>, hl: Seq<char>)
    requires
        lines_avoid(a, hl),
        header_line(hl),
        m matches Some(x) ==> single_line(x.host@) && single_line(x.topic@) && single_line_opt(opt_view(x.username))
            && single_line_opt(opt_view(x.password)),
        m is Some ==> hl != "[mqtt]\n"@,
    ensures
        lines_avoid(a + mqtt_section(m), hl),
{
    match m {
        None => {
            assert(a + mqtt_section(m) =~= a);
        },
        Some(x) => {
            reveal_strlit("\n[mqtt]\n");
            reveal_strlit("[mqtt]\n");
            reveal_strlit("\n");
            reveal_strlit("host");
            reveal_strlit("port");
            reveal_strlit("topic");
            reveal_strlit("username");
            reveal_strlit("password");
            reveal_strlit("qos = 1\n");
            let hdr = "[mqtt]\n"@;
            assert("\n[mqtt]\n"@ =~= "\n"@ + hdr);
            assert(is_line(hdr));
            lemma_blank_then_header(a, hdr, hl);
            let x0 = a + ("\n"@ + hdr);
            lemma_string_line(x0, "host"@, x.host@, hl);
            let x1 = x0 + string_line("host"@, x.host@);
            lemma_number_line(x1, "port"@, x.port as nat, hl);
            let x2 = x1 + number_line("port"@, x.port as nat);
            lemma_string_line(x2, "topic"@, x.topic@, hl);
            let x3 = x2 + string_line("topic"@, x.topic@);
            lemma_optional_line(x3, "username"@, opt_view(x.username), hl);
            let x4 = x3 + optional_line("username"@, opt_view(x.username));
            lemma_optional_line(x4, "password"@, opt_view(x.password), hl);
            let x5 = x4 + optional_line("password"@, opt_view(x.password));
            let q = "qos = 1\n"@;
            assert(is_line(q));
            lemma_spaced_line(x5, q, hl, 3);
            assert(a + mqtt_section(m) =~= x5 + q);
        },
    }
}

proof fn lemma_ntfy_avoids(a: Seq<char>, n: Option<NtfyInputs>, hl: Seq<char>)
    requires
        lines_avoid(a, hl),
        header_line(hl),
        n matches Some(x) ==> single_line(x.base_url@) && single_line(x.topic@) && single_line_opt(opt_view(x.token)),
        n is Some ==> hl != "[ntfy]\n"@,
    ensures
        lines_avoid(a + ntfy_section(n), hl),
{
    match n {
        None => {
            assert(a + ntfy_section(n) =~= a);
        },
        Some(x) => {
            reveal_strlit("\n[ntfy]\n");
            reveal_strlit("[ntfy]\n");
            reveal_strlit("\n");
            reveal_strlit("base_url");
            reveal_strlit("topic");
            reveal_strlit("token");
            let hdr = "[ntfy]\n"@;
            assert("\n[ntfy]\n"@ =~= "\n"@ + hdr);
            assert(is_line(hdr));
            lemma_blank_then_header(a, hdr, hl);
            let x0 = a + ("\n"@ + hdr);
            lemma_string_line(x0, "base_url"@, x.base_url@, hl);
            let x1 = x0 + string_line("base_url"@, x.base_url@);
            lemma_string_line(x1, "topic"@, x.topic@, hl);
            let x2 = x1 + string_line("topic"@, x.topic@);
            lemma_optional_line(x2, "token"@, opt_view(x.token), hl);
            assert(a + ntfy_section(n) =~= x2 + optional_line("token"@, opt_view(x.token)));
        },
    }
}

proof fn lemma_webhook_avoids(a: Seq<char>, w: Option<WebhookInputs>, hl: Seq<char>)
    requires
        lines_avoid(a, hl),
        header_line(hl),
        w matches Some(x) ==> single_line(x.url@) && single_line_opt(opt_view(x.token)),
        w is Some ==> hl != "[webhook]\n"@,
    ensures
        lines_avoid(a + webhook_section(w), hl),
{
    match w {
        None => {
            assert(a + webhook_section(w) =~= a);
        },
        Some(x) => {
            reveal_strlit("\n[webhook]\n");
            reveal_strlit("[webhook]\n");
            reveal_strlit("\n");
            reveal_strlit("url");
            reveal_strlit("token");
            reveal_strlit("timeout_seconds = 10\n");
            let hdr = "[webhook]\n"@;
            assert("\n[webhook]\n"@ =~= "\n"@ + hdr);
            assert(is_line(hdr));
            lemma_blank_then_header(a, hdr, hl);
            let x0 = a + ("\n"@ + hdr);
            lemma_string_line(x0, "url"@, x.url@, hl);
            let x1 = x0 + string_line("url"@, x.url@);
            lemma_optional_line(x1, "token"@, opt_view(x.token), hl);
            let x2 = x1 + optional_line("token"@, opt_view(x.token));
            let t = "timeout_seconds = 10\n"@;
            assert(is_line(t));
            lemma_spaced_line(x2, t, hl, 15);
            assert(a + webhook_section(w) =~= x2 + t);
        },
    }
}

proof fn lemma_email_avoids(a: Seq<char>, e: Option<EmailInputs>, hl: Seq<char>)
    requires
        lines_avoid(a, hl),
        header_line(hl),
        e matches Some(x) ==> single_line(x.host@) && single_line(x.username@) && single_line(x.password@) && single_line(
            x.from@,
        ) && single_line(x.to@),
        e is Some ==> hl != "[email]\n"@,
    ensures
        lines_avoid(a + email_section(e), hl),
{
    match e {
        None => {
            assert(a + email_section(e) =~= a);
        },
        Some(x) => {
            reveal_strlit("\n[email]\n");
            reveal_strlit("[email]\n");
            reveal_strlit("\n");
            reveal_strlit("host");
            reveal_strlit("port");
            reveal_strlit("username");
            reveal_strlit("password");
            reveal_strlit("from");
            reveal_strlit("to");
            reveal_strlit("starttls = true\nsubject_prefix = \"[EdgeShield]\"\n");
            reveal_strlit("starttls = true\n");
            reveal_strlit("subject_prefix = \"[EdgeShield]\"\n");
            let hdr = "[email]\n"@;
            assert("\n[email]\n"@ =~= "\n"@ + hdr);
            assert(is_line(hdr));
            lemma_blank_then_header(a, hdr, hl);
            let x0 = a + ("\n"@ + hdr);
            lemma_string_line(x0, "host"@, x.host@, hl);
            let x1 = x0 + string_line("host"@, x.host@);
            lemma_number_line(x1, "port"@, x.port as nat, hl);
            let x2 = x1 + number_line("port"@, x.port as nat);
            lemma_string_line(x2, "username"@, x.username@, hl);
            let x3 = x2 + string_line("username"@, x.username@);
            lemma_string_line(x3, "password"@, x.password@, hl);
            let x4 = x3 + string_line("password"@, x.password@);
            lemma_string_line(x4, "from"@, x.from@, hl);
            let x5 = x4 + string_line("from"@, x.from@);
            lemma_string_line(x5, "to"@, x.to@, hl);
            let x6 = x5 + string_line("to"@, x.to@);
            let t1 = "starttls = true\n"@;
            let t2 = "subject_prefix = \"[EdgeShield]\"\n"@;
            assert("starttls = true\nsubject_prefix = \"[EdgeShield]\"\n"@ =~= t1 + t2);
            assert(is_line(t1));
            assert(is_line(t2));
            lemma_spaced_line(x6, t1, hl, 8);
            lemma_spaced_line(x6 + t1, t2, hl, 14);
            assert(a + email_section(e) =~= x6 + t1 + t2);
        },
    }
}

proof fn lemma_rule_avoids(a: Seq<char>, hl: Seq<char>)
    requires
        lines_avoid(a, hl),
        header_line(hl),
        hl != "[[rules]]\n"@,
    ensures
        lines_avoid(a + default_rule_text(), hl),
{
    reveal_strlit("\n[[rules]]\nname = \"new_device\"\ncondition = \"new_device\"\nseverity = \"info\"\ncooldown_seconds = 0\n");
    reveal_strlit("[[rules]]\n");
    reveal_strlit("\n");
    reveal_strlit("name = \"new_device\"\n");
    reveal_strlit("condition = \"new_device\"\n");
    reveal_strlit("severity = \"info\"\n");
    reveal_strlit("cooldown_seconds = 0\n");
    let hdr = "[[rules]]\n"@;
    let l1 = "name = \"new_device\"\n"@;
    let l2 = "condition = \"new_device\"\n"@;
    let l3 = "severity = \"info\"\n"@;
    let l4 = "cooldown_seconds = 0\n"@;
    assert(default_rule_text() =~= "\n"@ + hdr + l1 + l2 + l3 + l4);
    assert(is_line(hdr));
    assert(is_line(l1));
    assert(is_line(l2));
    assert(is_line(l3));
    assert(is_line(l4));
    lemma_blank_then_header(a, hdr, hl);
    let x0 = a + ("\n"@ + hdr);
    lemma_spaced_line(x0, l1, hl, 4);
    lemma_spaced_line(x0 + l1, l2, hl, 9);
    lemma_spaced_line(x0 + l1 + l2, l3, hl, 8);
    lemma_spaced_line(x0 + l1 + l2 + l3, l4, hl, 16);
    assert(a + default_rule_text() =~= x0 + l1 + l2 + l3 + l4);
}

proof fn lemma_rendered_avoids(inputs: SetupInputs, plaintext: Option<Seq<char>>, hl: Seq<char>)
    requires
        answers_single_line(inputs, plaintext),
        header_line(hl),
        plaintext is Some ==> hl != "[api.auth]\n"@,
        inputs.mqtt is Some ==> hl != "[mqtt]\n"@,
        inputs.ntfy is Some ==> hl != "[ntfy]\n"@,
        inputs.webhook is Some ==> hl != "[webhook]\n"@,
        inputs.email is Some ==> hl != "[email]\n"@,
        hl != "[[rules]]\n"@,
    ensures
        !holds_text(rendered_config(inputs, plaintext), "\n"@ + hl),
{
    lemma_head_avoids(inputs, hl);
    let s0 = config_head(inputs);
    lemma_auth_avoids(s0, plaintext, hl);
    let s1 = s0 + auth_section(plaintext);
    lemma_mqtt_avoids(s1, inputs.mqtt, hl);
    let s2 = s1 + mqtt_section(inputs.mqtt);
    lemma_ntfy_avoids(s2, inputs.ntfy, hl);
    let s3 = s2 + ntfy_section(inputs.ntfy);
    lemma_webhook_avoids(s3, inputs.webhook, hl);
    let s4 = s3 + webhook_section(inputs.webhook);
    lemma_email_avoids(s4, inputs.email, hl);
    lemma_rule_avoids(s4 + email_section(inputs.email), hl);
}

/// When every answer is one line, the file the setup writes has no
/// header of a section it was given nothing for: no `[api.auth]`
/// without an API key, and no `[mqtt]`, `[ntfy]`, `[webhook]` or
/// `[email]` without that notifier.
pub proof fn law_absent_sections(inputs: SetupInputs, plaintext: Option<Seq<char>>)
    requires
        answers_single_line(inputs, plaintext),
    ensures
        plaintext is None ==> !holds_text(rendered_config(inputs, plaintext), "\n[api.auth]\n"@),
        inputs.mqtt is None ==> !holds_text(rendered_config(inputs, plaintext), "\n[mqtt]\n"@),
        inputs.ntfy is None ==> !holds_text(rendered_config(inputs, plaintext), "\n[ntfy]\n"@),
        inputs.webhook is None ==> !holds_text(rendered_config(inputs, plaintext), "\n[webhook]\n"@),
        inputs.email is None ==> !holds_text(rendered_config(inputs, plaintext), "\n[email]\n"@),
{
    reveal_strlit("\n");
    reveal_strlit("[api.auth]\n");
    reveal_strlit("[mqtt]\n");
    reveal_strlit("[ntfy]\n");
    reveal_strlit("[webhook]\n");
    reveal_strlit("[email]\n");
    reveal_strlit("[[rules]]\n");
    reveal_strlit("\n[api.auth]\n");
    reveal_strlit("\n[mqtt]\n");
    reveal_strlit("\n[ntfy]\n");
    reveal_strlit("\n[webhook]\n");
    reveal_strlit("\n[email]\n");
    let headers = seq!["[api.auth]\n"@, "[mqtt]\n"@, "[ntfy]\n"@, "[webhook]\n"@, "[email]\n"@];
    assert forall|k: int| 0 <= k < headers.len() implies header_line(#[trigger] headers[k]) by {
        assert(is_line(headers[k]));
    }
    assert(headers[0] != "[mqtt]\n"@ && headers[0] != "[ntfy]\n"@ && headers[0] != "[webhook]\n"@ && headers[0] != "[email]\n"@
        && headers[0] != "[[rules]]\n"@) by {
        assert(headers[0].len() != "[mqtt]\n"@.len());
        assert(headers[0].len() != "[ntfy]\n"@.len());
        assert(headers[0].len() != "[webhook]\n"@.len());
        assert(headers[0].len() != "[email]\n"@.len());
        assert(headers[0].len() != "[[rules]]\n"@.len());
    }
    assert(headers[1] != "[api.auth]\n"@ && headers[1] != "[ntfy]\n"@ && headers[1] != "[webhook]\n"@ && headers[1] != "[email]\n"@
        && headers[1] != "[[rules]]\n"@) by {
        assert(headers[1][1] != "[ntfy]\n"@[1]);
        assert(headers[1].len() != "[api.auth]\n"@.len());
        assert(headers[1].len() != "[webhook]\n"@.len());
        assert(headers[1].len() != "[email]\n"@.len());
        assert(headers[1].len() != "[[rules]]\n"@.len());
    }
    assert(headers[2] != "[api.auth]\n"@ && headers[2] != "[mqtt]\n"@ && headers[2] != "[webhook]\n"@ && headers[2] != "[email]\n"@
        && headers[2] != "[[rules]]\n"@) by {
        assert(headers[2][1] != "[mqtt]\n"@[1]);
        assert(headers[2].len() != "[api.auth]\n"@.len());
        assert(headers[2].len() != "[webhook]\n"@.len());
        assert(headers[2].len() != "[email]\n"@.len());
        assert(headers[2].len() != "[[rules]]\n"@.len());
    }
    assert(headers[3] != "[api.auth]\n"@ && headers[3] != "[mqtt]\n"@ && headers[3] != "[ntfy]\n"@ && headers[3] != "[email]\n"@
        && headers[3] != "[[rules]]\n"@) by {
        assert(headers[3][1] != "[[rules]]\n"@[1]);
        assert(headers[3].len() != "[api.auth]\n"@.len());
        assert(headers[3].len() != "[mqtt]\n"@.len());
        assert(headers[3].len() != "[ntfy]\n"@.len());
        assert(headers[3].len() != "[email]\n"@.len());
    }
    assert(headers[4] != "[api.auth]\n"@ && headers[4] != "[mqtt]\n"@ && headers[4] != "[ntfy]\n"@ && headers[4] != "[webhook]\n"@
        && headers[4] != "[[rules]]\n"@) by {
        assert(headers[4].len() != "[api.auth]\n"@.len());
        assert(headers[4].len() != "[mqtt]\n"@.len());
        assert(headers[4].len() != "[ntfy]\n"@.len());
        assert(headers[4].len() != "[webhook]\n"@.len());
        assert(headers[4].len() != "[[rules]]\n"@.len());
    }
    if plaintext is None {
        lemma_rendered_avoids(inputs, plaintext, headers[0]);
        assert("\n[api.auth]\n"@ =~= "\n"@ + headers[0]);
    }
    if inputs.mqtt is None {
        lemma_rendered_avoids(inputs, plaintext, headers[1]);
        assert("\n[mqtt]\n"@ =~= "\n"@ + headers[1]);
    }
    if inputs.ntfy is None {
        lemma_rendered_avoids(inputs, plaintext, headers[2]);
        assert("\n[ntfy]\n"@ =~= "\n"@ + headers[2]);
    }
    if inputs.webhook is None {
        lemma_rendered_avoids(inputs, plaintext, headers[3]);
        assert("\n[webhook]\n"@ =~= "\n"@ + headers[3]);
    }
    if inputs.email is None {
        lemma_rendered_avoids(inputs, plaintext, headers[4]);
        assert("\n[email]\n"@ =~= "\n"@ + headers[4]);
    }
}

fn push_string_line(s: &mut String, key: &str, value: &str)
    ensures
        final(s)@ == old(s)@ + string_line(key@, value@),
{
    push_str(s, key);
    push_str(s, " = ");
    push_str(s, toml_string(value).as_str());
    push_str(s, "\n");
    assert(final(s)@ =~= old(s)@ + string_line(key@, value@));
}

fn push_number_line(s: &mut String, key: &str, n: u64)
    ensures
        final(s)@ == old(s)@ + number_line(key@, n as nat),
{
    push_str(s, key);
    push_str(s, " = ");
    push_decimal(s, n);
    push_str(s, "\n");
    assert(final(s)@ =~= old(s)@ + number_line(key@, n as nat));
}

fn push_optional_line(s: &mut String, key: &str, value: &Option<String>)
    ensures
        final(s)@ == old(s)@ + optional_line(key@, opt_view(*value)),
{
    match value {
        Some(v) => push_string_line(s, key, v.as_str()),
        None => {
            assert(old(s)@ + Seq::<char>::empty() =~= old(s)@);
        },
    }
}

fn push_auth_section(s: &mut String, api_key_plaintext: Option<&str>)
    ensures
        final(s)@ == old(s)@ + auth_section(
            match api_key_plaintext {
                Some(p) => Some(p@),
                None => None,
            },
        ),
{
    if let Some(plaintext) = api_key_plaintext {
        let hash = sha256_hex(plaintext.as_bytes());
        push_str(s, "\n[api.auth]\n# read_key (plaintext, shown once by setup): ");
        push_str(s, plaintext);
        push_str(s, "\n");
        push_string_line(s, "read_key_hash", hash.as_str());
        assert(final(s)@ =~= old(s)@ + auth_section(Some(plaintext@)));
    } else {
        assert(old(s)@ + Seq::<char>::empty() =~= old(s)@);
    }
}

fn push_mqtt_section(s: &mut String, mqtt: &Option<MqttInputs>)
    ensures
        final(s)@ == old(s)@ + mqtt_section(*mqtt),
{
    if let Some(m) = mqtt {
        push_str(s, "\n[mqtt]\n");
        push_string_line(s, "host", m.host.as_str());
        push_number_line(s, "port", m.port as u64);
        push_string_line(s, "topic", m.topic.as_str());
        push_optional_line(s, "username", &m.username);
        push_optional_line(s, "password", &m.password);
        push_str(s, "qos = 1\n");
        assert(final(s)@ =~= old(s)@ + mqtt_section(*mqtt));
    } else {
        assert(old(s)@ + Seq::<char>::empty() =~= old(s)@);
    }
}

fn push_ntfy_section(s: &mut String, ntfy: &Option<NtfyInputs>)
    ensures
        final(s)@ == old(s)@ + ntfy_section(*ntfy),
{
    if let Some(n) = ntfy {
        push_str(s, "\n[ntfy]\n");
        push_string_line(s, "base_url", n.base_url.as_str());
        push_string_line(s, "topic", n.topic.as_str());
        push_optional_line(s, "token", &n.token);
        assert(final(s)@ =~= old(s)@ + ntfy_section(*ntfy));
    } else {
        assert(old(s)@ + Seq::<char>::empty() =~= old(s)@);
    }
}

fn push_webhook_section(s: &mut String, webhook: &Option<WebhookInputs>)
    ensures
        final(s)@ == old(s)@ + webhook_section(*webhook),
{
    if let Some(w) = webhook {
        push_str(s, "\n[webhook]\n");
        push_string_line(s, "url", w.url.as_str());
        push_optional_line(s, "token", &w.token);
        push_str(s, "timeout_seconds = 10\n");
        assert(final(s)@ =~= old(s)@ + webhook_section(*webhook));
    } else {
        assert(old(s)@ + Seq::<char>::empty() =~= old(s)@);
    }
}

fn push_email_section(s: &mut String, email: &Option<EmailInputs>)
    ensures
        final(s)@ == old(s)@ + email_section(*email),
{
    if let Some(e) = email {
        push_str(s, "\n[email]\n");
        push_string_line(s, "host", e.host.as_str());
        push_number_line(s, "port", e.port as u64);
        push_string_line(s, "username", e.username.as_str());
        push_string_line(s, "password", e.password.as_str());
        push_string_line(s, "from", e.from.as_str());
        push_string_line(s, "to", e.to.as_str());
        push_str(s, "starttls = true\nsubject_prefix = \"[EdgeShield]\"\n");
        assert(final(s)@ =~= old(s)@ + email_section(*email));
    } else {
        assert(old(s)@ + Seq::<char>::empty() =~= old(s)@);
    }
}

/// Renders the setup answers as a configuration file (see
/// [`rendered_config`]); with an API key, its SHA-256 digest is the read
/// key hash.
pub fn render_toml(inputs: &SetupInputs, api_key_plaintext: Option<&str>) -> (r: String)
    ensures
        r@ == rendered_config(
            *inputs,
            match api_key_plaintext {
                Some(p) => Some(p@),
                None => None,
            },
        ),
{
    let mut s = copy_str(
        "# EdgeShield configuration — generated by `edgeshield setup`\n# See https://github.com/edgeshield/edgeshield for the full reference.\n\n",
    );
    push_string_line(&mut s, "interface", inputs.interface.as_str());
    push_number_line(&mut s, "api_port", inputs.api_port as u64);
    push_string_line(&mut s, "api_bind_address", inputs.api_bind_address.as_str());
    push_string_line(&mut s, "log_level", inputs.log_level.as_str());
    push_str(&mut s, "capture_buffer = 4096\n");
    push_string_line(&mut s, "database_path", inputs.database_path.as_str());
    push_auth_section(&mut s, api_key_plaintext);
    push_mqtt_section(&mut s, &inputs.mqtt);
    push_ntfy_section(&mut s, &inputs.ntfy);
    push_webhook_section(&mut s, &inputs.webhook);
    push_email_section(&mut s, &inputs.email);
    push_str(
        &mut s,
        "\n[[rules]]\nname = \"new_device\"\ncondition = \"new_device\"\nseverity = \"info\"\ncooldown_seconds = 0\n",
    );
    proof {
        assert(s@ =~= rendered_config(
            *inputs,
            match api_key_plaintext {
                Some(p) => Some(p@),
                None => None,
            },
        ));
    }
    s
}

/// Renders the configuration and reads it back as the daemon would,
/// returning the text when it is a valid configuration and the reading
/// error otherwise.
pub fn render_validated(inputs: &SetupInputs, api_key_plaintext: Option<&str>) -> (r: Result<String, ConfigError>)
    ensures
        ({
            let text = rendered_config(
                *inputs,
                match api_key_plaintext {
                    Some(p) => Some(p@),
                    None => None,
                },
            );
            match toml_document(text) {
                Err(m) => r matches Err(ConfigError::Parse(e)) && e@ == m,
                Ok(es) => match spec_config_outcome(es) {
                    Ok(_) => r matches Ok(t) && t@ == text,
                    Err(f) => r matches Err(x) && config_error_is(x, f),
                },
            }
        }),
{
    let text = render_toml(inputs, api_key_plaintext);
    match Config::from_str(text.as_str()) {
        Ok(_) => Ok(text),
        Err(e) => Err(e),
    }
}

// ---------------------------------------------------------------- key banner

/// `n` copies of `c`.
pub open spec fn repeat_char(c: char, n: nat) -> Seq<char>
    decreases n,
{
    if n == 0 {
        Seq::empty()
    } else {
        repeat_char(c, (n - 1) as nat).push(c)
    }
}

fn push_repeat(s: &mut String, c: char, n: usize)
    ensures
        final(s)@ == old(s)@ + repeat_char(c, n as nat),
{
    let mut i: usize = 0;
    while i < n
        invariant
            i <= n,
            s@ == old(s)@ + repeat_char(c, i as nat),
        decreases n - i,
    {
        push_char(s, c);
        proof {
            assert(repeat_char(c, (i + 1) as nat) == repeat_char(c, i as nat).push(c));
        }
        i = i + 1;
    }
}

/// The banner that shows a new API key: a box as wide as the key plus
/// padding (the width counts the key's bytes), a label line, the key
/// line, and the note that only the hash was stored.
pub open spec fn key_banner_text(key: Seq<char>) -> Seq<char> {
    let inner = encode_utf8(key).len() + 4;
    "\n┌"@ + repeat_char('─', inner) + "┐\n"@ + "│  API key (shown once — save it now):"@ + repeat_char(
        ' ',
        (inner - 37) as nat,
    ) + "│\n"@ + "│  "@ + key + "  │\n"@ + "└"@ + repeat_char('─', inner) + "┘\n"@
        + "Only the SHA-256 hash was written to the config. Use this key as the\nBearer token for API requests.\n\n"@
}

/// The banner for a new API key (see [`key_banner_text`]); the key must
/// be at least 33 bytes long so the label fits.
pub fn api_key_banner(key: &str) -> (r: String)
    requires
        encode_utf8(key@).len() >= 33,
        encode_utf8(key@).len() + 4 <= usize::MAX,
    ensures
        r@ == key_banner_text(key@),
{
    let inner = key.len() + 4;
    let mut s = copy_str("\n┌");
    push_repeat(&mut s, '─', inner);
    push_str(&mut s, "┐\n");
    push_str(&mut s, "│  API key (shown once — save it now):");
    push_repeat(&mut s, ' ', inner - 37);
    push_str(&mut s, "│\n");
    push_str(&mut s, "│  ");
    push_str(&mut s, key);
    push_str(&mut s, "  │\n");
    push_str(&mut s, "└");
    push_repeat(&mut s, '─', inner);
    push_str(&mut s, "┘\n");
    push_str(
        &mut s,
        "Only the SHA-256 hash was written to the config. Use this key as the\nBearer token for API requests.\n\n",
    );
    assert(s@ =~= key_banner_text(key@));
    s
}

/// Whether the banner can be drawn for `key` (see [`api_key_banner`]).
pub fn key_fits_banner(key: &str) -> (r: bool)
    ensures
        r == (encode_utf8(key@).len() as usize >= 33),
{
    key.len() >= 33
}

} // verus!
