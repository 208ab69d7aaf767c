//! The command line: its commands and options, and what the commands
//! compute before any I/O: the setup answers taken from options, the
//! configuration paths tried, and the shell completion scripts.

use vstd::prelude::*;

use crate::config::{is_blank, str_is_blank};
use crate::setup::{EmailInputs, MqttInputs, NtfyInputs, SetupInputs, WebhookInputs};
use crate::text::{copy_str, push_str, str_eq};

verus! {

/// The program's command line.
#[derive(Debug, Clone)]
pub struct Cli {
    pub command: Command,
}

/// The commands of the program.
#[derive(Debug, Clone)]
pub enum Command {
    /// Run the daemon with the configuration at `config`.
    Run { config: String },
    /// Print the default configuration.
    DefaultConfig,
    /// Print the completion script of a shell (`bash` or `zsh`).
    Completions { shell: String },
    /// The first-run setup.
    Setup {
        config: String,
        non_interactive: bool,
        force: bool,
        interface: Option<String>,
        api_port: Option<u16>,
        bind: Option<String>,
        log_level: Option<String>,
        database_path: Option<String>,
        generate_api_key: bool,
        enable_mqtt: bool,
        mqtt_host: Option<String>,
        mqtt_port: Option<u16>,
        mqtt_topic: Option<String>,
        enable_ntfy: bool,
        ntfy_url: Option<String>,
        ntfy_topic: Option<String>,
        enable_webhook: bool,
        webhook_url: Option<String>,
        enable_email: bool,
        email_host: Option<String>,
        email_port: Option<u16>,
        email_username: Option<String>,
        email_password: Option<String>,
        email_from: Option<String>,
        email_to: Option<String>,
    },
}

/// The plain form of an optional string, or `default` when absent.
pub open spec fn or_default(o: Option<String>, default: Seq<char>) -> Seq<char> {
    match o {
        Some(s) => s@,
        None => default,
    }
}

fn string_or(o: Option<String>, default: &str) -> (r: String)
    ensures
        r@ == or_default(o, default@),
{
    match o {
        Some(s) => s,
        None => copy_str(default),
    }
}

/// Whether `inputs` are the setup answers the options give: each absent
/// value defaulted (port 8080, bind address `0.0.0.0`, log level `info`,
/// MQTT port 1883 and topic `edgeshield/devices/new`, SMTP port 587,
/// empty text otherwise), and a notifier section for each one enabled.
pub open spec fn inputs_from_options(
    inputs: SetupInputs,
    interface: Option<String>,
    api_port: Option<u16>,
    bind: Option<String>,
    log_level: Option<String>,
    database_path: Option<String>,
    generate_api_key: bool,
    enable_mqtt: bool,
    enable_ntfy: bool,
    enable_webhook: bool,
    enable_email: bool,
) -> bool {
    &&& inputs.interface@ == or_default(interface, Seq::empty())
    &&& inputs.api_port == match api_port {
        Some(p) => p,
        None => 8080u16,
    }
    &&& inputs.api_bind_address@ == or_default(bind, "0.0.0.0"@)
    &&& inputs.log_level@ == or_default(log_level, "info"@)
    &&& inputs.database_path@ == or_default(database_path, Seq::empty())
    &&& inputs.generate_api_key == generate_api_key
    &&& (inputs.mqtt is Some <==> enable_mqtt)
    &&& (inputs.ntfy is Some <==> enable_ntfy)
    &&& (inputs.webhook is Some <==> enable_webhook)
    &&& (inputs.email is Some <==> enable_email)
}

/// The setup answers that the options of a `setup` command give, with
/// the configuration path, the non-interactive flag and the force flag;
/// `None` for any other command.
pub fn setup_request(command: Command) -> (r: Option<(String, bool, bool, SetupInputs)>)
    ensures
        match command {
            Command::Setup {
                config,
                non_interactive,
                force,
                interface,
                api_port,
                bind,
                log_level,
                database_path,
                generate_api_key,
                enable_mqtt,
                mqtt_host,
                mqtt_port,
                mqtt_topic,
                enable_ntfy,
                ntfy_url,
                ntfy_topic,
                enable_webhook,
                webhook_url,
                enable_email,
                email_host,
                email_port,
                email_username,
                email_password,
                email_from,
                email_to,
            } => r matches Some(req) && req.0@ == config@ && req.1 == non_interactive && req.2 == force
                && inputs_from_options(
                req.3,
                interface,
                api_port,
                bind,
                log_level,
                database_path,
                generate_api_key,
                enable_mqtt,
                enable_ntfy,
                enable_webhook,
                enable_email,
            ) && (req.3.mqtt matches Some(m) ==> m.host@ == or_default(mqtt_host, Seq::empty()) && m.port == match mqtt_port {
                Some(p) => p,
                None => 1883u16,
            } && m.topic@ == or_default(mqtt_topic, "edgeshield/devices/new"@) && m.username is None && m.password is None)
                && (req.3.ntfy matches Some(n) ==> n.base_url@ == or_default(ntfy_url, Seq::empty()) && n.topic@
                == or_default(ntfy_topic, Seq::empty()) && n.token is None) && (req.3.webhook matches Some(w)
                ==> w.url@ == or_default(webhook_url, Seq::empty()) && w.token is None) && (req.3.email matches Some(e)
                ==> e.host@ == or_default(email_host, Seq::empty()) && e.port == match email_port {
                Some(p) => p,
                None => 587u16,
            } && e.username@ == or_default(email_username, Seq::empty()) && e.password@ == or_default(
                email_password,
                Seq::empty(),
            ) && e.from@ == or_default(email_from, Seq::empty()) && e.to@ == or_default(email_to, Seq::empty())),
            _ => r is None,
        },
{
    match command {
        Command::Setup {
            config,
            non_interactive,
            force,
            interface,
            api_port,
            bind,
            log_level,
            database_path,
            generate_api_key,
            enable_mqtt,
            mqtt_host,
            mqtt_port,
            mqtt_topic,
            enable_ntfy,
            ntfy_url,
            ntfy_topic,
            enable_webhook,
            webhook_url,
            enable_email,
            email_host,
            email_port,
            email_username,
            email_password,
            email_from,
            email_to,
        } => {
            let mqtt = if enable_mqtt {
                Some(
                    MqttInputs {
                        host: string_or(mqtt_host, ""),
                        port: match mqtt_port {
                            Some(p) => p,
                            None => 1883,
                        },
                        topic: string_or(mqtt_topic, "edgeshield/devices/new"),
                        username: None,
                        password: None,
                    },
                )
            } else {
                None
            };
            let ntfy = if enable_ntfy {
                Some(NtfyInputs { base_url: string_or(ntfy_url, ""), topic: string_or(ntfy_topic, ""), token: None })
            } else {
                None
            };
            let webhook = if enable_webhook {
                Some(WebhookInputs { url: string_or(webhook_url, ""), token: None })
            } else {
                None
            };
            let email = if enable_email {
                Some(
                    EmailInputs {
                        host: string_or(email_host, ""),
                        port: match email_port {
                            Some(p) => p,
                            None => 587,
                        },
                        username: string_or(email_username, ""),
                        password: string_or(email_password, ""),
                        from: string_or(email_from, ""),
                        to: string_or(email_to, ""),
                    },
                )
            } else {
                None
            };
            proof {
                reveal_strlit("");
                assert(""@ =~= Seq::<char>::empty());
            }
            let inputs = SetupInputs {
                interface: string_or(interface, ""),
                api_port: match api_port {
                    Some(p) => p,
                    None => 8080,
                },
                api_bind_address: string_or(bind, "0.0.0.0"),
                log_level: string_or(log_level, "info"),
                database_path: string_or(database_path, ""),
                generate_api_key,
                mqtt,
                ntfy,
                webhook,
                email,
            };
            Some((config, non_interactive, force, inputs))
        },
        _ => None,
    }
}

/// The message refusing a non-interactive setup without an interface.
pub open spec fn missing_interface_text() -> Seq<char> {
    "non-interactive setup requires --interface (or EDGESHIELD_INTERFACE env var)"@
}

/// A non-interactive setup needs an interface that is not blank.
pub fn check_non_interactive(inputs: &SetupInputs) -> (r: Result<(), String>)
    ensures
        is_blank(inputs.interface@) ==> (r matches Err(m) && m@ == missing_interface_text()),
        !is_blank(inputs.interface@) ==> r is Ok,
{
    if str_is_blank(inputs.interface.as_str()) {
        Err(copy_str("non-interactive setup requires --interface (or EDGESHIELD_INTERFACE env var)"))
    } else {
        Ok(())
    }
}

/// The other places a configuration is looked for, in order.
pub open spec fn fallback_paths() -> Seq<Seq<char>> {
    seq![
        "/etc/edgeshield/config.toml"@,
        "/usr/local/etc/edgeshield/config.toml"@,
        "edgeshield.toml"@,
        "config.toml"@,
    ]
}

/// The paths of `paths` that differ from `path`, in order.
pub open spec fn other_paths(path: Seq<char>, paths: Seq<Seq<char>>) -> Seq<Seq<char>>
    decreases paths.len(),
{
    if paths.len() == 0 {
        Seq::empty()
    } else if paths.last() != path {
        other_paths(path, paths.drop_last()).push(paths.last())
    } else {
        other_paths(path, paths.drop_last())
    }
}

/// The texts of a list of strings.
pub open spec fn texts(v: Seq<String>) -> Seq<Seq<char>> {
    v.map_values(|s: String| s@)
}

/// The paths a configuration is read from, in order: the one given,
/// then each fallback that differs from it, in the order of
/// [`fallback_paths`].
pub fn config_candidates(path: &str) -> (r: Vec<String>)
    ensures
        texts(r@) == seq![path@] + other_paths(path@, fallback_paths()),
{
    let mut out: Vec<String> = Vec::new();
    out.push(copy_str(path));
    let fallbacks = [
        "/etc/edgeshield/config.toml",
        "/usr/local/etc/edgeshield/config.toml",
        "edgeshield.toml",
        "config.toml",
    ];
    let mut i: usize = 0;
    proof {
        assert(fallback_paths().subrange(0, 0) =~= Seq::<Seq<char>>::empty());
        assert(texts(out@) =~= seq![path@] + other_paths(path@, fallback_paths().subrange(0, 0)));
    }
    while i < 4
        invariant
            i <= 4,
            fallbacks@.len() == 4,
            forall|j: int| 0 <= j < 4 ==> (#[trigger] fallbacks@[j])@ == fallback_paths()[j],
            texts(out@) == seq![path@] + other_paths(path@, fallback_paths().subrange(0, i as int)),
        decreases 4 - i,
    {
        let fb = fallbacks[i];
        let ghost before = out@;
        proof {
            assert(fallback_paths().subrange(0, i + 1).drop_last() =~= fallback_paths().subrange(0, i as int));
            assert(fallback_paths().subrange(0, i + 1).last() == fallback_paths()[i as int]);
        }
        if !str_eq(fb, path) {
            out.push(copy_str(fb));
            proof {
                assert(texts(out@) =~= texts(before).push(fb@));
            }
        }
        i = i + 1;
    }
    proof {
        assert(fallback_paths().subrange(0, 4) =~= fallback_paths());
    }
    out
}

/// The path of the flag that marks a wireless interface.
pub fn wireless_flag_path(iface: &str) -> (r: String)
    ensures
        r@ == "/sys/class/net/"@ + iface@ + "/wireless"@,
{
    let mut s = copy_str("/sys/class/net/");
    push_str(&mut s, iface);
    push_str(&mut s, "/wireless");
    s
}

/// The configuration the `default-config` command prints.
pub fn default_config_text() -> (r: String)
    ensures
        r@ == "# EdgeShield Configuration\ninterface = \"eth0\"\napi_port = 8080\nlog_level = \"info\"\ncapture_buffer = 4096\ndatabase_path = \"\"\n"@,
{
    copy_str("# EdgeShield Configuration\ninterface = \"eth0\"\napi_port = 8080\nlog_level = \"info\"\ncapture_buffer = 4096\ndatabase_path = \"\"\n")
}

/// The bash completion script.
pub open spec fn bash_completion_text() -> Seq<char> {
    r#"# EdgeShield bash completion
_edgeshield() {
    local cur prev words cword
    _init_completion || return

    if [[ $cword -eq 1 ]]; then
        COMPREPLY=($(compgen -W "run default-config completions tui setup" -- "$cur"))
        return
    fi

    case "${words[1]}" in
        run)
            case "$prev" in
                -c|--config)
                    COMPREPLY=($(compgen -f -- "$cur"))
                    ;;
                *)
                    COMPREPLY=($(compgen -W "-c --config" -- "$cur"))
                    ;;
            esac
            ;;
        tui)
            case "$prev" in
                --url)
                    ;;
                --key)
                    ;;
                --refresh-ms)
                    COMPREPLY=($(compgen -W "1000 2000 5000" -- "$cur"))
                    ;;
                *)
                    COMPREPLY=($(compgen -W "--url --key --refresh-ms" -- "$cur"))
                    ;;
            esac
            ;;
        setup)
            case "$prev" in
                -c|--config)
                    COMPREPLY=($(compgen -f -- "$cur"))
                    ;;
                --interface)
                    COMPREPLY=($(compgen -W "$(ls /sys/class/net 2>/dev/null)" -- "$cur"))
                    ;;
                --log-level)
                    COMPREPLY=($(compgen -W "trace debug info warn error" -- "$cur"))
                    ;;
                *)
                    COMPREPLY=($(compgen -W "-c --config --non-interactive --force --interface --api-port --bind --log-level --database-path --generate-api-key --enable-mqtt --mqtt-host --mqtt-port --mqtt-topic --enable-ntfy --ntfy-url --ntfy-topic --enable-webhook --webhook-url --enable-email --email-host --email-port --email-username --email-password --email-from --email-to" -- "$cur"))
                    ;;
            esac
            ;;
    esac
} && complete -F _edgeshield edgeshield
"#@
}

/// The zsh completion script.
pub open spec fn zsh_completion_text() -> Seq<char> {
    r#"#compdef edgeshield
# EdgeShield zsh completion
_edgeshield() {
    local -a subcommands
    subcommands=(
        'run:Start the EdgeShield daemon'
        'default-config:Print the default configuration'
        'completions:Generate shell completion script'
        'tui:Launch the read-only observability dashboard'
        'setup:First-run setup wizard'
    )

    _arguments \\
        '1: :->command' \\
        '*: :->args'

    case $state in
        command)
            _describe 'command' subcommands
            ;;
        args)
            case $words[1] in
                run)
                    _arguments \
                        '(-c --config)'{-c,--config}'[Path to configuration file]:config file:_files'
                    ;;
                tui)
                    _arguments \
                        '--url[Base URL of the daemon REST API]:url' \
                        '--key[Bearer token for the daemon REST API]:key' \
                        '--refresh-ms[Refresh interval in milliseconds]:ms'
                    ;;
                setup)
                    _arguments \
                        '(-c --config)'{-c,--config}'[Path to write config file]:config file:_files' \
                        '--non-interactive[Run without prompting]' \
                        '--force[Overwrite existing config]' \
                        '--interface[Network interface]:interface' \
                        '--api-port[REST API port]:port' \
                        '--bind[Bind address]:addr' \
                        '--log-level[Log level]:level:(trace debug info warn error)' \
                        '--database-path[SQLite path]:path:_files' \
                        '--generate-api-key[Generate an API key]' \
                        '--enable-mqtt[Enable MQTT]' \
                        '--mqtt-host[MQTT host]:host' \
                        '--mqtt-port[MQTT port]:port' \
                        '--mqtt-topic[MQTT topic]:topic' \
                        '--enable-ntfy[Enable ntfy]' \
                        '--ntfy-url[ntfy URL]:url' \
                        '--ntfy-topic[ntfy topic]:topic' \
                        '--enable-webhook[Enable webhook]' \
                        '--webhook-url[Webhook URL]:url' \
                        '--enable-email[Enable email]' \
                        '--email-host[SMTP host]:host' \
                        '--email-port[SMTP port]:port' \
                        '--email-username[SMTP username]:user' \
                        '--email-password[SMTP password]:password' \
                        '--email-from[From address]:addr' \
                        '--email-to[To address]:addr'
                    ;;
            esac
            ;;
    esac
}

_edgeshield
"#@
}

/// The completion script of a shell: `bash` or `zsh`, else the message
/// `unsupported shell '<shell>'. Use 'bash' or 'zsh'.`.
pub fn completion_script(shell: &str) -> (r: Result<String, String>)
    ensures
        shell@ == "bash"@ ==> (r matches Ok(s) && s@ == bash_completion_text()),
        shell@ == "zsh"@ ==> (r matches Ok(s) && s@ == zsh_completion_text()),
        shell@ != "bash"@ && shell@ != "zsh"@ ==> (r matches Err(m) && m@ == "unsupported shell '"@ + shell@
            + "'. Use 'bash' or 'zsh'."@),
{
    proof {
        reveal_strlit("bash");
        reveal_strlit("zsh");
        assert("zsh"@ != "bash"@) by {
            assert("zsh"@[0] != "bash"@[0]);
        }
    }
    if str_eq(shell, "bash") {
        Ok(copy_str(r#"# EdgeShield bash completion
_edgeshield() {
    local cur prev words cword
    _init_completion || return

    if [[ $cword -eq 1 ]]; then
        COMPREPLY=($(compgen -W "run default-config completions tui setup" -- "$cur"))
        return
    fi

    case "${words[1]}" in
        run)
            case "$prev" in
                -c|--config)
                    COMPREPLY=($(compgen -f -- "$cur"))
                    ;;
                *)
                    COMPREPLY=($(compgen -W "-c --config" -- "$cur"))
                    ;;
            esac
            ;;
        tui)
            case "$prev" in
                --url)
                    ;;
                --key)
                    ;;
                --refresh-ms)
                    COMPREPLY=($(compgen -W "1000 2000 5000" -- "$cur"))
                    ;;
                *)
                    COMPREPLY=($(compgen -W "--url --key --refresh-ms" -- "$cur"))
                    ;;
            esac
            ;;
        setup)
            case "$prev" in
                -c|--config)
                    COMPREPLY=($(compgen -f -- "$cur"))
                    ;;
                --interface)
                    COMPREPLY=($(compgen -W "$(ls /sys/class/net 2>/dev/null)" -- "$cur"))
                    ;;
                --log-level)
                    COMPREPLY=($(compgen -W "trace debug info warn error" -- "$cur"))
                    ;;
                *)
                    COMPREPLY=($(compgen -W "-c --config --non-interactive --force --interface --api-port --bind --log-level --database-path --generate-api-key --enable-mqtt --mqtt-host --mqtt-port --mqtt-topic --enable-ntfy --ntfy-url --ntfy-topic --enable-webhook --webhook-url --enable-email --email-host --email-port --email-username --email-password --email-from --email-to" -- "$cur"))
                    ;;
            esac
            ;;
    esac
} && complete -F _edgeshield edgeshield
"#))
    } else if str_eq(shell, "zsh") {
        assert(shell@ == "zsh"@);
        Ok(copy_str(r#"#compdef edgeshield
# EdgeShield zsh completion
_edgeshield() {
    local -a subcommands
    subcommands=(
        'run:Start the EdgeShield daemon'
        'default-config:Print the default configuration'
        'completions:Generate shell completion script'
        'tui:Launch the read-only observability dashboard'
        'setup:First-run setup wizard'
    )

    _arguments \\
        '1: :->command' \\
        '*: :->args'

    case $state in
        command)
            _describe 'command' subcommands
            ;;
        args)
            case $words[1] in
                run)
                    _arguments \
                        '(-c --config)'{-c,--config}'[Path to configuration file]:config file:_files'
                    ;;
                tui)
                    _arguments \
                        '--url[Base URL of the daemon REST API]:url' \
                        '--key[Bearer token for the daemon REST API]:key' \
                        '--refresh-ms[Refresh interval in milliseconds]:ms'
                    ;;
                setup)
                    _arguments \
                        '(-c --config)'{-c,--config}'[Path to write config file]:config file:_files' \
                        '--non-interactive[Run without prompting]' \
                        '--force[Overwrite existing config]' \
                        '--interface[Network interface]:interface' \
                        '--api-port[REST API port]:port' \
                        '--bind[Bind address]:addr' \
                        '--log-level[Log level]:level:(trace debug info warn error)' \
                        '--database-path[SQLite path]:path:_files' \
                        '--generate-api-key[Generate an API key]' \
                        '--enable-mqtt[Enable MQTT]' \
                        '--mqtt-host[MQTT host]:host' \
                        '--mqtt-port[MQTT port]:port' \
                        '--mqtt-topic[MQTT topic]:topic' \
                        '--enable-ntfy[Enable ntfy]' \
                        '--ntfy-url[ntfy URL]:url' \
                        '--ntfy-topic[ntfy topic]:topic' \
                        '--enable-webhook[Enable webhook]' \
                        '--webhook-url[Webhook URL]:url' \
                        '--enable-email[Enable email]' \
                        '--email-host[SMTP host]:host' \
                        '--email-port[SMTP port]:port' \
                        '--email-username[SMTP username]:user' \
                        '--email-password[SMTP password]:password' \
                        '--email-from[From address]:addr' \
                        '--email-to[To address]:addr'
                    ;;
            esac
            ;;
    esac
}

_edgeshield
"#))
    } else {
        let mut m = copy_str("unsupported shell '");
        push_str(&mut m, shell);
        push_str(&mut m, "'. Use 'bash' or 'zsh'.");
        Err(m)
    }
}

} // verus!
