use edgeshield::audit::{audit_key_prefix, is_audited};
use edgeshield::cli::{
    check_non_interactive, completion_script, config_candidates, default_config_text, setup_request, wireless_flag_path,
    Command,
};
use edgeshield::crypto::key_hash_prefix;
use edgeshield::setup::{bind_address_for, interfaces_from_entries, notifier_choice, prompt_plan, NotifierChoice, SetupInputs};

fn setup_command(non_interactive: bool, interface: Option<&str>) -> Command {
    Command::Setup {
        config: "/tmp/edgeshield.toml".to_string(),
        non_interactive,
        force: false,
        interface: interface.map(|s| s.to_string()),
        api_port: None,
        bind: None,
        log_level: Some("debug".to_string()),
        database_path: None,
        generate_api_key: true,
        enable_mqtt: true,
        mqtt_host: Some("broker.local".to_string()),
        mqtt_port: None,
        mqtt_topic: None,
        enable_ntfy: false,
        ntfy_url: None,
        ntfy_topic: None,
        enable_webhook: true,
        webhook_url: Some("https://hooks.example.com/x".to_string()),
        enable_email: false,
        email_host: None,
        email_port: None,
        email_username: None,
        email_password: None,
        email_from: None,
        email_to: None,
    }
}

#[test]
fn setup_options_fill_defaults() {
    let (config, non_interactive, force, inputs) = setup_request(setup_command(true, Some("eth0"))).unwrap();
    assert_eq!(config, "/tmp/edgeshield.toml");
    assert!(non_interactive);
    assert!(!force);
    assert_eq!(inputs.interface, "eth0");
    assert_eq!(inputs.api_port, 8080);
    assert_eq!(inputs.api_bind_address, "0.0.0.0");
    assert_eq!(inputs.log_level, "debug");
    assert_eq!(inputs.database_path, "");
    assert!(inputs.generate_api_key);
    let mqtt = inputs.mqtt.clone().unwrap();
    assert_eq!(mqtt.host, "broker.local");
    assert_eq!(mqtt.port, 1883);
    assert_eq!(mqtt.topic, "edgeshield/devices/new");
    assert!(inputs.ntfy.is_none());
    assert_eq!(inputs.webhook.clone().unwrap().url, "https://hooks.example.com/x");
    assert!(inputs.email.is_none());
    assert!(check_non_interactive(&inputs).is_ok());
}

#[test]
fn other_commands_are_no_setup() {
    assert!(setup_request(Command::DefaultConfig).is_none());
    assert!(setup_request(Command::Run { config: "x".to_string() }).is_none());
}

#[test]
fn non_interactive_setup_needs_an_interface() {
    let (_, _, _, inputs) = setup_request(setup_command(true, Some("   "))).unwrap();
    assert_eq!(
        check_non_interactive(&inputs),
        Err("non-interactive setup requires --interface (or EDGESHIELD_INTERFACE env var)".to_string())
    );
    let (_, _, _, inputs) = setup_request(setup_command(true, None)).unwrap();
    assert!(check_non_interactive(&inputs).is_err());
}

#[test]
fn config_paths_tried_in_order() {
    let paths = config_candidates("/opt/custom.toml");
    assert_eq!(
        paths,
        vec![
            "/opt/custom.toml".to_string(),
            "/etc/edgeshield/config.toml".to_string(),
            "/usr/local/etc/edgeshield/config.toml".to_string(),
            "edgeshield.toml".to_string(),
            "config.toml".to_string(),
        ]
    );
    let paths = config_candidates("/etc/edgeshield/config.toml");
    assert_eq!(paths.len(), 4);
    assert_eq!(paths[0], "/etc/edgeshield/config.toml");
    assert_eq!(paths[1], "/usr/local/etc/edgeshield/config.toml");
}

#[test]
fn completions_by_shell() {
    let bash = completion_script("bash").unwrap();
    assert!(bash.starts_with("# EdgeShield bash completion"));
    assert!(bash.contains("complete -F _edgeshield edgeshield"));
    let zsh = completion_script("zsh").unwrap();
    assert!(zsh.starts_with("#compdef edgeshield"));
    assert_eq!(completion_script("fish"), Err("unsupported shell 'fish'. Use 'bash' or 'zsh'.".to_string()));
}

#[test]
fn default_config_and_paths() {
    let text = default_config_text();
    assert!(text.starts_with("# EdgeShield Configuration\n"));
    assert!(text.contains("interface = \"eth0\"\n"));
    assert!(text.ends_with("database_path = \"\"\n"));
    assert_eq!(wireless_flag_path("wlan0"), "/sys/class/net/wlan0/wireless");
}

#[test]
fn prompts_only_for_missing_answers() {
    let mut inputs = SetupInputs::default();
    let plan = prompt_plan(&inputs);
    assert!(plan.interface);
    assert!(!plan.api_port);
    assert!(!plan.bind_address);
    assert!(plan.database);
    assert!(plan.api_key);
    assert!(plan.notifier);
    inputs.interface = "eth0".to_string();
    inputs.api_port = 0;
    inputs.generate_api_key = true;
    let plan = prompt_plan(&inputs);
    assert!(!plan.interface);
    assert!(plan.api_port);
    assert!(!plan.api_key);
    assert_eq!(bind_address_for(true), "0.0.0.0");
    assert_eq!(bind_address_for(false), "127.0.0.1");
    assert_eq!(notifier_choice(0), NotifierChoice::Skip);
    assert_eq!(notifier_choice(1), NotifierChoice::Mqtt);
    assert_eq!(notifier_choice(2), NotifierChoice::Ntfy);
    assert_eq!(notifier_choice(3), NotifierChoice::Webhook);
    assert_eq!(notifier_choice(4), NotifierChoice::Email);
    assert_eq!(notifier_choice(9), NotifierChoice::Skip);
}

#[test]
fn interfaces_sorted_without_loopback() {
    let names = vec!["wlan0".to_string(), "lo".to_string(), "eth1".to_string(), "eth0".to_string(), "br-lan".to_string()];
    assert_eq!(
        interfaces_from_entries(names),
        vec!["br-lan".to_string(), "eth0".to_string(), "eth1".to_string(), "wlan0".to_string()]
    );
    assert!(interfaces_from_entries(vec!["lo".to_string()]).is_empty());
    assert_eq!(interfaces_from_entries(vec!["eth".to_string(), "e".to_string(), "eth".to_string()]), vec![
        "e".to_string(),
        "eth".to_string(),
        "eth".to_string()
    ]);
}

#[test]
fn audit_records_key_prefix() {
    assert!(is_audited("/devices"));
    assert!(!is_audited("/health"));
    assert_eq!(audit_key_prefix(Some("Bearer test-key")), Some(key_hash_prefix("test-key")));
    assert_eq!(audit_key_prefix(Some("bearer abc")), Some(key_hash_prefix("abc")));
    assert_eq!(audit_key_prefix(Some("Basic abc")), None);
    assert_eq!(audit_key_prefix(None), None);
    assert_eq!(audit_key_prefix(Some("Bearer ")), Some(key_hash_prefix("")));
}
