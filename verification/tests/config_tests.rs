use rustbot::config::{config_from_read, config_from_toml, Config};
use rustbot::conn::registration_lines;
use rustbot::router::str_bytes;

#[test]
fn default_configuration() {
    let c = Config::default();
    assert_eq!(c.port, 6667);
    assert_eq!(c.nick, "RustBot");
    assert_eq!(c.server, "irc.quakenet.org");
    assert!(c.channels.is_empty());
}

#[test]
fn from_parts_checks_the_port_range() {
    let some = Config::from_parts(6667, "bot".to_string(), "srv".to_string(), Vec::new());
    assert_eq!(some.unwrap().port, 6667);
    assert!(Config::from_parts(65536, "bot".to_string(), "srv".to_string(), Vec::new()).is_none());
    assert!(Config::from_parts(-1, "bot".to_string(), "srv".to_string(), Vec::new()).is_none());
    let zero = Config::from_parts(0, "bot".to_string(), "srv".to_string(), Vec::new());
    assert_eq!(zero.unwrap().port, 0);
}

#[test]
fn toml_document_decodes() {
    let text = "port = 6697\nnick = \"bridge\"\nserver = \"irc.example.com\"\nchannels = [\"#rust\", \"#verus\"]\n";
    let c = config_from_toml(text).unwrap();
    assert_eq!(c.port, 6697);
    assert_eq!(c.nick, "bridge");
    assert_eq!(c.server, "irc.example.com");
    assert_eq!(c.channels, vec!["#rust".to_string(), "#verus".to_string()]);
}

#[test]
fn toml_channels_are_optional() {
    let text = "port = 6667\nnick = \"b\"\nserver = \"s\"\n";
    let c = config_from_toml(text).unwrap();
    assert!(c.channels.is_empty());
}

#[test]
fn toml_rejections() {
    // Malformed document.
    assert!(config_from_toml("port = = 1").is_none());
    // Missing required fields.
    assert!(config_from_toml("port = 6667\nnick = \"b\"\n").is_none());
    assert!(config_from_toml("nick = \"b\"\nserver = \"s\"\n").is_none());
    // Mistyped fields.
    assert!(config_from_toml("port = \"x\"\nnick = \"b\"\nserver = \"s\"\n").is_none());
    assert!(config_from_toml("port = 1\nnick = 2\nserver = \"s\"\n").is_none());
    assert!(config_from_toml("port = 1\nnick = \"b\"\nserver = \"s\"\nchannels = 3\n").is_none());
    assert!(
        config_from_toml("port = 1\nnick = \"b\"\nserver = \"s\"\nchannels = [1]\n").is_none()
    );
    // Out-of-range port.
    assert!(config_from_toml("port = 65536\nnick = \"b\"\nserver = \"s\"\n").is_none());
}

#[test]
fn missing_file_falls_back_to_defaults() {
    assert_eq!(config_from_read(None), Some(Config::default()));
    let text = "port = 7000\nnick = \"b\"\nserver = \"s\"\n";
    assert_eq!(config_from_read(Some(text)).unwrap().port, 7000);
    assert_eq!(config_from_read(Some("port = = 1")), None);
}

#[test]
fn registration_pair_spells_the_identity() {
    let nick = str_bytes("RustBot");
    let (first, second) = registration_lines(&nick);
    assert_eq!(first, b"NICK RustBot".to_vec());
    assert_eq!(second, b"USER RustBot 0 * :RustBot".to_vec());
}
