use pop3::config::Config;
use pop3::config::Downstream;
use pop3::config::Upstream;

#[test]
fn config_keeps_its_fields() {
    let down = Downstream::new(
        "pop3".to_string(),
        "0.0.0.0:110".to_string(),
        "plain".to_string(),
        "mrose".to_string(),
        "secret".to_string(),
    );
    let up = Upstream::new(
        "work".to_string(),
        "pop3".to_string(),
        "mail.example.org:110".to_string(),
        "apop".to_string(),
        "mrose".to_string(),
        "secret".to_string(),
    );
    let cfg = Config::new(
        "/var/lib/mail/db".to_string(),
        "/var/lib/mail/data".to_string(),
        vec![down],
        vec![up],
    );
    assert_eq!(cfg.database_dir(), "/var/lib/mail/db");
    assert_eq!(cfg.data_dir(), "/var/lib/mail/data");
    assert_eq!(cfg.downstreams().len(), 1);
    assert_eq!(cfg.upstreams().len(), 1);
    assert_eq!(cfg.downstreams()[0].protocol(), "pop3");
    assert_eq!(cfg.downstreams()[0].addr(), "0.0.0.0:110");
    assert_eq!(cfg.downstreams()[0].auth_type(), "plain");
    assert_eq!(cfg.downstreams()[0].username(), "mrose");
    assert_eq!(cfg.upstreams()[0].name(), "work");
    assert_eq!(cfg.upstreams()[0].addr(), "mail.example.org:110");
}
