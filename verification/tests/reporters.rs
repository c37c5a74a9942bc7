use monitrust::alert_reporter::reporters::mail::{self, AddressErrorKind, Mail, MailError};
use monitrust::alert_reporter::reporters::telegram::{self, Telegram};
use monitrust::alert_reporter::{AlertTargetConfiguration, MultiReporter, Reporter, ReporterError};

fn mail_config(from: &str, to: &str) -> mail::Configuration {
    mail::Configuration { from: from.to_string(), to: to.to_string() }
}

#[test]
fn mail_with_valid_addresses() {
    let m = Mail::try_new(mail_config("Monitrust <monitrust@example.com>", "admin@example.org")).unwrap();
    assert_eq!(m.from(), "Monitrust <monitrust@example.com>");
    assert_eq!(m.to(), "admin@example.org");
}

#[test]
fn mail_with_invalid_sender() {
    let e = Mail::try_new(mail_config("not an address", "also bad")).unwrap_err();
    assert_eq!(e, MailError::InvalidFrom(AddressErrorKind::InvalidInput));
}

#[test]
fn mail_with_invalid_recipient() {
    let e = Mail::try_new(mail_config("monitrust@example.com", "admin@")).unwrap_err();
    assert!(matches!(e, MailError::InvalidTo(_)));
    let e = Mail::try_new(mail_config("monitrust@example.com", "admin@-bad-")).unwrap_err();
    assert_eq!(e, MailError::InvalidTo(AddressErrorKind::InvalidDomain));
    let e = Mail::try_new(mail_config("monitrust@example.com", "admin@")).unwrap_err();
    assert_eq!(e, MailError::InvalidTo(AddressErrorKind::InvalidInput));
}

#[test]
fn telegram_keeps_chat() {
    let t = Telegram::new(telegram::Configuration { api: "123:abc".to_string(), chat_id: -42 })
        .expect("an HTTP client can be built here");
    assert_eq!(t.chat_id(), -42);
    assert_eq!(t.bot().token(), "123:abc");
}

#[test]
fn reporter_from_configuration() {
    let r = Reporter::try_from(AlertTargetConfiguration::Telegram(telegram::Configuration {
        api: "1:x".to_string(),
        chat_id: 7,
    }));
    assert!(matches!(r, Ok(Reporter::Telegram(ref t)) if t.chat_id() == 7 && t.bot().token() == "1:x"));
    let r = Reporter::try_from(AlertTargetConfiguration::Mail(mail_config("a@b.c", "d@e.f")));
    assert!(matches!(r, Ok(Reporter::Mail(_))));
    let r = Reporter::try_from(AlertTargetConfiguration::Mail(mail_config("a@b.c", "nope")));
    assert!(matches!(
        r,
        Err(ReporterError::Mail(MailError::InvalidTo(AddressErrorKind::InvalidInput)))
    ));
}

#[test]
fn reporters_in_order_or_first_error() {
    let ok = MultiReporter::try_from_configurations(vec![
        AlertTargetConfiguration::Mail(mail_config("a@b.c", "d@e.f")),
        AlertTargetConfiguration::Telegram(telegram::Configuration { api: "1:x".to_string(), chat_id: 3 }),
    ])
    .unwrap();
    assert_eq!(ok.0.len(), 2);
    assert!(matches!(ok.0[0], Reporter::Mail(_)));
    assert!(matches!(ok.0[1], Reporter::Telegram(_)));

    let err = MultiReporter::try_from_configurations(vec![
        AlertTargetConfiguration::Telegram(telegram::Configuration { api: "1:x".to_string(), chat_id: 3 }),
        AlertTargetConfiguration::Mail(mail_config("bad", "d@e.f")),
        AlertTargetConfiguration::Mail(mail_config("a@b.c", "bad")),
    ]);
    assert!(matches!(
        err,
        Err(ReporterError::Mail(MailError::InvalidFrom(AddressErrorKind::InvalidInput)))
    ));

    let empty = MultiReporter::try_from_configurations(vec![]).unwrap();
    assert!(empty.0.is_empty());
}

#[test]
fn mail_error_carries_lettre_kind() {
    for (addr, kind) in [
        ("user@-bad-", AddressErrorKind::InvalidDomain),
        ("\"unterminated@example.com", AddressErrorKind::InvalidInput),
    ] {
        let e = Mail::try_new(mail_config(addr, "d@e.f")).unwrap_err();
        let lettre_kind = addr.parse::<lettre::message::Mailbox>().unwrap_err();
        assert_eq!(e, MailError::InvalidFrom(kind), "{:?} gave lettre error {:?}", addr, lettre_kind);
    }
}
