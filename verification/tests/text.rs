use postbus::command::{Command, Domain, Mailbox};
use postbus::parser::result::{DomainParam, MailboxParam, ParseCommand, ParseParam};

fn mailbox(local: &str, domain: &str) -> Mailbox {
    Mailbox {
        local: local.to_string(),
        domain: Domain(domain.to_string()),
    }
}

#[test]
fn command_text() {
    assert_eq!(
        "EHLO Domain(\"nexium.app\")\n",
        Command::EHLO(Domain::from("nexium.app")).to_string()
    );
    assert_eq!(
        "HELO Domain(\"nexium.app\")\n",
        Command::HELO(Domain::from("nexium.app")).to_string()
    );
    assert_eq!(
        "MAIL FROM: info@nexium.app\n",
        Command::FROM(mailbox("info", "nexium.app")).to_string()
    );
    assert_eq!(
        "RCPT TO: info@nexium.app\n",
        Command::RCPT(mailbox("info", "nexium.app")).to_string()
    );
    assert_eq!("DATA\n", Command::DATA.to_string());
    assert_eq!("RSET\n", Command::RSET.to_string());
    assert_eq!("QUIT\n", Command::QUIT.to_string());
}

#[test]
fn command_text_escapes_domain() {
    assert_eq!(
        "EHLO Domain(\"a\\\"b\\\\c\\n\")\n",
        Command::EHLO(Domain::from("a\"b\\c\n")).to_string()
    );
}

#[test]
fn parsed_command_text() {
    assert_eq!(
        "EHLO DomainParam(\"nexium.app\")\n",
        ParseCommand::EHLO(DomainParam("nexium.app")).to_string()
    );
    assert_eq!(
        "HELO DomainParam(\"nexium.app\")\n",
        ParseCommand::HELO(DomainParam("nexium.app")).to_string()
    );
    assert_eq!(
        "MAIL FROM: info@nexium.app\n",
        ParseCommand::FROM(MailboxParam("info", DomainParam("nexium.app"))).to_string()
    );
    assert_eq!(
        "RCPT TO: info@nexium.app\n",
        ParseCommand::RCPT(MailboxParam("info", DomainParam("nexium.app"))).to_string()
    );
    assert_eq!("DATA\n", ParseCommand::DATA.to_string());
    assert_eq!("RSET\n", ParseCommand::RSET.to_string());
    assert_eq!("QUIT\n", ParseCommand::QUIT.to_string());
}

#[test]
fn parameter_text() {
    assert_eq!(
        "nexium.app\n",
        ParseParam::Domain(DomainParam("nexium.app")).to_string()
    );
    assert_eq!(
        "info@nexium.app\n",
        ParseParam::Mailbox(MailboxParam("info", DomainParam("nexium.app"))).to_string()
    );
}

#[test]
fn borrowed_values_become_owned() {
    assert_eq!(
        Domain("nexium.app".to_string()),
        DomainParam("nexium.app").to_domain()
    );
    assert_eq!(
        mailbox("info", "nexium.app"),
        MailboxParam("info", DomainParam("nexium.app")).to_mailbox()
    );
    assert_eq!(
        Command::RCPT(mailbox("info", "nexium.app")),
        ParseCommand::RCPT(MailboxParam("info", DomainParam("nexium.app"))).to_command()
    );
    assert_eq!(Command::RSET, ParseCommand::RSET.to_command());
    assert_eq!(Domain("x.y".to_string()), Domain::from("x.y"));
    assert_eq!(Domain("x.y".to_string()), Domain::from("x.y").clone());
}

#[test]
fn equality_is_by_text() {
    assert_eq!(Domain::from("nexium.app"), Domain::from("nexium.app"));
    assert_ne!(Domain::from("nexium.app"), Domain::from("Nexium.app"));
    assert_ne!(Domain::from("nexium.app"), Domain::from("nexium.ap"));
    assert_eq!(mailbox("info", "nexium.app"), mailbox("info", "nexium.app"));
    assert_ne!(mailbox("info", "nexium.app"), mailbox("Info", "nexium.app"));
    assert_ne!(mailbox("info", "nexium.app"), mailbox("info", "nexium.APP"));
}
