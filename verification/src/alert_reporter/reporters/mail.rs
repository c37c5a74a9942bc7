//! The mail reporter: alerts go out as mails from one address to another.
use vstd::prelude::*;

use lettre::address::AddressError;

verus! {

/// Why `lettre` refuses a mail address: the variants of
/// `lettre::address::AddressError`.
#[derive(Debug, Clone, Copy, PartialEq, Eq, Structural)]
pub enum AddressErrorKind {
    /// Missing domain or user.
    MissingParts,
    /// Unbalanced angle bracket.
    Unbalanced,
    /// Invalid email user.
    InvalidUser,
    /// Invalid email domain.
    InvalidDomain,
    /// Invalid input found.
    InvalidInput,
    /// A variant that a later `lettre` may add.
    Other,
}

/// What `lettre` says of `text` as a mailbox (`Name <user@domain>` or a bare
/// address): the name of what `<Mailbox as FromStr>::from_str` decides, and
/// of the error it reports.
pub uninterp spec fn mailbox_check(text: Seq<char>) -> Result<(), AddressErrorKind>;

/// Parses `text` as a `lettre::message::Mailbox` (its `FromStr` impl), keeps
/// only whether it parsed, and tells the error's variants apart. The contract
/// claims that the outcome depends on the text alone, which the parser's
/// source shows.
#[verifier::external_body]
fn check_mailbox(text: &str) -> (checked: Result<(), AddressErrorKind>)
    ensures
        checked == mailbox_check(text@),
{
    match text.parse::<lettre::message::Mailbox>() {
        Ok(_) => Ok(()),
        Err(AddressError::MissingParts) => Err(AddressErrorKind::MissingParts),
        Err(AddressError::Unbalanced) => Err(AddressErrorKind::Unbalanced),
        Err(AddressError::InvalidUser) => Err(AddressErrorKind::InvalidUser),
        Err(AddressError::InvalidDomain) => Err(AddressErrorKind::InvalidDomain),
        Err(AddressError::InvalidInput) => Err(AddressErrorKind::InvalidInput),
        Err(_) => Err(AddressErrorKind::Other),
    }
}

/// The addresses of the mail reporter.
#[derive(Debug, Clone)]
pub struct Configuration {
    pub from: String,
    pub to: String,
}

/// A mail reporter whose two addresses are known to parse.
#[derive(Debug, Clone)]
pub struct Mail {
    from: String,
    to: String,
}

/// Why a mail reporter could not be built.
#[derive(Debug, Clone, Copy, PartialEq, Eq, Structural)]
pub enum MailError {
    /// The sender's address does not parse.
    InvalidFrom(AddressErrorKind),
    /// The recipient's address does not parse.
    InvalidTo(AddressErrorKind),
}

/// What building a mail reporter from `configuration` gives: the sender's
/// address is checked first, then the recipient's.
pub open spec fn mail_outcome(configuration: Configuration, result: Result<Mail, MailError>) -> bool {
    if let Err(kind) = mailbox_check(configuration.from@) {
        result == Err::<Mail, MailError>(MailError::InvalidFrom(kind))
    } else if let Err(kind) = mailbox_check(configuration.to@) {
        result == Err::<Mail, MailError>(MailError::InvalidTo(kind))
    } else {
        result matches Ok(mail) && mail.spec_from() == configuration.from@ && mail.spec_to()
            == configuration.to@
    }
}

impl Mail {
    /// The sender's address.
    pub closed spec fn spec_from(&self) -> Seq<char> {
        self.from@
    }

    /// The recipient's address.
    pub closed spec fn spec_to(&self) -> Seq<char> {
        self.to@
    }

    /// Builds a mail reporter, refusing addresses that do not parse.
    pub fn try_new(configuration: Configuration) -> (result: Result<Self, MailError>)
        ensures
            mail_outcome(configuration, result),
    {
        match check_mailbox(configuration.from.as_str()) {
            Ok(()) => {},
            Err(e) => {
                return Err(MailError::InvalidFrom(e));
            },
        }
        match check_mailbox(configuration.to.as_str()) {
            Ok(()) => {},
            Err(e) => {
                return Err(MailError::InvalidTo(e));
            },
        }
        Ok(Mail { from: configuration.from, to: configuration.to })
    }

    /// The sender's address.
    pub fn from(&self) -> (from: &String)
        ensures
            from@ == self.spec_from(),
    {
        &self.from
    }

    /// The recipient's address.
    pub fn to(&self) -> (to: &String)
        ensures
            to@ == self.spec_to(),
    {
        &self.to
    }
}

} // verus!
