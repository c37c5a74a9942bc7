//! Reporters: where firing alerts are sent.
use vstd::prelude::*;

pub mod reporters;

use crate::alert_reporter::reporters::mail::{self, Mail, MailError};
use crate::alert_reporter::reporters::telegram::{self, Telegram};

verus! {

/// The configuration of one reporter.
#[derive(Debug, Clone)]
pub enum AlertTargetConfiguration {
    Telegram(telegram::Configuration),
    Mail(mail::Configuration),
}

/// A reporter.
#[derive(Debug)]
pub enum Reporter {
    Telegram(Telegram),
    Mail(Mail),
}

/// Why a reporter could not be built.
#[derive(Debug, Clone, PartialEq, Eq)]
pub enum ReporterError {
    /// A mail address does not parse.
    Mail(MailError),
    /// No HTTP client for the Telegram bot can be built on this machine.
    NoHttpClient(telegram::HttpClientUnavailable),
}

/// What building a reporter from `value` gives: a Telegram reporter writing
/// to the configured chat with the configured token, unless no HTTP client
/// can be built; a mail reporter as [`Mail::try_new`] builds it, or its error.
pub open spec fn reporter_outcome(
    value: AlertTargetConfiguration,
    result: Result<Reporter, ReporterError>,
) -> bool {
    match value {
        AlertTargetConfiguration::Telegram(c) => match result {
            Ok(Reporter::Telegram(t)) => t.spec_chat_id() == c.chat_id && telegram::bot_token(
                t.spec_bot(),
            ) == c.api@,
            Ok(Reporter::Mail(_)) => false,
            Err(e) => e is NoHttpClient,
        },
        AlertTargetConfiguration::Mail(c) => match result {
            Ok(Reporter::Mail(m)) => mail::mail_outcome(c, Ok(m)),
            Ok(Reporter::Telegram(_)) => false,
            Err(ReporterError::Mail(e)) => mail::mail_outcome(c, Err(e)),
            Err(ReporterError::NoHttpClient(_)) => false,
        },
    }
}

/// Whether the configuration itself allows a reporter: a mail reporter needs
/// two addresses that parse; a Telegram reporter needs nothing.
pub open spec fn is_buildable(value: AlertTargetConfiguration) -> bool {
    match value {
        AlertTargetConfiguration::Telegram(_) => true,
        AlertTargetConfiguration::Mail(c) => mail::mailbox_check(c.from@) is Ok
            && mail::mailbox_check(c.to@) is Ok,
    }
}

impl Reporter {
    /// Builds the reporter of a configuration.
    pub fn try_from(value: AlertTargetConfiguration) -> (result: Result<Self, ReporterError>)
        ensures
            reporter_outcome(value, result),
    {
        match value {
            AlertTargetConfiguration::Telegram(t) => match Telegram::new(t) {
                Ok(telegram) => Ok(Reporter::Telegram(telegram)),
                Err(e) => Err(ReporterError::NoHttpClient(e)),
            },
            AlertTargetConfiguration::Mail(m) => match Mail::try_new(m) {
                Ok(mail) => Ok(Reporter::Mail(mail)),
                Err(e) => Err(ReporterError::Mail(e)),
            },
        }
    }
}

/// All the reporters that each alert is sent through.
#[derive(Debug)]
pub struct MultiReporter(pub Vec<Reporter>);

impl MultiReporter {
    /// Builds the reporters of the configurations, in order. The first
    /// configuration from which no reporter can be built gives the error.
    pub fn try_from_configurations(configurations: Vec<AlertTargetConfiguration>) -> (result:
        Result<Self, ReporterError>)
        ensures
            (forall|i: int|
                0 <= i < configurations@.len() ==> (#[trigger] configurations@[i]) is Mail
                    && is_buildable(configurations@[i])) ==> result is Ok,
            (exists|i: int|
                0 <= i < configurations@.len() && !is_buildable(#[trigger] configurations@[i]))
                ==> result is Err,
            result is Ok ==> forall|i: int|
                0 <= i < configurations@.len() ==> is_buildable(#[trigger] configurations@[i]),
            result matches Ok(reporters) ==> {
                &&& reporters.0@.len() == configurations@.len()
                &&& forall|i: int|
                    0 <= i < configurations@.len() ==> reporter_outcome(
                        #[trigger] configurations@[i],
                        Ok(reporters.0@[i]),
                    )
            },
            result matches Err(e) ==> exists|k: int|
                0 <= k < configurations@.len() && (forall|
                    i: int,
                | 0 <= i < k ==> is_buildable(#[trigger] configurations@[i])) && reporter_outcome(
                    configurations@[k],
                    Err(e),
                ),
    {
        let ghost all = configurations@;
        assert(all.skip(0) =~= all);
        let mut rest = configurations;
        let mut built: Vec<Reporter> = Vec::new();
        while rest.len() > 0
            invariant
                all == configurations@,
                built@.len() + rest@.len() == all.len(),
                rest@ == all.skip(built@.len() as int),
                forall|i: int| 0 <= i < built@.len() ==> is_buildable(#[trigger] all[i]),
                forall|i: int|
                    0 <= i < built@.len() ==> reporter_outcome(#[trigger] all[i], Ok(built@[i])),
            decreases rest@.len(),
        {
            let ghost k = built@.len() as int;
            let value = rest.remove(0);
            assert(value == all[k]);
            assert(rest@ =~= all.skip(k + 1));
            match Reporter::try_from(value) {
                Ok(r) => {
                    built.push(r);
                },
                Err(e) => {
                    assert(reporter_outcome(all[k], Err(e)));
                    return Err(e);
                },
            }
        }
        assert(all.skip(built@.len() as int).len() == 0);
        Ok(MultiReporter(built))
    }
}

} // verus!
