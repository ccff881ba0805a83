//! How a notification is validated against YANG modules.
use vstd::prelude::*;

verus! {

/// How a notification is validated.
#[derive(Debug, Clone, Copy, PartialEq, Eq, Structural)]
pub enum ValidationRoute {
    /// As an envelope of draft-ietf-netconf-notif-envelope.
    Envelope,
    /// As a plain notification.
    Notification,
}

/// A notification is an envelope where the modules define one, unless it is of
/// the legacy kind.
pub open spec fn route(envelope_defined: bool, is_legacy: bool) -> ValidationRoute {
    if envelope_defined && !is_legacy {
        ValidationRoute::Envelope
    } else {
        ValidationRoute::Notification
    }
}

/// Validates a payload. `envelope_ext` is the extension instance by which the
/// modules define envelopes, if they do; `parse_envelope` parses the payload as
/// data of it, and `parse_notification` parses the payload as a notification of
/// the modules.
pub fn validate_message<
    X,
    E,
    F: FnOnce(X) -> Result<(), E>,
    G: FnOnce() -> Result<(), E>,
>(envelope_ext: Option<X>, is_legacy: bool, parse_envelope: F, parse_notification: G) -> (r: Result<
    (),
    E,
>)
    requires
        forall|ext: X| #[trigger] call_requires(parse_envelope, (ext,)),
        call_requires(parse_notification, ()),
    ensures
        match route(envelope_ext is Some, is_legacy) {
            ValidationRoute::Envelope => call_ensures(parse_envelope, (envelope_ext->0,), r),
            ValidationRoute::Notification => call_ensures(parse_notification, (), r),
        },
{
    match envelope_ext {
        Some(ext) => if !is_legacy {
            parse_envelope(ext)
        } else {
            parse_notification()
        },
        None => parse_notification(),
    }
}

/// A notification is validated as an envelope exactly where the modules define one
/// and it is not of the legacy kind.
pub proof fn lemma_route(envelope_defined: bool, is_legacy: bool)
    ensures
        route(envelope_defined, is_legacy) == ValidationRoute::Envelope <==> envelope_defined
            && !is_legacy,
        route(envelope_defined, is_legacy) == ValidationRoute::Notification <==> !envelope_defined
            || is_legacy,
{
}

/// What the parser says is what comes out: that of envelopes, given the extension
/// by which the modules define them, or that of notifications.
pub proof fn lemma_parser_decides<
    X,
    E,
    F: FnOnce(X) -> Result<(), E>,
    G: FnOnce() -> Result<(), E>,
>(
    envelope_ext: Option<X>,
    is_legacy: bool,
    parse_envelope: F,
    parse_notification: G,
    r: Result<(), E>,
)
    requires
        call_ensures(
            validate_message::<X, E, F, G>,
            (envelope_ext, is_legacy, parse_envelope, parse_notification),
            r,
        ),
    ensures
        envelope_ext matches Some(ext) ==> !is_legacy ==> call_ensures(
            parse_envelope,
            (ext,),
            r,
        ),
        envelope_ext is None || is_legacy ==> call_ensures(parse_notification, (), r),
{
}

} // verus!
