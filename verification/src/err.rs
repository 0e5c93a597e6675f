//! The internal error taxonomy and its total translation onto the wire:
//! every error kind maps to a code, a subtype (for network and sync
//! failures) and a deterministic descriptive text.  Internal errors never
//! cross the boundary untranslated.

use vstd::prelude::*;
use vstd::string::StringSliceAdditionalSpecFns;
use crate::i18n::I18n;
use crate::proto::BackendError;
use crate::text::{append_bytes, append_lit, lit_bytes};

verus! {

pub enum NetworkErrorKind {
    Offline,
    Timeout,
    ProxyAuth,
    Other,
}

pub enum SyncErrorKind {
    Conflict,
    ServerError,
    ClientTooOld,
    AuthFailed,
    ServerMessage,
    ResyncRequired,
    Other,
}

/// Internal error values; the context strings are UTF-8 bytes.
pub enum AnkiError {
    InvalidInput { info: Vec<u8> },
    TemplateError { info: Vec<u8> },
    IOError { info: Vec<u8> },
    DBError { info: Vec<u8> },
    NetworkError { info: Vec<u8>, kind: NetworkErrorKind },
    SyncError { info: Vec<u8>, kind: SyncErrorKind },
    Interrupted,
    CollectionNotOpen,
    CollectionAlreadyOpen,
}

pub type Result<T> = core::result::Result<T, AnkiError>;

/// The wire code of each error kind; total over the taxonomy.
pub open spec fn wire_code(e: &AnkiError) -> u32 {
    match e {
        AnkiError::InvalidInput { .. } => 1,
        AnkiError::TemplateError { .. } => 2,
        AnkiError::IOError { .. } => 3,
        AnkiError::DBError { .. } => 4,
        AnkiError::NetworkError { .. } => 5,
        AnkiError::SyncError { .. } => 6,
        AnkiError::Interrupted => 7,
        AnkiError::CollectionNotOpen => 8,
        AnkiError::CollectionAlreadyOpen => 9,
    }
}

pub open spec fn network_kind_code(k: &NetworkErrorKind) -> u32 {
    match k {
        NetworkErrorKind::Offline => 1,
        NetworkErrorKind::Timeout => 2,
        NetworkErrorKind::ProxyAuth => 3,
        NetworkErrorKind::Other => 4,
    }
}

pub open spec fn sync_kind_code(k: &SyncErrorKind) -> u32 {
    match k {
        SyncErrorKind::Conflict => 1,
        SyncErrorKind::ServerError => 2,
        SyncErrorKind::ClientTooOld => 3,
        SyncErrorKind::AuthFailed => 4,
        SyncErrorKind::ServerMessage => 5,
        SyncErrorKind::ResyncRequired => 6,
        SyncErrorKind::Other => 7,
    }
}

/// The subtype carried through translation: meaningful for network and
/// sync failures, zero for every other kind.
pub open spec fn wire_subtype(e: &AnkiError) -> u32 {
    match e {
        AnkiError::NetworkError { kind, .. } => network_kind_code(kind),
        AnkiError::SyncError { kind, .. } => sync_kind_code(kind),
        _ => 0,
    }
}

/// The localized description of each error kind.
pub open spec fn err_description(e: &AnkiError) -> Seq<u8> {
    match e {
        AnkiError::InvalidInput { info } => "invalid input: ".spec_bytes() + info@,
        AnkiError::TemplateError { info } => "template parse failure: ".spec_bytes() + info@,
        AnkiError::IOError { info } => "io error: ".spec_bytes() + info@,
        AnkiError::DBError { info } => "database error: ".spec_bytes() + info@,
        AnkiError::NetworkError { info, .. } => "network failure: ".spec_bytes() + info@,
        AnkiError::SyncError { info, .. } => "sync failure: ".spec_bytes() + info@,
        AnkiError::Interrupted => "interrupted".spec_bytes(),
        AnkiError::CollectionNotOpen => "collection is not open".spec_bytes(),
        AnkiError::CollectionAlreadyOpen => "collection is already open".spec_bytes(),
    }
}

impl AnkiError {
    /// An invalid-input error with the given context.
    pub fn invalid_input(info: &str) -> (r: AnkiError)
        ensures
            r matches AnkiError::InvalidInput { info: i } && i@ == info.spec_bytes(),
    {
        AnkiError::InvalidInput { info: lit_bytes(info) }
    }

    /// The user-visible description, drawn from the engine's catalog.
    pub fn localized_description(&self, _i18n: &I18n) -> (r: Vec<u8>)
        ensures
            r@ == err_description(self),
    {
        let mut out: Vec<u8> = Vec::new();
        match self {
            AnkiError::InvalidInput { info } => {
                append_lit(&mut out, "invalid input: ");
                append_bytes(&mut out, info);
            },
            AnkiError::TemplateError { info } => {
                append_lit(&mut out, "template parse failure: ");
                append_bytes(&mut out, info);
            },
            AnkiError::IOError { info } => {
                append_lit(&mut out, "io error: ");
                append_bytes(&mut out, info);
            },
            AnkiError::DBError { info } => {
                append_lit(&mut out, "database error: ");
                append_bytes(&mut out, info);
            },
            AnkiError::NetworkError { info, .. } => {
                append_lit(&mut out, "network failure: ");
                append_bytes(&mut out, info);
            },
            AnkiError::SyncError { info, .. } => {
                append_lit(&mut out, "sync failure: ");
                append_bytes(&mut out, info);
            },
            AnkiError::Interrupted => {
                append_lit(&mut out, "interrupted");
            },
            AnkiError::CollectionNotOpen => {
                append_lit(&mut out, "collection is not open");
            },
            AnkiError::CollectionAlreadyOpen => {
                append_lit(&mut out, "collection is already open");
            },
        }
        out
    }
}

/// What the translated form of an error looks like on the wire.
pub open spec fn translated(e: &AnkiError, b: &BackendError) -> bool {
    b.code == wire_code(e) && b.subtype == wire_subtype(e) && b.localized@ == err_description(e)
}

/// A wire error with the given code, subtype and localized text.
pub open spec fn translated_to(b: &BackendError, code: u32, subtype: u32, text: Seq<u8>) -> bool {
    b.code == code && b.subtype == subtype && b.localized@ == text
}

/// Translates an internal error into its wire form: the single point where
/// internal error structure reaches the wire format.  Total: every kind has
/// a code, network and sync failures keep their subtype, and the text comes
/// from the catalog.
pub fn anki_error_to_proto_error(err: &AnkiError, i18n: &I18n) -> (r: BackendError)
    ensures
        translated(err, &r),
{
    let localized = err.localized_description(i18n);
    let code: u32 = match err {
        AnkiError::InvalidInput { .. } => 1,
        AnkiError::TemplateError { .. } => 2,
        AnkiError::IOError { .. } => 3,
        AnkiError::DBError { .. } => 4,
        AnkiError::NetworkError { .. } => 5,
        AnkiError::SyncError { .. } => 6,
        AnkiError::Interrupted => 7,
        AnkiError::CollectionNotOpen => 8,
        AnkiError::CollectionAlreadyOpen => 9,
    };
    let subtype: u32 = match err {
        AnkiError::NetworkError { kind, .. } => match kind {
            NetworkErrorKind::Offline => 1,
            NetworkErrorKind::Timeout => 2,
            NetworkErrorKind::ProxyAuth => 3,
            NetworkErrorKind::Other => 4,
        },
        AnkiError::SyncError { kind, .. } => match kind {
            SyncErrorKind::Conflict => 1,
            SyncErrorKind::ServerError => 2,
            SyncErrorKind::ClientTooOld => 3,
            SyncErrorKind::AuthFailed => 4,
            SyncErrorKind::ServerMessage => 5,
            SyncErrorKind::ResyncRequired => 6,
            SyncErrorKind::Other => 7,
        },
        _ => 0,
    };
    BackendError { code, subtype, localized }
}

} // verus!
