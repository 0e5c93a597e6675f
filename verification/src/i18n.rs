//! The engine's message catalog, modeled deterministically: each key has a
//! fixed English pattern, and arguments are spliced in by name.  Loading
//! real translation catalogs is a host concern and stays outside this
//! library; preferred languages and the locale folder are carried but do not
//! change the produced text.

use vstd::prelude::*;
use vstd::string::StringSliceAdditionalSpecFns;
use crate::proto::{TranslateArg, TranslateArgValue};
use crate::text::{append_bytes, append_i64, append_lit, bytes_eq, dec_int};

verus! {

/// The message keys this layer itself uses; other keys arrive only through
/// the translate-string operation.
pub enum FString {
    MediaCheckChecked,
    SyncMediaCheckedCount,
    SyncMediaAddedCount,
    SyncMediaRemovedCount,
}

/// The wire number of each message key.
pub open spec fn fstring_code(k: &FString) -> u32 {
    match k {
        FString::MediaCheckChecked => 0,
        FString::SyncMediaCheckedCount => 1,
        FString::SyncMediaAddedCount => 2,
        FString::SyncMediaRemovedCount => 3,
    }
}

/// The bytes an argument value contributes.
pub open spec fn arg_bytes(v: &TranslateArgValue) -> Seq<u8> {
    match v {
        TranslateArgValue::Text(s) => s@,
        TranslateArgValue::Int(n) => dec_int(*n as int),
    }
}

/// The first argument with the given name, rendered; empty when absent.
pub open spec fn lookup_arg(args: Seq<TranslateArg>, name: Seq<u8>) -> Seq<u8>
    decreases args.len(),
{
    if args.len() == 0 {
        Seq::empty()
    } else if args[0].name@ == name {
        arg_bytes(&args[0].value)
    } else {
        lookup_arg(args.drop_first(), name)
    }
}

/// The deterministic pattern of each key, with its arguments spliced in.
pub open spec fn message(k: &FString, args: Seq<TranslateArg>) -> Seq<u8> {
    match k {
        FString::MediaCheckChecked => "checked ".spec_bytes() + lookup_arg(args, "count".spec_bytes()),
        FString::SyncMediaCheckedCount => "media checked: ".spec_bytes() + lookup_arg(
            args,
            "count".spec_bytes(),
        ),
        FString::SyncMediaAddedCount => "media added: ".spec_bytes() + lookup_arg(
            args,
            "up".spec_bytes(),
        ) + " up, ".spec_bytes() + lookup_arg(args, "down".spec_bytes()) + " down".spec_bytes(),
        FString::SyncMediaRemovedCount => "media removed: ".spec_bytes() + lookup_arg(
            args,
            "up".spec_bytes(),
        ) + " up, ".spec_bytes() + lookup_arg(args, "down".spec_bytes()) + " down".spec_bytes(),
    }
}

/// Language preferences and locale location, as handed over at
/// initialisation.
pub struct I18n {
    pub preferred_langs: Vec<Vec<u8>>,
    pub locale_folder_path: Vec<u8>,
}

impl I18n {
    /// A catalog handle for the given language preferences.
    pub fn new(preferred_langs: Vec<Vec<u8>>, locale_folder_path: Vec<u8>) -> (r: I18n)
        ensures
            r.preferred_langs@ == preferred_langs@,
            r.locale_folder_path@ == locale_folder_path@,
    {
        I18n { preferred_langs, locale_folder_path }
    }

    /// Translates a key with arguments; the result is exactly the key's
    /// pattern with each named argument spliced in.
    pub fn trn(&self, key: &FString, args: &Vec<TranslateArg>) -> (r: Vec<u8>)
        ensures
            r@ == message(key, args@),
    {
        let mut out: Vec<u8> = Vec::new();
        match key {
            FString::MediaCheckChecked => {
                append_lit(&mut out, "checked ");
                append_arg(&mut out, args, "count");
            },
            FString::SyncMediaCheckedCount => {
                append_lit(&mut out, "media checked: ");
                append_arg(&mut out, args, "count");
            },
            FString::SyncMediaAddedCount => {
                append_lit(&mut out, "media added: ");
                append_arg(&mut out, args, "up");
                append_lit(&mut out, " up, ");
                append_arg(&mut out, args, "down");
                append_lit(&mut out, " down");
            },
            FString::SyncMediaRemovedCount => {
                append_lit(&mut out, "media removed: ");
                append_arg(&mut out, args, "up");
                append_lit(&mut out, " up, ");
                append_arg(&mut out, args, "down");
                append_lit(&mut out, " down");
            },
        }
        out
    }

    /// Resolves a wire key number; unknown numbers have no key.
    pub fn key_from_u32(&self, key: u32) -> (r: Option<FString>)
        ensures
            match r {
                Some(k) => fstring_code(&k) == key,
                None => key > 3,
            },
    {
        if key == 0 {
            Some(FString::MediaCheckChecked)
        } else if key == 1 {
            Some(FString::SyncMediaCheckedCount)
        } else if key == 2 {
            Some(FString::SyncMediaAddedCount)
        } else if key == 3 {
            Some(FString::SyncMediaRemovedCount)
        } else {
            None
        }
    }
}

/// Appends the named argument's rendering.
fn append_arg(out: &mut Vec<u8>, args: &Vec<TranslateArg>, name: &str)
    ensures
        final(out)@ == old(out)@ + lookup_arg(args@, name.spec_bytes()),
{
    let needle = crate::text::lit_bytes(name);
    let mut i: usize = 0;
    proof {
        assert(args@.skip(0) =~= args@);
    }
    while i < args.len()
        invariant
            i <= args@.len(),
            needle@ == name.spec_bytes(),
            out@ == old(out)@,
            lookup_arg(args@, name.spec_bytes()) == lookup_arg(
                args@.skip(i as int),
                name.spec_bytes(),
            ),
        decreases args@.len() - i,
    {
        proof {
            assert(args@.skip(i as int)[0] == args@[i as int]);
            assert(args@.skip(i as int).drop_first() =~= args@.skip(i + 1));
        }
        if bytes_eq(&args[i].name, &needle) {
            match &args[i].value {
                TranslateArgValue::Text(s) => {
                    append_bytes(out, s);
                },
                TranslateArgValue::Int(n) => {
                    append_i64(out, *n);
                },
            }
            return ;
        }
        i = i + 1;
    }
    proof {
        assert(args@.skip(args@.len() as int).len() == 0);
    }
}

} // verus!
