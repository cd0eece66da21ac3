use vstd::prelude::*;

use crate::text::{lower, lower_eq};

verus! {

/// The browser whose TLS ClientHello is imitated.
#[derive(Debug, Clone, Copy, PartialEq, Eq, Structural)]
pub enum FingerprintType {
    Chrome,
    Firefox,
    Safari,
    Edge,
    Ios,
    Android,
    Random,
    /// No imitation: the TLS library's own defaults.
    RustlsDefault,
}

/// The fingerprint a configuration string names, case-insensitively; unknown names
/// mean the TLS library's defaults.
pub open spec fn fingerprint_of(s: Seq<char>) -> FingerprintType {
    let l = lower(s);
    if l == "chrome"@ {
        FingerprintType::Chrome
    } else if l == "firefox"@ {
        FingerprintType::Firefox
    } else if l == "safari"@ {
        FingerprintType::Safari
    } else if l == "edge"@ {
        FingerprintType::Edge
    } else if l == "ios"@ {
        FingerprintType::Ios
    } else if l == "android"@ {
        FingerprintType::Android
    } else if l == "random"@ || l == "randomized"@ {
        FingerprintType::Random
    } else {
        FingerprintType::RustlsDefault
    }
}

impl FingerprintType {
    pub fn from_str(s: &str) -> (r: Self)
        ensures
            r == fingerprint_of(s@),
    {
        if lower_eq(s, "chrome") {
            FingerprintType::Chrome
        } else if lower_eq(s, "firefox") {
            FingerprintType::Firefox
        } else if lower_eq(s, "safari") {
            FingerprintType::Safari
        } else if lower_eq(s, "edge") {
            FingerprintType::Edge
        } else if lower_eq(s, "ios") {
            FingerprintType::Ios
        } else if lower_eq(s, "android") {
            FingerprintType::Android
        } else if lower_eq(s, "random") || lower_eq(s, "randomized") {
            FingerprintType::Random
        } else {
            FingerprintType::RustlsDefault
        }
    }
}

} // verus!
