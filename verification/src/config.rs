//! What the process is configured with: the listen address and the grace
//! period of a shutdown, each with its default.

use vstd::prelude::*;
use vstd::string::*;
use crate::address::laws::lemma_text_resolves;
use crate::address::{
    bounded_decimal, decimal_text, is_digit, read_decimal, resolve, resolve_text, Host, Ipv4Host,
    ListenAddress, ResolveError,
};

verus! {

/// The address that is served when none is configured.
pub const DEFAULT_LISTEN_ADDRESS: &'static str = "0.0.0.0:50051";

/// The grace period of a shutdown, in seconds, when none is configured.
pub const DEFAULT_GRACE_SECONDS: u16 = 30;

/// The address that the default text writes: every host of this machine, port 50051.
pub open spec fn default_address() -> ListenAddress {
    ListenAddress { host: Host::V4(Ipv4Host { a: 0, b: 0, c: 0, d: 0 }), port: 50051 }
}

/// The address that a configuration resolves to.
pub open spec fn configured_address(configured: Option<Seq<char>>) -> Result<
    ListenAddress,
    ResolveError,
> {
    match configured {
        Some(text) => resolve_text(text),
        None => Ok(default_address()),
    }
}

/// The grace period that a configuration gives: the number that the text
/// writes, where it is a run of digits and at most 65535, else the default.
pub open spec fn configured_grace(configured: Option<Seq<char>>) -> u16 {
    match configured {
        Some(text) => match bounded_decimal(text, 65535) {
            Some(seconds) => seconds as u16,
            None => DEFAULT_GRACE_SECONDS,
        },
        None => DEFAULT_GRACE_SECONDS,
    }
}

/// The default text is the text of the default address, and resolves to it.
pub proof fn lemma_default_address_resolves()
    ensures
        DEFAULT_LISTEN_ADDRESS@ == default_address().text(),
        resolve_text(DEFAULT_LISTEN_ADDRESS@) == Ok::<ListenAddress, ResolveError>(
            default_address(),
        ),
{
    reveal_strlit("0.0.0.0:50051");
    reveal_with_fuel(decimal_text, 5);
    assert(decimal_text(0) =~= seq!['0']);
    assert(decimal_text(50051) =~= seq!['5', '0', '0', '5', '1']);
    assert(DEFAULT_LISTEN_ADDRESS@ =~= default_address().text());
    lemma_text_resolves(default_address());
}

/// Resolves the configured address; where none is configured, the default one,
/// which always resolves.
pub fn resolve_configured(configured: Option<&str>) -> (r: Result<ListenAddress, ResolveError>)
    ensures
        r == configured_address(
            match configured {
                Some(text) => Some(text@),
                None => None,
            },
        ),
{
    proof {
        lemma_default_address_resolves();
    }
    match configured {
        Some(text) => resolve(text),
        None => resolve(DEFAULT_LISTEN_ADDRESS),
    }
}

/// The configured grace period of a shutdown, in seconds.
pub fn grace_seconds(configured: Option<&str>) -> (r: u16)
    ensures
        r == configured_grace(
            match configured {
                Some(text) => Some(text@),
                None => None,
            },
        ),
{
    match configured {
        Some(text) => {
            if !text.is_ascii() {
                proof {
                    let j = choose|j: int|
                        0 <= j < text@.len() && !('\0' <= #[trigger] text@[j] <= '\u{7f}');
                    assert(!is_digit(text@[j]));
                }
                return DEFAULT_GRACE_SECONDS;
            }
            match read_decimal(text, 65535) {
                Some(seconds) => seconds as u16,
                None => DEFAULT_GRACE_SECONDS,
            }
        },
        None => DEFAULT_GRACE_SECONDS,
    }
}

} // verus!
