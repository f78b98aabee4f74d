//! Reading of the command line.

use vstd::prelude::*;
use crate::text::{joined, same_text, text_of};

verus! {

/// What the command line asks for.
pub enum CliRequest {
    /// Run against the controller at `api_addr` (`host:port`).
    Run { api_addr: String, secret: Option<String> },
    /// Show the usage text and stop.
    Help,
    /// The option named here was given without its value.
    MissingValue(String),
    /// This argument is not understood.
    Unknown(String),
}

/// The controller address used when none is given.
pub open spec fn default_api_addr() -> Seq<char> {
    "127.0.0.1:9090"@
}

/// What the arguments from position `i` on ask for, given the address and
/// secret that the earlier ones set: `--api` and `--secret` take the next
/// argument as their value (a later one overrides an earlier one), `--help`
/// or `-h` stops with the usage text, anything else is refused.
pub open spec fn request_from(
    args: Seq<Seq<char>>,
    i: int,
    api: Seq<char>,
    secret: Option<Seq<char>>,
    r: CliRequest,
) -> bool
    decreases args.len() - i,
{
    if i < 0 || i >= args.len() {
        r matches CliRequest::Run { api_addr, secret: s } && api_addr@ == api && text_of(s)
            == secret
    } else if args[i] == "--api"@ {
        if i + 1 < args.len() {
            request_from(args, i + 2, args[i + 1], secret, r)
        } else {
            r matches CliRequest::MissingValue(f) && f@ == "--api"@
        }
    } else if args[i] == "--secret"@ {
        if i + 1 < args.len() {
            request_from(args, i + 2, api, Some(args[i + 1]), r)
        } else {
            r matches CliRequest::MissingValue(f) && f@ == "--secret"@
        }
    } else if args[i] == "--help"@ || args[i] == "-h"@ {
        r is Help
    } else {
        r matches CliRequest::Unknown(a) && a@ == args[i]
    }
}


/// Reads the arguments that follow the program name.
pub fn parse_args(args: &Vec<String>) -> (r: CliRequest)
    ensures
        request_from(args@.map_values(|a: String| a@), 0, default_api_addr(), None, r),
{
    let ghost views = args@.map_values(|a: String| a@);
    let mut api_addr = String::from_str("127.0.0.1:9090");
    let mut secret: Option<String> = None;
    let mut i: usize = 0;
    while i < args.len()
        invariant
            views == args@.map_values(|a: String| a@),
            i <= args@.len(),
            forall|r: CliRequest|
                request_from(views, i as int, api_addr@, text_of(secret), r)
                    ==> #[trigger] request_from(views, 0, default_api_addr(), None, r),
        decreases args@.len() - i,
    {
        let arg = &args[i];
        if same_text(arg, "--api") {
            if i + 1 < args.len() {
                api_addr = args[i + 1].clone();
                i = i + 2;
            } else {
                return CliRequest::MissingValue(String::from_str("--api"));
            }
        } else if same_text(arg, "--secret") {
            if i + 1 < args.len() {
                secret = Some(args[i + 1].clone());
                i = i + 2;
            } else {
                return CliRequest::MissingValue(String::from_str("--secret"));
            }
        } else if same_text(arg, "--help") || same_text(arg, "-h") {
            return CliRequest::Help;
        } else {
            return CliRequest::Unknown(arg.clone());
        }
    }
    CliRequest::Run { api_addr, secret }
}

/// The controller URL for an address given as `host:port`.
pub fn api_url_for(api_addr: &str) -> (r: String)
    ensures
        r@ == "http://"@ + api_addr@,
{
    joined("http://", api_addr)
}

} // verus!
