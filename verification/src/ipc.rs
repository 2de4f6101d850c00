//! The daemon's command socket and command line.

use vstd::prelude::*;

use crate::text::{join_path, joined};

verus! {

/// Path of the Unix socket that triggers the overlay, given the value of
/// `XDG_RUNTIME_DIR` (`None` where unset, then `/tmp` is used).
pub fn socket_path(runtime_dir: Option<&str>) -> (r: String)
    ensures
        r@ == joined(
            match runtime_dir {
                Some(d) => d@,
                None => "/tmp"@,
            },
            "alttab.sock"@,
        ),
{
    let dir = match runtime_dir {
        Some(d) => d,
        None => "/tmp",
    };
    join_path(dir, "alttab.sock")
}

/// `std::str::from_utf8`, of which only success is kept: its documentation
/// promises success exactly for valid UTF-8.
#[verifier::external_body]
fn is_utf8(bytes: &[u8]) -> (r: bool)
    ensures
        r == vstd::utf8::valid_utf8(bytes@),
{
    std::str::from_utf8(bytes).is_ok()
}

/// The bytes of the word `show`.
pub open spec fn show_word() -> Seq<u8> {
    seq![0x73u8, 0x68u8, 0x6fu8, 0x77u8]
}

/// Whether a message received on the command socket asks to show the
/// overlay: it is valid UTF-8 text that starts with `show`.
pub fn is_show_request(msg: &[u8]) -> (r: bool)
    ensures
        r == (vstd::utf8::valid_utf8(msg@) && show_word().is_prefix_of(msg@)),
{
    if !is_utf8(msg) {
        return false;
    }
    if msg.len() < 4 {
        return false;
    }
    let starts = msg[0] == 0x73u8 && msg[1] == 0x68u8 && msg[2] == 0x6fu8 && msg[3] == 0x77u8;
    assert(starts == (show_word() =~= msg@.subrange(0, 4)));
    starts
}

/// Whether the command line asks this process to act as a client that signals
/// the running daemon: its first argument (after the program name) is `--show`.
pub fn is_client_mode(args: &Vec<String>) -> (r: bool)
    ensures
        r == (args@.len() > 1 && args@[1]@ == "--show"@),
{
    if args.len() <= 1 {
        return false;
    }
    let flag = String::from_str("--show");
    args[1] == flag
}

} // verus!
