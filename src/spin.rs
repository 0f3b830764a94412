//! The banner that names the program and its version, and the text of the
//! progress spinner.

use vstd::prelude::*;

verus! {

/// The version that the banner names.
pub const FETTER_VERSION: &'static str = "1.0.0";

/// `fetter`, the version, and the message after a colon when one is given,
/// on a line of its own.
pub open spec fn banner_spec(message: Option<Seq<char>>) -> Seq<char> {
    let msg = match message {
        Some(m) => ": "@ + m,
        None => Seq::empty(),
    };
    "fetter "@ + FETTER_VERSION@ + msg + "\n"@
}

pub fn get_banner(message: Option<String>) -> (r: String)
    ensures
        r@ == banner_spec(
            match message {
                Some(m) => Some(m@),
                None => None,
            },
        ),
{
    let msg = match &message {
        Some(m) => String::from_str(": ").concat(m.as_str()),
        None => String::new(),
    };
    let r = String::from_str("fetter ").concat(FETTER_VERSION).concat(msg.as_str()).concat("\n");
    assert(r@ =~= banner_spec(
        match message {
            Some(m) => Some(m@),
            None => None,
        },
    ));
    r
}


/// The spinner's picture at step `k`: each of ten pictures stands for two
/// steps, so that steps can come fast while the picture changes slowly.
pub open spec fn frame_spec(k: nat) -> Seq<char> {
    let i = (k % 20) / 2;
    if i == 0 || i == 8 {
        "\u{b7}"@
    } else if i == 1 || i == 7 {
        "\u{2022}"@
    } else if i == 2 || i == 6 {
        "\u{25cb}"@
    } else if i == 3 || i == 5 {
        "\u{25c9}"@
    } else if i == 4 {
        "\u{25ce}"@
    } else {
        " "@
    }
}

fn frame(k: usize) -> (r: &'static str)
    ensures
        r@ == frame_spec(k as nat),
{
    let i = (k % 20) / 2;
    if i == 0 || i == 8 {
        "\u{b7}"
    } else if i == 1 || i == 7 {
        "\u{2022}"
    } else if i == 2 || i == 6 {
        "\u{25cb}"
    } else if i == 3 || i == 5 {
        "\u{25c9}"
    } else if i == 4 {
        "\u{25ce}"
    } else {
        " "
    }
}

/// The spinner line at step `k`: the picture, a space, the message, and an
/// ellipsis.
pub fn spin_text(k: usize, message: &str) -> (r: String)
    ensures
        r@ == frame_spec(k as nat) + " "@ + message@ + "... "@,
{
    String::from_str(frame(k)).concat(" ").concat(message).concat("... ")
}

} // verus!
