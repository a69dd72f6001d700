//! The commands of the command-line front end, and the human-readable listing of the
//! generation store.
use vstd::prelude::*;
use crate::manifest::GenerationHash;

verus! {

/// The front end's commands.
#[derive(Debug, Clone)]
pub enum Cli {
    /// Install the latest generation of the configuration's plugins.
    Install {
        /// The path to the config file
        path: Option<String>,
        /// The data directory
        data_dir: Option<String>,
    },
    /// List the stored generations.
    ListGenerations {
        /// The data directory containing the generations file
        data_dir: Option<String>,
        /// The output format; human-readable when absent
        format_style: Option<ListGenerationsFormatMethod>,
    },
}

/// How generations are listed.
#[derive(Debug, Clone, Copy, PartialEq, Eq, Structural)]
pub enum ListGenerationsFormatMethod {
    /// Human-readable output
    Human,
    /// JSON output, to be parsed by another program
    Json,
}

/// The text of one decimal digit.
pub open spec fn digit_of(d: nat) -> Seq<char> {
    if d == 0 {
        "0"@
    } else if d == 1 {
        "1"@
    } else if d == 2 {
        "2"@
    } else if d == 3 {
        "3"@
    } else if d == 4 {
        "4"@
    } else if d == 5 {
        "5"@
    } else if d == 6 {
        "6"@
    } else if d == 7 {
        "7"@
    } else if d == 8 {
        "8"@
    } else {
        "9"@
    }
}

/// The decimal text of a number, without leading zeros.
pub open spec fn decimal_of(n: nat) -> Seq<char>
    decreases n,
{
    if n < 10 {
        digit_of(n)
    } else {
        decimal_of(n / 10) + digit_of(n % 10)
    }
}

fn digit(d: u64) -> (r: String)
    requires
        d < 10,
    ensures
        r@ == digit_of(d as nat),
{
    let t = if d == 0 {
        "0"
    } else if d == 1 {
        "1"
    } else if d == 2 {
        "2"
    } else if d == 3 {
        "3"
    } else if d == 4 {
        "4"
    } else if d == 5 {
        "5"
    } else if d == 6 {
        "6"
    } else if d == 7 {
        "7"
    } else if d == 8 {
        "8"
    } else {
        "9"
    };
    t.to_owned()
}

/// The decimal text of a number.
pub fn decimal(n: u64) -> (r: String)
    ensures
        r@ == decimal_of(n as nat),
    decreases n,
{
    if n < 10 {
        digit(n)
    } else {
        let head = decimal(n / 10);
        let tail = digit(n % 10);
        head.concat(tail.as_str())
    }
}

/// The listing line of the generation at position `index`.
pub open spec fn generation_line_of(index: nat, key: GenerationHash) -> Seq<char> {
    "Manifest number "@ + decimal_of(index) + " | Hash "@ + decimal_of(key.0 as nat)
        + " | generation "@ + decimal_of(key.1 as nat)
}

/// The listing line of the generation at position `index`: its position, its
/// configuration hash and its generation number.
pub fn generation_line(index: u64, key: GenerationHash) -> (r: String)
    ensures
        r@ == generation_line_of(index as nat, key),
{
    let s = "Manifest number ".to_owned().concat(decimal(index).as_str()).concat(" | Hash ");
    let s = s.concat(decimal(key.0).as_str()).concat(" | generation ");
    s.concat(decimal(key.1).as_str())
}

} // verus!
