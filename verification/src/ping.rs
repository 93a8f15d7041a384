//! Arguments for one probe with the system's `ping` command.

use vstd::prelude::*;

verus! {

/// The operating-system family that the `ping` command belongs to.
#[derive(Clone, Copy, Debug, PartialEq, Eq, Structural)]
pub enum TargetFamily {
    Unix,
    Windows,
    Other,
}

/// The argument list that `ping_command_args` produces, as text.
///
/// Both lists ask for a single echo request with a timeout of five
/// seconds; the families differ in the flags and in the unit of the timeout.
pub open spec fn ping_args(host: Seq<char>, family: TargetFamily) -> Seq<Seq<char>> {
    match family {
        TargetFamily::Unix => seq![seq!['-', 'c'], seq!['1'], seq!['-', 'W'], seq!['5'], host],
        TargetFamily::Windows => seq![
            seq!['-', 'n'],
            seq!['1'],
            seq!['-', 'w'],
            seq!['5', '0', '0', '0'],
            host,
        ],
        TargetFamily::Other => seq![],
    }
}

/// Create the `ping` arguments for one probe of `host` on the given family.
pub fn ping_command_args<'a>(host: &'a str, family: TargetFamily) -> (args: Vec<&'a str>)
    ensures
        args.deep_view() == ping_args(host@, family),
{
    proof {
        reveal_strlit("-c");
        reveal_strlit("-n");
        reveal_strlit("-W");
        reveal_strlit("-w");
        reveal_strlit("1");
        reveal_strlit("5");
        reveal_strlit("5000");
    }
    let args = match family {
        TargetFamily::Unix => vec!["-c", "1", "-W", "5", host],
        TargetFamily::Windows => vec!["-n", "1", "-w", "5000", host],
        TargetFamily::Other => vec![],
    };
    proof {
        let expected = ping_args(host@, family);
        assert forall|i: int| 0 <= i < expected.len() implies args.deep_view()[i]
            == expected[i] by {}
    }
    args
}

} // verus!
