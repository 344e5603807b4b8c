//! How a run under an emulator ends.
use vstd::prelude::*;

verus! {

/// The port that ends the run.
pub const EXIT_PORT: u16 = 0xf4;

/// How the run went.
#[derive(Debug, Clone, Copy, PartialEq, Eq, Structural)]
pub enum ExitCode {
    /// Everything passed.
    Success,
    /// Something failed.
    Failed,
}

impl ExitCode {
    /// What is written in the port.
    pub open spec fn valor_spec(self) -> u32 {
        match self {
            ExitCode::Success => 0x10,
            ExitCode::Failed => 0x11,
        }
    }

    /// What is written in the port.
    pub fn valor(self) -> (r: u32)
        ensures
            r == self.valor_spec(),
    {
        match self {
            ExitCode::Success => 0x10,
            ExitCode::Failed => 0x11,
        }
    }

    /// The code with which the emulator ends: twice what was written, and one.
    pub fn no_hospedeiro(self) -> (r: u32)
        ensures
            r == 2 * self.valor_spec() + 1,
    {
        2 * self.valor() + 1
    }
}

/// No run ends with the codes 0 and 1, with which the emulator itself ends, and
/// the two ways to end are told apart.
pub proof fn lei_codigo_inconfundivel(a: ExitCode, b: ExitCode)
    ensures
        2 * a.valor_spec() + 1 > 1,
        a != b ==> 2 * a.valor_spec() + 1 != 2 * b.valor_spec() + 1,
{
}

/// What the host sees of a value `v` in the port is `2 * v + 1`: 33 where all went
/// well, 35 where it did not.
pub proof fn lei_codigo_no_hospedeiro(c: ExitCode)
    ensures
        2 * c.valor_spec() + 1 == if c is Success {
            33int
        } else {
            35int
        },
{
}

} // verus!
