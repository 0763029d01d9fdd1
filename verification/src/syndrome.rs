//! Decoding of the exception syndrome register (ESR) into the cause of a
//! synchronous exception.

use vstd::prelude::*;

verus! {

/// The fault reported by an instruction or data abort, from the fault
/// status code in the syndrome's low bits.
#[derive(PartialEq, Eq, Structural, Copy, Clone, Debug)]
pub enum Fault {
    AddressSize,
    Translation,
    AccessFlag,
    Permission,
    Alignment,
    TlbConflict,
    Other(u8),
}

/// What `Fault::from` decodes from a raw syndrome value: bits 5:2 hold the
/// fault category; a TLB-conflict code is refined by bit 0.
pub open spec fn fault_spec(val: int) -> Fault {
    let category = (val / 4) % 16;
    if category == 0 {
        Fault::AddressSize
    } else if category == 1 {
        Fault::Translation
    } else if category == 2 {
        Fault::AccessFlag
    } else if category == 3 {
        Fault::Permission
    } else if category == 8 {
        Fault::Alignment
    } else if category == 12 {
        if val % 2 == 0 {
            Fault::TlbConflict
        } else {
            Fault::Other((val % 64) as u8)
        }
    } else {
        Fault::Other((val % 64) as u8)
    }
}

impl Fault {
    /// Decodes the fault status field of a raw syndrome value.
    pub fn from(val: u32) -> (r: Fault)
        ensures
            r == fault_spec(val as int),
    {
        let category = (val / 4) % 16;
        if category == 0 {
            Fault::AddressSize
        } else if category == 1 {
            Fault::Translation
        } else if category == 2 {
            Fault::AccessFlag
        } else if category == 3 {
            Fault::Permission
        } else if category == 8 {
            Fault::Alignment
        } else if category == 12 {
            if val % 2 == 0 {
                Fault::TlbConflict
            } else {
                Fault::Other((val % 64) as u8)
            }
        } else {
            Fault::Other((val % 64) as u8)
        }
    }
}

/// The cause of a synchronous exception, decoded from the ESR.
#[derive(PartialEq, Eq, Structural, Copy, Clone, Debug)]
pub enum Syndrome {
    Unknown,
    WfiWfe,
    SimdFp,
    IllegalExecutionState,
    Svc(u16),
    Hvc(u16),
    Smc(u16),
    MsrMrsSystem,
    InstructionAbort { kind: Fault, level: u8 },
    PCAlignmentFault,
    DataAbort { kind: Fault, level: u8 },
    SpAlignmentFault,
    TrappedFpu,
    SError,
    Breakpoint,
    Step,
    Watchpoint,
    Brk(u16),
    Other(u32),
}

/// The exception class held in ESR bits 31:26.
pub open spec fn esr_class(esr: int) -> int {
    esr / 0x400_0000
}

/// The 16-bit immediate of an `SVC`, `HVC`, `SMC` or `BRK`, in ESR bits
/// 15:0.
pub open spec fn esr_imm16(esr: int) -> int {
    esr % 0x1_0000
}

/// What `Syndrome::from` decodes from a raw ESR value (the architecture's
/// exception-class table).
pub open spec fn syndrome_spec(esr: int) -> Syndrome {
    let ec = esr_class(esr);
    if ec == 0x00 {
        Syndrome::Unknown
    } else if ec == 0x01 {
        Syndrome::WfiWfe
    } else if ec == 0x07 {
        Syndrome::SimdFp
    } else if ec == 0x0e {
        Syndrome::IllegalExecutionState
    } else if ec == 0x11 || ec == 0x15 {
        Syndrome::Svc(esr_imm16(esr) as u16)
    } else if ec == 0x12 || ec == 0x16 {
        Syndrome::Hvc(esr_imm16(esr) as u16)
    } else if ec == 0x13 || ec == 0x17 {
        Syndrome::Smc(esr_imm16(esr) as u16)
    } else if ec == 0x18 {
        Syndrome::MsrMrsSystem
    } else if ec == 0x20 || ec == 0x21 {
        Syndrome::InstructionAbort { kind: fault_spec(esr), level: (esr % 4) as u8 }
    } else if ec == 0x22 {
        Syndrome::PCAlignmentFault
    } else if ec == 0x24 || ec == 0x25 {
        Syndrome::DataAbort { kind: fault_spec(esr), level: (esr % 4) as u8 }
    } else if ec == 0x26 {
        Syndrome::SpAlignmentFault
    } else if ec == 0x28 || ec == 0x2c {
        Syndrome::TrappedFpu
    } else if ec == 0x2f {
        Syndrome::SError
    } else if ec == 0x30 || ec == 0x31 {
        Syndrome::Breakpoint
    } else if ec == 0x32 || ec == 0x33 {
        Syndrome::Step
    } else if ec == 0x34 || ec == 0x35 {
        Syndrome::Watchpoint
    } else if ec == 0x3c {
        Syndrome::Brk(esr_imm16(esr) as u16)
    } else {
        Syndrome::Other(esr as u32)
    }
}

impl Syndrome {
    /// Converts a raw syndrome value (ESR) into a `Syndrome`.
    pub fn from(esr: u32) -> (r: Syndrome)
        ensures
            r == syndrome_spec(esr as int),
    {
        let ec = esr / 0x400_0000;
        let imm16 = (esr % 0x1_0000) as u16;
        if ec == 0x00 {
            Syndrome::Unknown
        } else if ec == 0x01 {
            Syndrome::WfiWfe
        } else if ec == 0x07 {
            Syndrome::SimdFp
        } else if ec == 0x0e {
            Syndrome::IllegalExecutionState
        } else if ec == 0x11 || ec == 0x15 {
            Syndrome::Svc(imm16)
        } else if ec == 0x12 || ec == 0x16 {
            Syndrome::Hvc(imm16)
        } else if ec == 0x13 || ec == 0x17 {
            Syndrome::Smc(imm16)
        } else if ec == 0x18 {
            Syndrome::MsrMrsSystem
        } else if ec == 0x20 || ec == 0x21 {
            Syndrome::InstructionAbort { kind: Fault::from(esr), level: (esr % 4) as u8 }
        } else if ec == 0x22 {
            Syndrome::PCAlignmentFault
        } else if ec == 0x24 || ec == 0x25 {
            Syndrome::DataAbort { kind: Fault::from(esr), level: (esr % 4) as u8 }
        } else if ec == 0x26 {
            Syndrome::SpAlignmentFault
        } else if ec == 0x28 || ec == 0x2c {
            Syndrome::TrappedFpu
        } else if ec == 0x2f {
            Syndrome::SError
        } else if ec == 0x30 || ec == 0x31 {
            Syndrome::Breakpoint
        } else if ec == 0x32 || ec == 0x33 {
            Syndrome::Step
        } else if ec == 0x34 || ec == 0x35 {
            Syndrome::Watchpoint
        } else if ec == 0x3c {
            Syndrome::Brk(imm16)
        } else {
            Syndrome::Other(esr)
        }
    }
}

} // verus!
