//! The interrupt lines the kernel wires up, and the numbering the
//! interrupt controller's registers use for them. Touching the controller
//! itself is memory-mapped I/O and stays outside this crate.

use vstd::prelude::*;

verus! {

/// Number of wired interrupt lines.
pub const IRQ_COUNT: usize = 8;

/// One of the interrupt lines this kernel handles.
#[derive(PartialEq, Eq, Structural, Copy, Clone, Debug)]
pub enum Interrupt {
    Timer1,
    Timer3,
    Usb,
    Gpio0,
    Gpio1,
    Gpio2,
    Gpio3,
    Uart,
}

impl Interrupt {
    /// The dense index a handler table uses for this line.
    pub open spec fn index_spec(self) -> int {
        match self {
            Interrupt::Timer1 => 0,
            Interrupt::Timer3 => 1,
            Interrupt::Usb => 2,
            Interrupt::Gpio0 => 3,
            Interrupt::Gpio1 => 4,
            Interrupt::Gpio2 => 5,
            Interrupt::Gpio3 => 6,
            Interrupt::Uart => 7,
        }
    }

    /// The IRQ number the controller's registers use for this line.
    pub open spec fn irq_spec(self) -> int {
        match self {
            Interrupt::Timer1 => 1,
            Interrupt::Timer3 => 3,
            Interrupt::Usb => 9,
            Interrupt::Gpio0 => 49,
            Interrupt::Gpio1 => 50,
            Interrupt::Gpio2 => 51,
            Interrupt::Gpio3 => 52,
            Interrupt::Uart => 57,
        }
    }

    /// All wired lines, in index order.
    pub fn iter() -> (r: Vec<Interrupt>)
        ensures
            r@.len() == IRQ_COUNT,
            forall|i: int| 0 <= i < IRQ_COUNT ==> (#[trigger] r@[i]).index_spec() == i,
    {
        let mut v: Vec<Interrupt> = Vec::new();
        v.push(Interrupt::Timer1);
        v.push(Interrupt::Timer3);
        v.push(Interrupt::Usb);
        v.push(Interrupt::Gpio0);
        v.push(Interrupt::Gpio1);
        v.push(Interrupt::Gpio2);
        v.push(Interrupt::Gpio3);
        v.push(Interrupt::Uart);
        v
    }

    /// The dense index a handler table uses for `i`.
    pub fn to_index(i: Interrupt) -> (r: usize)
        ensures
            r == i.index_spec(),
            r < IRQ_COUNT,
    {
        match i {
            Interrupt::Timer1 => 0,
            Interrupt::Timer3 => 1,
            Interrupt::Usb => 2,
            Interrupt::Gpio0 => 3,
            Interrupt::Gpio1 => 4,
            Interrupt::Gpio2 => 5,
            Interrupt::Gpio3 => 6,
            Interrupt::Uart => 7,
        }
    }

    /// The line with dense index `i`.
    pub fn from_index(i: usize) -> (r: Interrupt)
        requires
            i < IRQ_COUNT,
        ensures
            r.index_spec() == i,
    {
        if i == 0 {
            Interrupt::Timer1
        } else if i == 1 {
            Interrupt::Timer3
        } else if i == 2 {
            Interrupt::Usb
        } else if i == 3 {
            Interrupt::Gpio0
        } else if i == 4 {
            Interrupt::Gpio1
        } else if i == 5 {
            Interrupt::Gpio2
        } else if i == 6 {
            Interrupt::Gpio3
        } else {
            Interrupt::Uart
        }
    }

    /// The IRQ number the controller's registers use for this line.
    pub fn irq_number(self) -> (r: usize)
        ensures
            r == self.irq_spec(),
    {
        match self {
            Interrupt::Timer1 => 1,
            Interrupt::Timer3 => 3,
            Interrupt::Usb => 9,
            Interrupt::Gpio0 => 49,
            Interrupt::Gpio1 => 50,
            Interrupt::Gpio2 => 51,
            Interrupt::Gpio3 => 52,
            Interrupt::Uart => 57,
        }
    }
}

} // verus!
