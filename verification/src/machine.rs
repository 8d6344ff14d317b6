//! What a watch reads of the simulated machine between two cycles.

use vstd::prelude::*;

verus! {

/// The three registers of one I/O port.
#[derive(Copy, Clone, Debug, PartialEq, Eq, PartialOrd, Ord, Structural)]
pub struct IoState {
    /// The output register.
    pub port: u8,
    /// The input pins.
    pub pin: u8,
    /// The data direction register.
    pub data_direction_register: u8,
}

/// The registers of the port with one letter.
#[derive(Copy, Clone, Debug, PartialEq, Eq, Structural)]
pub struct PortSample {
    pub port_letter: char,
    pub state: IoState,
}

/// The state of the machine that watches read: the bytes of data space,
/// and the registers of the I/O ports that were sampled.
#[derive(Debug, PartialEq, Eq)]
pub struct MachineState {
    /// Data space, from its first address to its last.
    pub data: Vec<u8>,
    /// The sampled ports. Where a letter occurs twice, the first sample counts.
    pub ports: Vec<PortSample>,
}

/// The index of the first sample of the port `letter`, or the number of
/// samples where there is none.
pub open spec fn port_position(ports: Seq<PortSample>, letter: char) -> int
    decreases ports.len(),
{
    if ports.len() == 0 {
        0
    } else if ports[0].port_letter == letter {
        0
    } else {
        1 + port_position(ports.skip(1), letter)
    }
}

/// The registers of the port `letter`, where it was sampled.
pub open spec fn port_state(ports: Seq<PortSample>, letter: char) -> Option<IoState> {
    if port_position(ports, letter) < ports.len() {
        Some(ports[port_position(ports, letter)].state)
    } else {
        None
    }
}

/// `port_position` lies within the samples; the sample at it is of the
/// port, where it lies before the end; no sample before it is.
pub proof fn lemma_port_position(ports: Seq<PortSample>, letter: char)
    ensures
        0 <= port_position(ports, letter) <= ports.len(),
        port_position(ports, letter) < ports.len() ==> ports[port_position(
            ports,
            letter,
        )].port_letter == letter,
        forall|j: int|
            0 <= j < port_position(ports, letter) ==> (#[trigger] ports[j]).port_letter != letter,
    decreases ports.len(),
{
    if ports.len() > 0 && ports[0].port_letter != letter {
        let tail = ports.skip(1);
        lemma_port_position(tail, letter);
        assert forall|j: int| 0 <= j < port_position(ports, letter) implies (
        #[trigger] ports[j]).port_letter != letter by {
            if j > 0 {
                assert(tail[j - 1] == ports[j]);
            }
        }
    }
}

/// Whether bit `index` of `byte` is set. A byte has no bit above the seventh.
pub open spec fn bit_is_set(byte: u8, index: u8) -> bool {
    index < 8 && byte & (1u8 << index) == (1u8 << index)
}

/// The code of a request to the simulator that four bytes name: the first
/// byte is the most significant.
pub open spec fn ioctl_code(a: u32, b: u32, c: u32, d: u32) -> u32 {
    (a << 24) | (b << 16) | (c << 8) | d
}

/// For four bytes, the code is the number that they write in base 256.
pub proof fn lemma_ioctl_code_of_bytes(a: u8, b: u8, c: u8, d: u8)
    ensures
        ioctl_code(a as u32, b as u32, c as u32, d as u32) == a * 0x100_0000 + b * 0x1_0000 + c
            * 0x100 + d,
{
    assert(((a as u32) << 24) | ((b as u32) << 16) | ((c as u32) << 8) | (d as u32) == a
        * 0x100_0000 + b * 0x1_0000 + c * 0x100 + d) by (bit_vector);
}

/// The code of the request that the four characters name.
pub fn avr_ioctl_def(a: char, b: char, c: char, d: char) -> (code: u32)
    ensures
        code == ioctl_code(a as u32, b as u32, c as u32, d as u32),
{
    ((a as u32) << 24) | ((b as u32) << 16) | ((c as u32) << 8) | (d as u32)
}

/// The code of the request for the registers of the port `port_name`.
pub fn avr_ioctl_ioport_get_state(port_name: char) -> (code: u32)
    ensures
        code == ioctl_code('i' as u32, 'o' as u32, 's' as u32, port_name as u32),
{
    avr_ioctl_def('i', 'o', 's', port_name)
}

/// The code of the request that four bytes name.
pub fn ioctl(a: u8, b: u8, c: u8, d: u8) -> (code: u32)
    ensures
        code == ioctl_code(a as u32, b as u32, c as u32, d as u32),
        code == a * 0x100_0000 + b * 0x1_0000 + c * 0x100 + d,
{
    proof {
        lemma_ioctl_code_of_bytes(a, b, c, d);
    }
    ((a as u32) << 24) | ((b as u32) << 16) | ((c as u32) << 8) | (d as u32)
}

/// The code of requests to the UART named `name`, of which the lowest
/// eight bits count.
pub fn uart(name: char) -> (code: u32)
    ensures
        code == ioctl_code('u' as u32, 'a' as u32, 'r' as u32, (name as u8) as u32),
{
    ioctl(117, 97, 114, #[verifier::truncate] (name as u8))
}

impl MachineState {
    /// The registers of the port `letter`, where it was sampled.
    pub fn io_state(&self, letter: char) -> (state: Option<IoState>)
        ensures
            state == port_state(self.ports@, letter),
    {
        let mut index: usize = 0;
        while index < self.ports.len()
            invariant
                index <= self.ports@.len(),
                forall|j: int| 0 <= j < index ==> (#[trigger] self.ports@[j]).port_letter != letter,
            decreases self.ports@.len() - index,
        {
            if self.ports[index].port_letter == letter {
                proof {
                    lemma_port_position(self.ports@, letter);
                }
                return Some(self.ports[index].state);
            }
            index += 1;
        }
        proof {
            lemma_port_position(self.ports@, letter);
        }
        None
    }
}

/// Whether bit `index` of `byte` is set.
pub fn bit_set(byte: u8, index: u8) -> (set: bool)
    ensures
        set == bit_is_set(byte, index),
{
    if index < 8 {
        let mask: u8 = 1u8 << index;
        byte & mask == mask
    } else {
        false
    }
}

} // verus!
