//! Place and route for the Xilinx Coolrunner-II XC2C32 and XC2C32A CPLDs,
//! and their bitstreams.
//!
//! A netlist of macrocells, product terms and global buffers
//! ([`netlist`]) is checked ([`sanity`]), placed greedily ([`greedy`],
//! [`bufplace`]) and repaired until every function block can be assigned
//! ([`par`], [`repair`]): its product terms to AND terms ([`andterms`])
//! and its inputs to ZIA rows ([`ziaroute`]). The placement
//! ([`outgraph`]) is then assembled into a bitstream ([`output`]).
//!
//! A bitstream ([`bitstream`], [`fb`], [`mc`], [`iob`]) is held in a fuse
//! array and carried by a JEDEC file ([`jed`], [`text`]). A JEDEC file is
//! read back into a fuse array ([`jedread`]) and a fuse array into a
//! bitstream; what was written is what is read ([`readback`],
//! [`roundtrip`]).
//!
//! The target device ([`device`]) is described by tables that the caller
//! supplies: the pads of the global nets and the ZIA routing table
//! ([`zia`]). Random numbers come from the `rand` crate ([`prng`]).

pub mod text;
pub mod zia;
pub mod mc;
pub mod iob;
pub mod fb;
pub mod jed;
pub mod jedread;
pub mod readback;
pub mod bitstream;
pub mod roundtrip;
pub mod netlist;
pub mod device;
pub mod outgraph;
pub mod bufplace;
pub mod greedy;
pub mod andterms;
pub mod ziaroute;
pub mod sanity;
pub mod repair;
pub mod prng;
pub mod par;
pub mod output;
