//! Cross-checking process listings to find processes hidden by rootkits.
//!
//! The library holds the decisions of the scanner: parsing the textual
//! listings that `ps`, procfs, a kernel module and an eBPF iterator produce,
//! classifying every PID by which sources see it, and assembling the final
//! report.  Reading files, running commands and talking to the kernel is left
//! to the program that drives the library.
pub mod audit;
pub mod detector;
pub mod listing;
pub mod netlink;
pub mod text;
