//! A codec between tensors and a self-describing binary envelope.
//!
//! `dtype` holds the table of element types, their wire descriptors and the one widening
//! (16-bit brain float travels as 4-byte float). `wire` writes and reads the MessagePack values
//! the envelope is made of. `codec` holds the envelope itself, the encode and decode pipeline
//! with their exact contracts, and the laws that tie them together.
pub mod codec;
pub mod dtype;
pub mod wire;
