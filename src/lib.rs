//! Decoding of 32-bit binary strings and of the IEEE 754 single-precision
//! values that such bit patterns encode.
pub mod bit_parser;
pub mod float_interpreter;
