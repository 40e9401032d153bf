//! A fixed-capacity bump arena whose blocks form an implicit forward chain,
//! with a batch command runner on top of it; the records and rules of the
//! blog program that clap batches ride on; and the proof-of-work check and
//! line parsing of its handshake.
pub mod word;
pub mod arena;
pub mod kit;
pub mod laws;
pub mod pow;
pub mod line;
pub mod program;
pub mod post;
