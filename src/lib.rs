//! Parallel search for primes with a randomized Miller-Rabin test over
//! arbitrary-precision naturals, and the fan-in protocol that decides when
//! every worker has scanned past the ceiling.

pub mod natural;
pub mod primality;
pub mod config;
pub mod worker;
pub mod coordinator;
