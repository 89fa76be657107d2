//! Game engines for Monte Carlo tree search playtesting: the rules of the
//! games as verified state-transition functions, with the pieces of the
//! search that work on integers.

pub mod actor;
pub mod seqs;
pub mod ebr;
pub mod nt;
pub mod c4;
pub mod cs;
pub mod utwid;
pub mod sender;
pub mod games;
pub mod policy;
pub mod injectable;
pub mod weighted_random;
