//! The conformance and demonstration layer around the kernel: the
//! scenario corpus model, divergence replay, the reference merge oracle,
//! the golden expectations, kernel/oracle conformance, the seeded
//! partition simulator, the story theater, and the reports and corpus
//! audit the operator command line prints.

pub mod scenario;
pub mod replay;
pub mod oracle;
pub mod conformance;
pub mod golden;
pub mod sim;
pub mod theater;
pub mod report;
pub mod audit;
